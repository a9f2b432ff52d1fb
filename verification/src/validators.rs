//! The executable validator: one function for each instruction or group
//! of instructions, each proved to do what its typing rule says.

use vstd::prelude::*;
use crate::body::{
    Context,
    Simple,
    br_spec,
    br_if_spec,
    br_table_spec,
    labels_spec,
    return_spec,
    select_spec,
    local_spec,
    global_spec,
    memory_spec,
    const_spec,
    access_spec,
    call_spec,
    call_indirect_spec,
    numeric_spec,
    else_spec,
    simple_spec,
    target_frame,
};
use crate::byte_iter::ByteIter;
use crate::error::{
    Error,
    UNEXPECTED_END,
    TYPE_MISMATCH,
    UNKNOWN_LABEL,
    UNKNOWN_LOCAL,
    UNKNOWN_GLOBAL,
    UNKNOWN_MEMORY,
    UNKNOWN_TABLE,
    UNKNOWN_FUNC,
    UNKNOWN_TYPE,
    UNKNOWN_INSTRUCTION,
    GLOBAL_IS_IMMUTABLE,
    ZERO_FLAG_EXPECTED,
    INT_TOO_LARGE,
    ALIGNMENT_TOO_LARGE,
    ELSE_MUST_CLOSE_IF,
};
use crate::instructions::{
    numeric_operand,
    numeric_result,
    numeric_is_binary,
    access_type,
    natural_align,
};
use crate::leb128::{safe_read_sleb128, lemma_group_len_positive};
use crate::module::{read_u32, cursor_ok};
use crate::signature::{Signature, ValType};
use crate::validator::{ControlType, ControlFrame, StackView, ValidatorStack};

verus! {

/// Whether the outcome `r` of an exec validator, the cursor position
/// `idx` and the stacks `s` after it are what the rule `spec` says.
pub open spec fn agrees(spec: Simple, r: Result<(), Error>, idx: usize, s: StackView) -> bool {
    match spec {
        Ok((p, s2)) => r is Ok && idx == p && s == s2,
        Err(e) => r == Err::<(), Error>(e),
    }
}

/// Whether two lists of types are equal.
pub fn types_equal(a: &Vec<ValType>, b: &Vec<ValType>) -> (r: bool)
    ensures
        r == (a@ == b@),
{
    if a.len() != b.len() {
        return false;
    }
    let mut i: usize = 0;
    while i < a.len()
        invariant
            i <= a@.len(),
            a@.len() == b@.len(),
            forall|k: int| 0 <= k < i ==> a@[k] == b@[k],
        decreases a@.len() - i,
    {
        if a[i] != b[i] {
            return false;
        }
        i = i + 1;
    }
    assert(a@ =~= b@);
    true
}

/// The label types of the frame at `index`, counted from the outermost.
pub fn label_types_of(vs: &ValidatorStack, index: usize) -> (r: Vec<ValType>)
    requires
        index < vs@.ctrls.len(),
    ensures
        r@ == vs@.ctrls[index as int].label_types(),
{
    match vs.get_frame(index) {
        Some(frame) => {
            match frame.control_type {
                ControlType::Loop => frame.sig.duplicate().params,
                _ => frame.sig.results_view(),
            }
        },
        None => Vec::new(),
    }
}

/// `unreachable`.
pub fn validate_unreachable(it: &mut ByteIter, vs: &mut ValidatorStack) -> (r: Result<(), Error>)
    ensures
        *final(it) == *old(it),
        r is Ok,
        final(vs)@ == old(vs)@.unreachable(),
{
    vs.unreachable();
    Ok(())
}

/// `nop`.
pub fn validate_nop(it: &mut ByteIter, vs: &mut ValidatorStack) -> (r: Result<(), Error>)
    ensures
        *final(it) == *old(it),
        r is Ok,
        final(vs)@ == old(vs)@,
{
    Ok(())
}

/// `br`; see [`br_spec`].
pub fn validate_br(it: &mut ByteIter, vs: &mut ValidatorStack) -> (r: Result<(), Error>)
    requires
        cursor_ok(*old(it)),
    ensures
        final(it).bytes == old(it).bytes,
        cursor_ok(*final(it)),
        agrees(br_spec(old(it).bytes@, old(it).idx as int, old(vs)@), r, final(it).idx, final(vs)@),
{
    let depth: u32 = read_u32(it)?;
    let count: usize = vs.frame_count();
    if depth as usize >= count {
        return Err(Error::Validation(UNKNOWN_LABEL));
    }
    let types: Vec<ValType> = label_types_of(vs, count - depth as usize - 1);
    vs.pop_vals(&types)?;
    vs.unreachable();
    Ok(())
}

/// `br_if`; see [`br_if_spec`].
pub fn validate_br_if(it: &mut ByteIter, vs: &mut ValidatorStack) -> (r: Result<(), Error>)
    requires
        cursor_ok(*old(it)),
    ensures
        final(it).bytes == old(it).bytes,
        cursor_ok(*final(it)),
        agrees(br_if_spec(old(it).bytes@, old(it).idx as int, old(vs)@), r, final(it).idx, final(vs)@),
{
    let depth: u32 = read_u32(it)?;
    let count: usize = vs.frame_count();
    if depth as usize >= count {
        return Err(Error::Validation(UNKNOWN_LABEL));
    }
    vs.pop_val_expect(ValType::I32)?;
    let types: Vec<ValType> = label_types_of(vs, count - depth as usize - 1);
    let kept: Vec<ValType> = vs.pop_vals(&types)?;
    vs.push_vals(&kept);
    Ok(())
}

/// Reads the `n` labels of a `br_table`.
fn read_labels(it: &mut ByteIter, n: u32) -> (r: Result<Vec<u32>, Error>)
    requires
        cursor_ok(*old(it)),
    ensures
        final(it).bytes == old(it).bytes,
        cursor_ok(*final(it)),
        match labels_spec(old(it).bytes@, old(it).idx as int, n as nat, Seq::empty()) {
            Ok((labels, p)) => (r matches Ok(v) && v@ == labels) && final(it).idx == p,
            Err(e) => r == Err::<Vec<u32>, Error>(e),
        },
{
    let mut labels: Vec<u32> = Vec::new();
    let mut i: u32 = 0;
    while i < n
        invariant
            i <= n,
            it.bytes == old(it).bytes,
            cursor_ok(*it),
            labels_spec(old(it).bytes@, old(it).idx as int, n as nat, Seq::empty()) == labels_spec(
                it.bytes@,
                it.idx as int,
                (n - i) as nat,
                labels@,
            ),
        decreases n - i,
    {
        let lab: u32 = read_u32(it)?;
        labels.push(lab);
        i = i + 1;
    }
    Ok(labels)
}

/// `br_table`; see [`br_table_spec`].
#[verifier::loop_isolation(false)]
pub fn validate_br_table(it: &mut ByteIter, vs: &mut ValidatorStack) -> (r: Result<(), Error>)
    requires
        cursor_ok(*old(it)),
    ensures
        final(it).bytes == old(it).bytes,
        cursor_ok(*final(it)),
        agrees(
            br_table_spec(old(it).bytes@, old(it).idx as int, old(vs)@),
            r,
            final(it).idx,
            final(vs)@,
        ),
{
    vs.pop_val_expect(ValType::I32)?;
    let ghost s1 = vs@;
    let n: u32 = read_u32(it)?;
    let mut targets: Vec<u32> = read_labels(it, n)?;
    if it.empty() || it.bytes[it.idx] == 0x0b {
        return Err(Error::Malformed(UNEXPECTED_END));
    }
    let default: u32 = read_u32(it)?;
    targets.push(default);
    let count: usize = vs.frame_count();
    let mut k: usize = 0;
    while k < targets.len()
        invariant
            k <= targets@.len(),
            count == vs@.ctrls.len(),
            forall|j: int| 0 <= j < k ==> targets@[j] < count,
        decreases targets@.len() - k,
    {
        if targets[k] as usize >= count {
            return Err(Error::Validation(UNKNOWN_LABEL));
        }
        k = k + 1;
    }
    assert(targets@[targets@.len() - 1] == default);
    let expected: Vec<ValType> = label_types_of(vs, count - default as usize - 1);
    k = 0;
    while k < targets.len()
        invariant
            k <= targets@.len(),
            count == vs@.ctrls.len(),
            vs@ == s1,
            forall|j: int| 0 <= j < targets@.len() ==> targets@[j] < count,
            forall|j: int|
                0 <= j < k ==> #[trigger] target_frame(s1, targets@[j]).label_types() == expected@,
        decreases targets@.len() - k,
    {
        let types: Vec<ValType> = label_types_of(vs, count - targets[k] as usize - 1);
        if !types_equal(&types, &expected) {
            assert(target_frame(s1, targets@[k as int]).label_types() != expected@);
            return Err(Error::Validation(TYPE_MISMATCH));
        }
        k = k + 1;
    }
    vs.pop_vals(&expected)?;
    vs.unreachable();
    Ok(())
}

/// `return`; see [`return_spec`].
pub fn validate_return(it: &mut ByteIter, vs: &mut ValidatorStack) -> (r: Result<(), Error>)
    ensures
        *final(it) == *old(it),
        agrees(return_spec(old(it).idx as int, old(vs)@), r, final(it).idx, final(vs)@),
{
    let result: Option<ValType> = match vs.get_frame(0) {
        Some(frame) => frame.sig.result,
        None => {
            return Err(Error::Validation(UNKNOWN_LABEL));
        },
    };
    vs.pop_result(result)?;
    vs.unreachable();
    Ok(())
}

/// `drop`.
pub fn validate_drop(it: &mut ByteIter, vs: &mut ValidatorStack) -> (r: Result<(), Error>)
    ensures
        *final(it) == *old(it),
        match old(vs)@.pop_val() {
            Ok((_, s)) => r is Ok && final(vs)@ == s,
            Err(e) => r == Err::<(), Error>(e),
        },
{
    vs.pop_val()?;
    Ok(())
}

/// `select`; see [`select_spec`].
pub fn validate_select(it: &mut ByteIter, vs: &mut ValidatorStack) -> (r: Result<(), Error>)
    ensures
        *final(it) == *old(it),
        agrees(select_spec(old(it).idx as int, old(vs)@), r, final(it).idx, final(vs)@),
{
    vs.pop_val_expect(ValType::I32)?;
    let t1: ValType = vs.pop_val()?;
    let t2: ValType = vs.pop_val()?;
    if t1 != t2 && t1 != ValType::Any && t2 != ValType::Any {
        return Err(Error::Validation(TYPE_MISMATCH));
    }
    vs.push_val(if t1 == ValType::Any { t2 } else { t1 });
    Ok(())
}

/// `local.get`, `local.set` and `local.tee`; see [`local_spec`].
pub fn validate_local(ctx: &Context, it: &mut ByteIter, vs: &mut ValidatorStack, op: u8) -> (r: Result<
    (),
    Error,
>)
    requires
        cursor_ok(*old(it)),
        ctx@.wf(),
        0x20 <= op <= 0x22,
    ensures
        final(it).bytes == old(it).bytes,
        cursor_ok(*final(it)),
        agrees(
            local_spec(ctx@, old(it).bytes@, op, old(it).idx as int, old(vs)@),
            r,
            final(it).idx,
            final(vs)@,
        ),
{
    let idx: u32 = read_u32(it)?;
    let locals: &Vec<ValType> = &ctx.functions[ctx.func_idx].locals;
    if idx as usize >= locals.len() {
        return Err(Error::Validation(UNKNOWN_LOCAL));
    }
    let t: ValType = locals[idx as usize];
    if op == 0x20 {
        vs.push_val(t);
    } else if op == 0x21 {
        vs.pop_val_expect(t)?;
    } else {
        vs.pop_val_expect(t)?;
        vs.push_val(t);
    }
    Ok(())
}

/// `global.get` and `global.set`; see [`global_spec`].
pub fn validate_global(ctx: &Context, it: &mut ByteIter, vs: &mut ValidatorStack, op: u8) -> (r: Result<
    (),
    Error,
>)
    requires
        cursor_ok(*old(it)),
        op == 0x23 || op == 0x24,
    ensures
        final(it).bytes == old(it).bytes,
        cursor_ok(*final(it)),
        agrees(
            global_spec(ctx@, old(it).bytes@, op, old(it).idx as int, old(vs)@),
            r,
            final(it).idx,
            final(vs)@,
        ),
{
    let idx: u32 = read_u32(it)?;
    if idx as usize >= ctx.globals.len() {
        return Err(Error::Validation(UNKNOWN_GLOBAL));
    }
    let ty: ValType = ctx.globals[idx as usize].ty;
    let is_mutable: bool = ctx.globals[idx as usize].is_mutable;
    if op == 0x23 {
        vs.push_val(ty);
    } else if !is_mutable {
        return Err(Error::Validation(GLOBAL_IS_IMMUTABLE));
    } else {
        vs.pop_val_expect(ty)?;
    }
    Ok(())
}

/// `memory.size` and `memory.grow`; see [`memory_spec`].
pub fn validate_memory(ctx: &Context, it: &mut ByteIter, vs: &mut ValidatorStack, op: u8) -> (r: Result<
    (),
    Error,
>)
    requires
        cursor_ok(*old(it)),
        op == 0x3f || op == 0x40,
    ensures
        final(it).bytes == old(it).bytes,
        cursor_ok(*final(it)),
        agrees(
            memory_spec(ctx@, old(it).bytes@, op, old(it).idx as int, old(vs)@),
            r,
            final(it).idx,
            final(vs)@,
        ),
{
    let flag: u8 = it.read_u8()?;
    if flag != 0 {
        return Err(Error::Malformed(ZERO_FLAG_EXPECTED));
    }
    if !ctx.has_memory {
        return Err(Error::Validation(UNKNOWN_MEMORY));
    }
    if op == 0x40 {
        vs.pop_val_expect(ValType::I32)?;
    }
    vs.push_val(ValType::I32);
    Ok(())
}

/// The four `const` instructions; see [`const_spec`].
pub fn validate_const_instr(it: &mut ByteIter, vs: &mut ValidatorStack, op: u8) -> (r: Result<
    (),
    Error,
>)
    requires
        cursor_ok(*old(it)),
        0x41 <= op <= 0x44,
    ensures
        final(it).bytes == old(it).bytes,
        cursor_ok(*final(it)),
        agrees(
            const_spec(old(it).bytes@, op, old(it).idx as int, old(vs)@),
            r,
            final(it).idx,
            final(vs)@,
        ),
{
    if op == 0x41 || op == 0x42 {
        let mut p: usize = it.idx;
        proof {
            lemma_group_len_positive(it.bytes@, p as int);
        }
        safe_read_sleb128(it.bytes, &mut p, if op == 0x41 { 32 } else { 64 })?;
        it.idx = p;
        vs.push_val(if op == 0x41 { ValType::I32 } else { ValType::I64 });
    } else {
        let width: usize = if op == 0x43 { 4 } else { 8 };
        if !it.has_n_left(width) {
            return Err(Error::Malformed(UNEXPECTED_END));
        }
        let _total: usize = it.bytes.len();
        it.advance(width);
        vs.push_val(if op == 0x43 { ValType::F32 } else { ValType::F64 });
    }
    Ok(())
}

/// Loads and stores; see [`access_spec`].
pub fn validate_access(ctx: &Context, it: &mut ByteIter, vs: &mut ValidatorStack, op: u8) -> (r: Result<
    (),
    Error,
>)
    requires
        cursor_ok(*old(it)),
        0x28 <= op <= 0x3e,
    ensures
        final(it).bytes == old(it).bytes,
        cursor_ok(*final(it)),
        agrees(
            access_spec(ctx@, old(it).bytes@, op, old(it).idx as int, old(vs)@),
            r,
            final(it).idx,
            final(vs)@,
        ),
{
    let align: u32 = read_u32(it)?;
    if !ctx.has_memory {
        return Err(Error::Validation(UNKNOWN_MEMORY));
    }
    if align >= 32 {
        return Err(Error::Malformed(INT_TOO_LARGE));
    }
    let _offset: u32 = read_u32(it)?;
    if align > natural_align(op) {
        return Err(Error::Validation(ALIGNMENT_TOO_LARGE));
    }
    let t: ValType = access_type(op);
    if op >= 0x36 {
        vs.pop_val_expect(t)?;
        vs.pop_val_expect(ValType::I32)?;
    } else {
        vs.pop_val_expect(ValType::I32)?;
        vs.push_val(t);
    }
    Ok(())
}

/// Loads; see [`access_spec`].
pub fn validate_load(ctx: &Context, it: &mut ByteIter, vs: &mut ValidatorStack, op: u8) -> (r: Result<
    (),
    Error,
>)
    requires
        cursor_ok(*old(it)),
        0x28 <= op <= 0x35,
    ensures
        final(it).bytes == old(it).bytes,
        cursor_ok(*final(it)),
        agrees(
            access_spec(ctx@, old(it).bytes@, op, old(it).idx as int, old(vs)@),
            r,
            final(it).idx,
            final(vs)@,
        ),
{
    validate_access(ctx, it, vs, op)
}

/// Stores; see [`access_spec`].
pub fn validate_store(ctx: &Context, it: &mut ByteIter, vs: &mut ValidatorStack, op: u8) -> (r: Result<
    (),
    Error,
>)
    requires
        cursor_ok(*old(it)),
        0x36 <= op <= 0x3e,
    ensures
        final(it).bytes == old(it).bytes,
        cursor_ok(*final(it)),
        agrees(
            access_spec(ctx@, old(it).bytes@, op, old(it).idx as int, old(vs)@),
            r,
            final(it).idx,
            final(vs)@,
        ),
{
    validate_access(ctx, it, vs, op)
}

/// `call`; see [`call_spec`].
pub fn validate_call(ctx: &Context, it: &mut ByteIter, vs: &mut ValidatorStack) -> (r: Result<
    (),
    Error,
>)
    requires
        cursor_ok(*old(it)),
    ensures
        final(it).bytes == old(it).bytes,
        cursor_ok(*final(it)),
        agrees(
            call_spec(ctx@, old(it).bytes@, old(it).idx as int, old(vs)@),
            r,
            final(it).idx,
            final(vs)@,
        ),
{
    let idx: u32 = read_u32(it)?;
    if idx as usize >= ctx.functions.len() {
        return Err(Error::Validation(UNKNOWN_FUNC));
    }
    let sig: &Signature = &ctx.functions[idx as usize].ty;
    vs.pop_vals(&sig.params)?;
    vs.push_result(sig.result);
    Ok(())
}

/// `call_indirect`; see [`call_indirect_spec`].
pub fn validate_call_indirect(ctx: &Context, it: &mut ByteIter, vs: &mut ValidatorStack) -> (r: Result<
    (),
    Error,
>)
    requires
        cursor_ok(*old(it)),
    ensures
        final(it).bytes == old(it).bytes,
        cursor_ok(*final(it)),
        agrees(
            call_indirect_spec(ctx@, old(it).bytes@, old(it).idx as int, old(vs)@),
            r,
            final(it).idx,
            final(vs)@,
        ),
{
    let idx: u32 = read_u32(it)?;
    if idx as usize >= ctx.types.len() {
        return Err(Error::Validation(UNKNOWN_TYPE));
    }
    let flag: u8 = it.read_u8()?;
    if flag != 0 {
        return Err(Error::Malformed(ZERO_FLAG_EXPECTED));
    }
    if !ctx.has_table {
        return Err(Error::Validation(UNKNOWN_TABLE));
    }
    vs.pop_val_expect(ValType::I32)?;
    let sig: &Signature = &ctx.types[idx as usize];
    vs.pop_vals(&sig.params)?;
    vs.push_result(sig.result);
    Ok(())
}

/// The numeric instructions; see [`numeric_spec`].
pub fn validate_numeric(it: &mut ByteIter, vs: &mut ValidatorStack, op: u8) -> (r: Result<(), Error>)
    requires
        0x45 <= op <= 0xbf,
    ensures
        *final(it) == *old(it),
        agrees(numeric_spec(op, old(it).idx as int, old(vs)@), r, final(it).idx, final(vs)@),
{
    let t: ValType = numeric_operand(op);
    vs.pop_val_expect(t)?;
    if numeric_is_binary(op) {
        vs.pop_val_expect(t)?;
    }
    vs.push_val(numeric_result(op));
    Ok(())
}

/// `else`; see [`else_spec`].
pub fn validate_else(it: &mut ByteIter, vs: &mut ValidatorStack) -> (r: Result<(), Error>)
    ensures
        *final(it) == *old(it),
        agrees(else_spec(old(it).idx as int, old(vs)@), r, final(it).idx, final(vs)@),
{
    let (result, start): (Option<ValType>, usize) = match vs.last_frame() {
        None => {
            return Err(Error::Validation(ELSE_MUST_CLOSE_IF));
        },
        Some(frame) => match frame.control_type {
            ControlType::If { start } => (frame.sig.result, start),
            _ => {
                return Err(Error::Validation(ELSE_MUST_CLOSE_IF));
            },
        },
    };
    vs.pop_result(result)?;
    let frame: ControlFrame = match vs.pop_frame() {
        Some(f) => f,
        None => {
            return Err(Error::Validation(ELSE_MUST_CLOSE_IF));
        },
    };
    if vs.size() != frame.height {
        return Err(Error::Validation(TYPE_MISMATCH));
    }
    let params: Vec<ValType> = frame.sig.duplicate().params;
    vs.push_frame(
        ControlFrame {
            sig: frame.sig,
            height: frame.height,
            unreachable: false,
            control_type: ControlType::IfElse { if_start: start, else_start: it.idx },
            sig_pc: frame.sig_pc,
        },
    );
    vs.push_vals(&params);
    Ok(())
}

/// The instructions that leave the side-table alone, by opcode; see
/// [`simple_spec`].
pub fn validate_simple(ctx: &Context, it: &mut ByteIter, vs: &mut ValidatorStack, op: u8) -> (r: Result<
    (),
    Error,
>)
    requires
        cursor_ok(*old(it)),
        ctx@.wf(),
    ensures
        final(it).bytes == old(it).bytes,
        cursor_ok(*final(it)),
        agrees(
            simple_spec(ctx@, old(it).bytes@, op, old(it).idx as int, old(vs)@),
            r,
            final(it).idx,
            final(vs)@,
        ),
{
    if op == 0x00 {
        validate_unreachable(it, vs)
    } else if op == 0x01 {
        validate_nop(it, vs)
    } else if op == 0x05 {
        validate_else(it, vs)
    } else if op == 0x0c {
        validate_br(it, vs)
    } else if op == 0x0d {
        validate_br_if(it, vs)
    } else if op == 0x0e {
        validate_br_table(it, vs)
    } else if op == 0x0f {
        validate_return(it, vs)
    } else if op == 0x10 {
        validate_call(ctx, it, vs)
    } else if op == 0x11 {
        validate_call_indirect(ctx, it, vs)
    } else if op == 0x1a {
        validate_drop(it, vs)
    } else if op == 0x1b {
        validate_select(it, vs)
    } else if 0x20 <= op && op <= 0x22 {
        validate_local(ctx, it, vs, op)
    } else if op == 0x23 || op == 0x24 {
        validate_global(ctx, it, vs, op)
    } else if 0x28 <= op && op <= 0x35 {
        validate_load(ctx, it, vs, op)
    } else if 0x36 <= op && op <= 0x3e {
        validate_store(ctx, it, vs, op)
    } else if op == 0x3f || op == 0x40 {
        validate_memory(ctx, it, vs, op)
    } else if 0x41 <= op && op <= 0x44 {
        validate_const_instr(it, vs, op)
    } else if 0x45 <= op && op <= 0xbf {
        validate_numeric(it, vs, op)
    } else {
        validate_missing()
    }
}

/// A byte that is no opcode.
pub fn validate_missing() -> (r: Result<(), Error>)
    ensures
        r == Err::<(), Error>(Error::Malformed(UNKNOWN_INSTRUCTION)),
{
    Err(Error::Malformed(UNKNOWN_INSTRUCTION))
}

} // verus!
