//! Validation of a whole function body: the loop over its instructions,
//! and the instructions that write the side-table.

use vstd::prelude::*;
use crate::body::{
    Context,
    CtxView,
    VState,
    labels_spec,
    simple_spec,
    open_spec,
    end_spec,
    step_spec,
};
use crate::byte_iter::ByteIter;
use crate::validators::validate_simple;
use crate::error::{Error, UNEXPECTED_END, TYPE_MISMATCH, SECTION_SIZE_MISMATCH};
use crate::laws::{heights_ok, lemma_step_keeps_heights};
use crate::leb128::lemma_group_len_positive;
use crate::module::{Module, ModuleView, SideEntry, SideTable, opcode_offset, u32_spec, cursor_ok};
use crate::signature::{Signature, ValType};
use crate::validator::{ControlType, ControlFrame, FrameView, StackView, ValidatorStack, Action};

verus! {

/// Reading `n` labels moves forward and stays inside the input.
pub proof fn lemma_labels_bounds(bytes: Seq<u8>, pos: int, n: nat, acc: Seq<u32>)
    requires
        0 <= pos <= bytes.len(),
    ensures
        labels_spec(bytes, pos, n, acc) matches Ok((_, p)) ==> pos <= p <= bytes.len(),
    decreases n,
{
    if n > 0 {
        lemma_group_len_positive(bytes, pos);
        match u32_spec(bytes, pos) {
            Ok((lab, p)) => {
                lemma_labels_bounds(bytes, p, (n - 1) as nat, acc.push(lab));
            },
            Err(_) => {},
        }
    }
}

/// An instruction that leaves the side-table alone moves forward and
/// stays inside the input.
pub proof fn lemma_simple_bounds(ctx: CtxView, bytes: Seq<u8>, op: u8, pos: int, s: StackView)
    requires
        0 <= pos <= bytes.len(),
    ensures
        simple_spec(ctx, bytes, op, pos, s) matches Ok((p, _)) ==> pos <= p <= bytes.len(),
{
    lemma_group_len_positive(bytes, pos);
    match u32_spec(bytes, pos) {
        Ok((n, p)) => {
            lemma_group_len_positive(bytes, p);
            if op == 0x0e {
                lemma_labels_bounds(bytes, p, n as nat, Seq::empty());
                match labels_spec(bytes, p, n as nat, Seq::empty()) {
                    Ok((_, q)) => {
                        lemma_group_len_positive(bytes, q);
                    },
                    Err(_) => {},
                }
            }
        },
        Err(_) => {},
    }
}

/// Every instruction moves forward and stays inside the input.
pub proof fn lemma_step_bounds(ctx: CtxView, bytes: Seq<u8>, op: u8, st: VState)
    requires
        0 <= st.pos <= bytes.len(),
    ensures
        step_spec(ctx, bytes, op, st) matches Ok((st2, _)) ==> st.pos <= st2.pos <= bytes.len(),
{
    lemma_simple_bounds(ctx, bytes, op, st.pos, st.stack);
    lemma_group_len_positive(bytes, st.pos);
}

/// The state in which the body ends, or the error: the instructions from
/// `st.pos` are validated one after the other until the `end` of the
/// function frame.
pub open spec fn body_spec(ctx: CtxView, bytes: Seq<u8>, st: VState) -> Result<VState, Error>
    decreases bytes.len() - st.pos,
{
    if st.pos < 0 || st.pos >= bytes.len() {
        Err(Error::Malformed(UNEXPECTED_END))
    } else {
        match step_spec(ctx, bytes, bytes[st.pos], VState { pos: st.pos + 1, ..st }) {
            Err(e) => Err(e),
            Ok((st2, Action::End)) => Ok(st2),
            Ok((st2, Action::Continue)) => {
                proof {
                    lemma_step_bounds(ctx, bytes, bytes[st.pos], VState { pos: st.pos + 1, ..st });
                }
                body_spec(ctx, bytes, st2)
            },
        }
    }
}

/// The state in which validation of the function starts: the parameters
/// on the value stack, and the function frame above them.
pub open spec fn start_state(ctx: CtxView, side: Map<usize, SideEntry>) -> VState {
    let f = ctx.func();
    VState {
        pos: f.body_start as int,
        stack: StackView {
            vals: f.ty.params,
            ctrls: seq![
                FrameView {
                    sig: f.ty,
                    height: f.ty.params.len() as usize,
                    unreachable: false,
                    control_type: ControlType::Function,
                    sig_pc: if f.body_start > 0 {
                        (f.body_start - 1) as usize
                    } else {
                        0usize
                    },
                },
            ],
        },
        side,
    }
}

/// The side-table after the function under validation has been
/// validated, or the error.  The body must end exactly at `body_end`.
#[verifier::opaque]
pub open spec fn function_spec(ctx: CtxView, bytes: Seq<u8>, side: Map<usize, SideEntry>) -> Result<
    Map<usize, SideEntry>,
    Error,
> {
    match body_spec(ctx, bytes, start_state(ctx, side)) {
        Err(e) => Err(e),
        Ok(st) => if st.pos != ctx.func().body_end {
            Err(Error::Malformed(SECTION_SIZE_MISMATCH))
        } else {
            Ok(st.side)
        },
    }
}

/// Whether the outcome of an exec validator and the state after it are
/// what the rule `spec` says.
pub open spec fn agrees_state(
    spec: Result<VState, Error>,
    r: Result<(), Error>,
    idx: usize,
    s: StackView,
    side: Map<usize, SideEntry>,
) -> bool {
    match spec {
        Ok(st) => r is Ok && idx == st.pos && s == st.stack && side == st.side,
        Err(e) => r == Err::<(), Error>(e),
    }
}

/// `block`, `loop` and `if`; see [`open_spec`].
fn validate_open(
    ctx: &Context,
    it: &mut ByteIter,
    vs: &mut ValidatorStack,
    side: &mut SideTable,
    op: u8,
) -> (r: Result<(), Error>)
    requires
        cursor_ok(*old(it)),
        0x02 <= op <= 0x04,
    ensures
        final(it).bytes == old(it).bytes,
        cursor_ok(*final(it)),
        agrees_state(
            open_spec(
                ctx@,
                old(it).bytes@,
                op,
                VState { pos: old(it).idx as int, stack: old(vs)@, side: old(side)@ },
            ),
            r,
            final(it).idx,
            final(vs)@,
            final(side)@,
        ),
{
    let sig_pc: usize = it.idx;
    let mut p: usize = it.idx;
    proof {
        lemma_group_len_positive(it.bytes@, p as int);
    }
    let sig: Signature = Signature::read(ctx.types, it.bytes, &mut p)?;
    it.idx = p;
    if op == 0x04 {
        vs.pop_val_expect(ValType::I32)?;
    }
    vs.pop_vals(&sig.params)?;
    let params_len: u16 = (sig.params.len() % 0x1_0000) as u16;
    let has_result: bool = sig.result.is_some();
    let kind: ControlType = if op == 0x02 {
        ControlType::Block { start: p }
    } else if op == 0x03 {
        ControlType::Loop
    } else {
        ControlType::If { start: p }
    };
    vs.push_ctrl(sig, kind, sig_pc);
    side.put_sig(opcode_offset(sig_pc), p, params_len, has_result);
    Ok(())
}

/// `block`; see [`open_spec`].
pub fn validate_block(ctx: &Context, it: &mut ByteIter, vs: &mut ValidatorStack, side: &mut SideTable) -> (r:
    Result<(), Error>)
    requires
        cursor_ok(*old(it)),
    ensures
        final(it).bytes == old(it).bytes,
        cursor_ok(*final(it)),
        agrees_state(
            open_spec(
                ctx@,
                old(it).bytes@,
                0x02,
                VState { pos: old(it).idx as int, stack: old(vs)@, side: old(side)@ },
            ),
            r,
            final(it).idx,
            final(vs)@,
            final(side)@,
        ),
{
    validate_open(ctx, it, vs, side, 0x02)
}

/// `loop`; see [`open_spec`].
pub fn validate_loop(ctx: &Context, it: &mut ByteIter, vs: &mut ValidatorStack, side: &mut SideTable) -> (r:
    Result<(), Error>)
    requires
        cursor_ok(*old(it)),
    ensures
        final(it).bytes == old(it).bytes,
        cursor_ok(*final(it)),
        agrees_state(
            open_spec(
                ctx@,
                old(it).bytes@,
                0x03,
                VState { pos: old(it).idx as int, stack: old(vs)@, side: old(side)@ },
            ),
            r,
            final(it).idx,
            final(vs)@,
            final(side)@,
        ),
{
    validate_open(ctx, it, vs, side, 0x03)
}

/// `if`; see [`open_spec`].
pub fn validate_if(ctx: &Context, it: &mut ByteIter, vs: &mut ValidatorStack, side: &mut SideTable) -> (r:
    Result<(), Error>)
    requires
        cursor_ok(*old(it)),
    ensures
        final(it).bytes == old(it).bytes,
        cursor_ok(*final(it)),
        agrees_state(
            open_spec(
                ctx@,
                old(it).bytes@,
                0x04,
                VState { pos: old(it).idx as int, stack: old(vs)@, side: old(side)@ },
            ),
            r,
            final(it).idx,
            final(vs)@,
            final(side)@,
        ),
{
    validate_open(ctx, it, vs, side, 0x04)
}

/// `end`; see [`end_spec`].
pub fn validate_end(ctx: &Context, it: &mut ByteIter, vs: &mut ValidatorStack, side: &mut SideTable) -> (r:
    Result<Action, Error>)
    requires
        ctx@.wf(),
    ensures
        *final(it) == *old(it),
        match end_spec(ctx@, VState { pos: old(it).idx as int, stack: old(vs)@, side: old(side)@ }) {
            Ok((st, act)) => r == Ok::<Action, Error>(act) && final(vs)@ == st.stack && final(side)@
                == st.side,
            Err(e) => r == Err::<Action, Error>(e),
        },
{
    let count: usize = vs.frame_count();
    if count == 0 {
        return Err(Error::Validation(TYPE_MISMATCH));
    }
    if count == 1 {
        let ty: &Signature = &ctx.functions[ctx.func_idx].ty;
        vs.pop_result(ty.result)?;
        if vs.size() != ty.params.len() {
            return Err(Error::Validation(TYPE_MISMATCH));
        }
        return Ok(Action::End);
    }
    let result: Option<ValType> = match vs.last_frame() {
        Some(frame) => frame.sig.result,
        None => {
            return Err(Error::Validation(TYPE_MISMATCH));
        },
    };
    vs.pop_result(result)?;
    let frame: ControlFrame = match vs.pop_frame() {
        Some(f) => f,
        None => {
            return Err(Error::Validation(TYPE_MISMATCH));
        },
    };
    if vs.size() != frame.height {
        return Err(Error::Validation(TYPE_MISMATCH));
    }
    match frame.control_type {
        ControlType::Function => {},
        ControlType::IfElse { if_start, else_start } => {
            side.fill_end_else(opcode_offset(frame.sig_pc), it.idx, else_start);
        },
        ControlType::If { start } => {
            let results: Vec<ValType> = frame.sig.results_view();
            if !crate::validators::types_equal(&frame.sig.params, &results) {
                return Err(Error::Validation(TYPE_MISMATCH));
            }
            side.fill_end_else(opcode_offset(frame.sig_pc), it.idx, it.idx);
        },
        _ => {
            side.fill_end_else(opcode_offset(frame.sig_pc), it.idx, it.idx);
        },
    }
    vs.push_result(frame.sig.result);
    Ok(Action::Continue)
}

/// One instruction, by opcode; the cursor stands after the opcode.  See
/// [`step_spec`].
///
/// The instruction keeps the stack discipline: where the value stack is
/// at or above the entry height of every open frame before it, with the
/// entry heights nested, it is so after it.
pub fn validate_op(
    ctx: &Context,
    it: &mut ByteIter,
    vs: &mut ValidatorStack,
    side: &mut SideTable,
    op: u8,
) -> (r: Result<Action, Error>)
    requires
        cursor_ok(*old(it)),
        ctx@.wf(),
    ensures
        final(it).bytes == old(it).bytes,
        cursor_ok(*final(it)),
        match step_spec(
            ctx@,
            old(it).bytes@,
            op,
            VState { pos: old(it).idx as int, stack: old(vs)@, side: old(side)@ },
        ) {
            Ok((st, act)) => r == Ok::<Action, Error>(act) && final(it).idx == st.pos && final(vs)@
                == st.stack && final(side)@ == st.side,
            Err(e) => r == Err::<Action, Error>(e),
        },
        heights_ok(old(vs)@) && r is Ok ==> heights_ok(final(vs)@),
{
    let _height: usize = vs.size();
    proof {
        if heights_ok(vs@) {
            lemma_step_keeps_heights(
                ctx@,
                it.bytes@,
                op,
                VState { pos: it.idx as int, stack: vs@, side: side@ },
            );
        }
    }
    if op == 0x02 {
        validate_block(ctx, it, vs, side)?;
        Ok(Action::Continue)
    } else if op == 0x03 {
        validate_loop(ctx, it, vs, side)?;
        Ok(Action::Continue)
    } else if op == 0x04 {
        validate_if(ctx, it, vs, side)?;
        Ok(Action::Continue)
    } else if op == 0x0b {
        validate_end(ctx, it, vs, side)
    } else {
        validate_simple(ctx, it, vs, op)?;
        Ok(Action::Continue)
    }
}

/// Validates the body of the function `ctx.func_idx` in `bytes` and
/// records its constructs in the side-table.
pub fn validate_body(ctx: &Context, bytes: &[u8], side: &mut SideTable) -> (r: Result<(), Error>)
    requires
        ctx@.wf(),
        ctx@.func().body_start <= bytes@.len(),
    ensures
        match function_spec(ctx@, bytes@, old(side)@) {
            Ok(t) => r is Ok && final(side)@ == t,
            Err(e) => r == Err::<(), Error>(e),
        },
{
    reveal(function_spec);
    let func = &ctx.functions[ctx.func_idx];
    let mut it = ByteIter::new(bytes, func.body_start);
    let mut vs = ValidatorStack::new();
    vs.push_vals(&func.ty.params);
    vs.push_frame(
        ControlFrame {
            sig: func.ty.duplicate(),
            height: func.ty.params.len(),
            unreachable: false,
            control_type: ControlType::Function,
            sig_pc: if func.body_start > 0 {
                func.body_start - 1
            } else {
                0
            },
        },
    );
    let ghost st0 = start_state(ctx@, old(side)@);
    assert(vs@.vals =~= st0.stack.vals);
    assert(vs@.ctrls =~= st0.stack.ctrls);
    loop
        invariant_except_break
            body_spec(ctx@, bytes@, st0) == body_spec(
                ctx@,
                bytes@,
                VState { pos: it.idx as int, stack: vs@, side: side@ },
            ),
        invariant
            ctx@.wf(),
            it.bytes == bytes,
            cursor_ok(it),
            st0 == start_state(ctx@, old(side)@),
        ensures
            body_spec(ctx@, bytes@, st0) == Ok::<VState, Error>(
                VState { pos: it.idx as int, stack: vs@, side: side@ },
            ),
        decreases bytes@.len() - it.idx,
    {
        reveal(function_spec);
        let ghost before = VState { pos: it.idx as int, stack: vs@, side: side@ };
        let op: u8 = it.read_u8()?;
        proof {
            lemma_step_bounds(ctx@, bytes@, op, VState { pos: before.pos + 1, ..before });
        }
        match validate_op(ctx, &mut it, &mut vs, side, op)? {
            Action::Continue => {},
            Action::End => {
                break ;
            },
        }
    }
    if it.cur() != func.body_end {
        return Err(Error::Malformed(SECTION_SIZE_MISMATCH));
    }
    Ok(())
}

/// What the validator reads of `m` for its function `i`.
pub open spec fn module_ctx(m: Module, i: usize) -> CtxView {
    CtxView {
        types: m@.types,
        functions: m@.functions,
        globals: m@.globals,
        has_memory: m.memory is Some,
        has_table: m.table is Some,
        func_idx: i,
    }
}

impl Module {
    /// Validates the body of function `func_idx` and records its
    /// constructs in the side-table; nothing else of the module changes.
    pub fn validate_function(&mut self, func_idx: usize) -> (r: Result<(), Error>)
        requires
            func_idx < old(self).functions@.len(),
            old(self).functions@[func_idx as int].body_start <= old(self).bytes@.len(),
        ensures
            final(self).bytes == old(self).bytes,
            match function_spec(
                module_ctx(*old(self), func_idx),
                old(self).bytes@,
                old(self).side_table@,
            ) {
                Ok(t) => r is Ok && final(self)@ == (ModuleView { side_table: t, ..old(self)@ }),
                Err(e) => r == Err::<(), Error>(e),
            },
    {
        let ctx = Context {
            types: &self.types,
            functions: &self.functions,
            globals: &self.globals,
            has_memory: self.memory.is_some(),
            has_table: self.table.is_some(),
            func_idx,
        };
        assert(ctx@.types =~= self@.types);
        assert(ctx@.functions =~= self@.functions);
        assert(ctx@.globals =~= self@.globals);
        validate_body(&ctx, self.bytes.as_slice(), &mut self.side_table)
    }
}

/// The validator of the functions of one module.
pub struct Validator<'a> {
    pub module: &'a mut Module,
}

impl<'a> Validator<'a> {
    /// A validator for the functions of `module`.
    pub fn new(module: &'a mut Module) -> (v: Self)
        ensures
            *v.module == *old(module),
            *final(v.module) == *final(module),
    {
        Self { module }
    }

    /// Validates the body of function `func_idx`; see
    /// [`Module::validate_function`].
    pub fn validate_function(&mut self, func_idx: usize) -> (r: Result<(), Error>)
        requires
            func_idx < old(self).module.functions@.len(),
            old(self).module.functions@[func_idx as int].body_start <= old(self).module.bytes@.len(),
        ensures
            final(self).module.bytes == old(self).module.bytes,
            match function_spec(
                module_ctx(*old(self).module, func_idx),
                old(self).module.bytes@,
                old(self).module.side_table@,
            ) {
                Ok(t) => r is Ok && final(self).module@ == (ModuleView {
                    side_table: t,
                    ..old(self).module@
                }),
                Err(e) => r == Err::<(), Error>(e),
            },
    {
        self.module.validate_function(func_idx)
    }
}

} // verus!
