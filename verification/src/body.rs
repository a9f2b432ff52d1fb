//! Validation of function bodies, one instruction at a time.
//!
//! Each instruction has a spec function that says what it does to the
//! position and the validator's stacks, and an exec function that is
//! proved to do just that.  `block`, `loop`, `if` and `end` also write the
//! side-table.

use vstd::prelude::*;
use crate::const_expr::global_views;
use crate::error::{
    Error,
    UNEXPECTED_END,
    TYPE_MISMATCH,
    UNKNOWN_LABEL,
    UNKNOWN_LOCAL,
    UNKNOWN_GLOBAL,
    UNKNOWN_MEMORY,
    UNKNOWN_TABLE,
    UNKNOWN_FUNC,
    UNKNOWN_TYPE,
    UNKNOWN_INSTRUCTION,
    GLOBAL_IS_IMMUTABLE,
    ZERO_FLAG_EXPECTED,
    INT_TOO_LARGE,
    ALIGNMENT_TOO_LARGE,
    ELSE_MUST_CLOSE_IF,
};
use crate::instructions::{
    is_numeric_spec,
    numeric_operand_spec,
    numeric_result_spec,
    numeric_is_binary,
    is_memory_access_spec,
    is_store_spec,
    access_type_spec,
    natural_align_spec,
};
use crate::leb128::signed_spec;
use crate::module::{
    Function,
    FunctionView,
    Global,
    GlobalView,
    SideEntry,
    side_put_sig,
    side_fill,
    opcode_offset,
    u32_spec,
    u8_spec,
};
use crate::signature::{Signature, SignatureView, ValType, block_type_spec, signature_views};
use crate::validator::{ControlType, FrameView, StackView, Action};

verus! {

/// What the validator reads of the module while it validates one
/// function.
pub struct Context<'a> {
    pub types: &'a Vec<Signature>,
    pub functions: &'a Vec<Function>,
    pub globals: &'a Vec<Global>,
    pub has_memory: bool,
    pub has_table: bool,
    pub func_idx: usize,
}

/// The mathematical content of a [`Context`].
pub struct CtxView {
    pub types: Seq<SignatureView>,
    pub functions: Seq<FunctionView>,
    pub globals: Seq<GlobalView>,
    pub has_memory: bool,
    pub has_table: bool,
    pub func_idx: usize,
}

/// The views of a sequence of functions.
pub open spec fn function_views(functions: Seq<Function>) -> Seq<FunctionView> {
    Seq::new(functions.len(), |i: int| functions[i]@)
}

impl<'a> View for Context<'a> {
    type V = CtxView;

    open spec fn view(&self) -> CtxView {
        CtxView {
            types: signature_views(self.types@),
            functions: function_views(self.functions@),
            globals: global_views(self.globals@),
            has_memory: self.has_memory,
            has_table: self.has_table,
            func_idx: self.func_idx,
        }
    }
}

impl CtxView {
    /// The function under validation.
    pub open spec fn func(self) -> FunctionView {
        self.functions[self.func_idx as int]
    }

    /// The function under validation is one of the module's.
    pub open spec fn wf(self) -> bool {
        self.func_idx < self.functions.len()
    }
}

/// The outcome of an instruction that leaves the side-table alone: the
/// position after it and the stacks, or the error.
pub type Simple = Result<(int, StackView), Error>;

/// Continues at `pos` with the outcome of a stack operation.
pub open spec fn at(pos: int, r: Result<StackView, Error>) -> Simple {
    match r {
        Ok(s) => Ok((pos, s)),
        Err(e) => Err(e),
    }
}

/// Drops the type from the outcome of a pop.
pub open spec fn popped(r: Result<(ValType, StackView), Error>) -> Result<StackView, Error> {
    match r {
        Ok((_, s)) => Ok(s),
        Err(e) => Err(e),
    }
}

/// Pushes `t` on the outcome of a stack operation.
pub open spec fn then_push(r: Result<StackView, Error>, t: ValType) -> Result<StackView, Error> {
    match r {
        Ok(s) => Ok(s.push_val(t)),
        Err(e) => Err(e),
    }
}

/// Pushes an optional result on the outcome of a stack operation.
pub open spec fn then_push_result(r: Result<StackView, Error>, t: Option<ValType>) -> Result<
    StackView,
    Error,
> {
    match r {
        Ok(s) => Ok(s.push_result(t)),
        Err(e) => Err(e),
    }
}

/// The frame that a branch of the given depth targets.
pub open spec fn target_frame(s: StackView, depth: u32) -> FrameView {
    s.ctrls[s.ctrls.len() - depth - 1]
}

/// `br`: pops the label types of the target and leaves the frame
/// unreachable.
pub open spec fn br_spec(bytes: Seq<u8>, pos: int, s: StackView) -> Simple {
    match u32_spec(bytes, pos) {
        Err(e) => Err(e),
        Ok((depth, p)) => if depth >= s.ctrls.len() {
            Err(Error::Validation(UNKNOWN_LABEL))
        } else {
            match s.drop_vals(target_frame(s, depth).label_types()) {
                Err(e) => Err(e),
                Ok(s1) => Ok((p, s1.unreachable())),
            }
        },
    }
}

/// `br_if`: pops the condition, then pops the label types of the target
/// and pushes them back.
pub open spec fn br_if_spec(bytes: Seq<u8>, pos: int, s: StackView) -> Simple {
    match u32_spec(bytes, pos) {
        Err(e) => Err(e),
        Ok((depth, p)) => if depth >= s.ctrls.len() {
            Err(Error::Validation(UNKNOWN_LABEL))
        } else {
            match s.pop_expect(ValType::I32) {
                Err(e) => Err(e),
                Ok((_, s1)) => match s1.pop_vals(target_frame(s1, depth).label_types()) {
                    Err(e) => Err(e),
                    Ok((types, s2)) => Ok((p, s2.push_vals(types))),
                },
            }
        },
    }
}

/// The `n` labels of a `br_table` from `pos`, behind the labels `acc`.
pub open spec fn labels_spec(bytes: Seq<u8>, pos: int, n: nat, acc: Seq<u32>) -> Result<
    (Seq<u32>, int),
    Error,
>
    decreases n,
{
    if n == 0 {
        Ok((acc, pos))
    } else {
        match u32_spec(bytes, pos) {
            Err(e) => Err(e),
            Ok((lab, p)) => labels_spec(bytes, p, (n - 1) as nat, acc.push(lab)),
        }
    }
}

/// `br_table`: pops the index, reads the labels and the default, which
/// must all exist and carry the same label types, pops those types, and
/// leaves the frame unreachable.
pub open spec fn br_table_spec(bytes: Seq<u8>, pos: int, s: StackView) -> Simple {
    match s.pop_expect(ValType::I32) {
        Err(e) => Err(e),
        Ok((_, s1)) => match u32_spec(bytes, pos) {
            Err(e) => Err(e),
            Ok((n, p)) => match labels_spec(bytes, p, n as nat, Seq::empty()) {
                Err(e) => Err(e),
                Ok((labels, q)) => if q >= bytes.len() || bytes[q] == 0x0b {
                    Err(Error::Malformed(UNEXPECTED_END))
                } else {
                    match u32_spec(bytes, q) {
                        Err(e) => Err(e),
                        Ok((default, r)) => {
                            let all = labels.push(default);
                            let expected = target_frame(s1, default).label_types();
                            if exists|i: int| 0 <= i < all.len() && all[i] >= s1.ctrls.len() {
                                Err(Error::Validation(UNKNOWN_LABEL))
                            } else if exists|i: int|
                                0 <= i < all.len() && #[trigger] target_frame(
                                    s1,
                                    all[i],
                                ).label_types() != expected {
                                Err(Error::Validation(TYPE_MISMATCH))
                            } else {
                                match s1.drop_vals(expected) {
                                    Err(e) => Err(e),
                                    Ok(s2) => Ok((r, s2.unreachable())),
                                }
                            }
                        },
                    }
                },
            },
        },
    }
}

/// `return`: pops the function's result and leaves the frame
/// unreachable.
pub open spec fn return_spec(pos: int, s: StackView) -> Simple {
    if s.ctrls.len() == 0 {
        Err(Error::Validation(UNKNOWN_LABEL))
    } else {
        match s.pop_result(s.ctrls[0].sig.result) {
            Err(e) => Err(e),
            Ok(s1) => Ok((pos, s1.unreachable())),
        }
    }
}

/// `select`: pops the condition and two values of one type, and pushes
/// that type.
pub open spec fn select_spec(pos: int, s: StackView) -> Simple {
    match s.pop_expect(ValType::I32) {
        Err(e) => Err(e),
        Ok((_, s1)) => match s1.pop_val() {
            Err(e) => Err(e),
            Ok((t1, s2)) => match s2.pop_val() {
                Err(e) => Err(e),
                Ok((t2, s3)) => if t1 != t2 && t1 != ValType::Any && t2 != ValType::Any {
                    Err(Error::Validation(TYPE_MISMATCH))
                } else {
                    Ok((pos, s3.push_val(if t1 == ValType::Any { t2 } else { t1 })))
                },
            },
        },
    }
}

/// `local.get` (`0x20`), `local.set` (`0x21`) and `local.tee` (`0x22`).
pub open spec fn local_spec(ctx: CtxView, bytes: Seq<u8>, op: u8, pos: int, s: StackView) -> Simple {
    match u32_spec(bytes, pos) {
        Err(e) => Err(e),
        Ok((idx, p)) => if idx >= ctx.func().locals.len() {
            Err(Error::Validation(UNKNOWN_LOCAL))
        } else {
            let t = ctx.func().locals[idx as int];
            if op == 0x20 {
                Ok((p, s.push_val(t)))
            } else if op == 0x21 {
                at(p, popped(s.pop_expect(t)))
            } else {
                at(p, then_push(popped(s.pop_expect(t)), t))
            }
        },
    }
}

/// `global.get` (`0x23`) and `global.set` (`0x24`).
pub open spec fn global_spec(ctx: CtxView, bytes: Seq<u8>, op: u8, pos: int, s: StackView) -> Simple {
    match u32_spec(bytes, pos) {
        Err(e) => Err(e),
        Ok((idx, p)) => if idx >= ctx.globals.len() {
            Err(Error::Validation(UNKNOWN_GLOBAL))
        } else {
            let g = ctx.globals[idx as int];
            if op == 0x23 {
                Ok((p, s.push_val(g.ty)))
            } else if !g.is_mutable {
                Err(Error::Validation(GLOBAL_IS_IMMUTABLE))
            } else {
                at(p, popped(s.pop_expect(g.ty)))
            }
        },
    }
}

/// `memory.size` (`0x3f`) and `memory.grow` (`0x40`): a zero flag byte
/// follows, and the module must have a memory.
pub open spec fn memory_spec(ctx: CtxView, bytes: Seq<u8>, op: u8, pos: int, s: StackView) -> Simple {
    match u8_spec(bytes, pos) {
        Err(e) => Err(e),
        Ok((flag, p)) => if flag != 0 {
            Err(Error::Malformed(ZERO_FLAG_EXPECTED))
        } else if !ctx.has_memory {
            Err(Error::Validation(UNKNOWN_MEMORY))
        } else if op == 0x3f {
            Ok((p, s.push_val(ValType::I32)))
        } else {
            at(p, then_push(popped(s.pop_expect(ValType::I32)), ValType::I32))
        },
    }
}

/// The four `const` instructions, `0x41` to `0x44`.
pub open spec fn const_spec(bytes: Seq<u8>, op: u8, pos: int, s: StackView) -> Simple {
    if op == 0x41 || op == 0x42 {
        match signed_spec(bytes, pos, if op == 0x41 { 32 } else { 64 }) {
            Err(e) => Err(e),
            Ok((_, p)) => Ok((p, s.push_val(if op == 0x41 { ValType::I32 } else { ValType::I64 }))),
        }
    } else {
        let width: int = if op == 0x43 { 4 } else { 8 };
        if pos + width > bytes.len() {
            Err(Error::Malformed(UNEXPECTED_END))
        } else {
            Ok((pos + width, s.push_val(if op == 0x43 { ValType::F32 } else { ValType::F64 })))
        }
    }
}

/// A load or a store: an alignment exponent and an offset follow.  The
/// module must have a memory, and the alignment must not exceed the
/// natural alignment of the access.
pub open spec fn access_spec(ctx: CtxView, bytes: Seq<u8>, op: u8, pos: int, s: StackView) -> Simple {
    match u32_spec(bytes, pos) {
        Err(e) => Err(e),
        Ok((align, p)) => if !ctx.has_memory {
            Err(Error::Validation(UNKNOWN_MEMORY))
        } else if align >= 32 {
            Err(Error::Malformed(INT_TOO_LARGE))
        } else {
            match u32_spec(bytes, p) {
                Err(e) => Err(e),
                Ok((_, q)) => if align > natural_align_spec(op) {
                    Err(Error::Validation(ALIGNMENT_TOO_LARGE))
                } else if is_store_spec(op) {
                    match s.pop_expect(access_type_spec(op)) {
                        Err(e) => Err(e),
                        Ok((_, s1)) => at(q, popped(s1.pop_expect(ValType::I32))),
                    }
                } else {
                    at(q, then_push(popped(s.pop_expect(ValType::I32)), access_type_spec(op)))
                },
            }
        },
    }
}

/// `call`: pops the parameters of the callee and pushes its result.
pub open spec fn call_spec(ctx: CtxView, bytes: Seq<u8>, pos: int, s: StackView) -> Simple {
    match u32_spec(bytes, pos) {
        Err(e) => Err(e),
        Ok((idx, p)) => if idx >= ctx.functions.len() {
            Err(Error::Validation(UNKNOWN_FUNC))
        } else {
            let sig = ctx.functions[idx as int].ty;
            at(p, then_push_result(s.drop_vals(sig.params), sig.result))
        },
    }
}

/// `call_indirect`: a type index and a zero flag byte follow.  Pops the
/// table index and the parameters of the type and pushes its result.
pub open spec fn call_indirect_spec(ctx: CtxView, bytes: Seq<u8>, pos: int, s: StackView) -> Simple {
    match u32_spec(bytes, pos) {
        Err(e) => Err(e),
        Ok((idx, p)) => if idx >= ctx.types.len() {
            Err(Error::Validation(UNKNOWN_TYPE))
        } else {
            match u8_spec(bytes, p) {
                Err(e) => Err(e),
                Ok((flag, q)) => if flag != 0 {
                    Err(Error::Malformed(ZERO_FLAG_EXPECTED))
                } else if !ctx.has_table {
                    Err(Error::Validation(UNKNOWN_TABLE))
                } else {
                    let sig = ctx.types[idx as int];
                    match s.pop_expect(ValType::I32) {
                        Err(e) => Err(e),
                        Ok((_, s1)) => at(
                            q,
                            then_push_result(s1.drop_vals(sig.params), sig.result),
                        ),
                    }
                },
            }
        },
    }
}

/// A numeric instruction: pops one or two operands of its operand type
/// and pushes its result type.
pub open spec fn numeric_spec(op: u8, pos: int, s: StackView) -> Simple {
    let t = numeric_operand_spec(op);
    let first = popped(s.pop_expect(t));
    let both = if numeric_is_binary(op) {
        match first {
            Ok(s1) => popped(s1.pop_expect(t)),
            Err(e) => Err(e),
        }
    } else {
        first
    };
    at(pos, then_push(both, numeric_result_spec(op)))
}

/// `else`: closes the first branch of an `if` like an `end` and opens the
/// second with the same signature.
pub open spec fn else_spec(pos: int, s: StackView) -> Simple {
    if s.ctrls.len() == 0 {
        Err(Error::Validation(ELSE_MUST_CLOSE_IF))
    } else {
        let f = s.ctrls.last();
        match f.control_type {
            ControlType::If { start } => match s.pop_result(f.sig.result) {
                Err(e) => Err(e),
                Ok(s1) => if s1.vals.len() != f.height {
                    Err(Error::Validation(TYPE_MISMATCH))
                } else {
                    Ok(
                        (
                            pos,
                            StackView {
                                vals: s1.vals + f.sig.params,
                                ctrls: s1.ctrls.drop_last().push(
                                    FrameView {
                                        sig: f.sig,
                                        height: f.height,
                                        unreachable: false,
                                        control_type: ControlType::IfElse {
                                            if_start: start,
                                            else_start: pos as usize,
                                        },
                                        sig_pc: f.sig_pc,
                                    },
                                ),
                            },
                        ),
                    )
                },
            },
            _ => Err(Error::Validation(ELSE_MUST_CLOSE_IF)),
        }
    }
}

/// The instructions that leave the side-table alone, by opcode; `pos` is
/// the position after the opcode.
pub open spec fn simple_spec(ctx: CtxView, bytes: Seq<u8>, op: u8, pos: int, s: StackView) -> Simple {
    if op == 0x00 {
        Ok((pos, s.unreachable()))
    } else if op == 0x01 {
        Ok((pos, s))
    } else if op == 0x05 {
        else_spec(pos, s)
    } else if op == 0x0c {
        br_spec(bytes, pos, s)
    } else if op == 0x0d {
        br_if_spec(bytes, pos, s)
    } else if op == 0x0e {
        br_table_spec(bytes, pos, s)
    } else if op == 0x0f {
        return_spec(pos, s)
    } else if op == 0x10 {
        call_spec(ctx, bytes, pos, s)
    } else if op == 0x11 {
        call_indirect_spec(ctx, bytes, pos, s)
    } else if op == 0x1a {
        at(pos, popped(s.pop_val()))
    } else if op == 0x1b {
        select_spec(pos, s)
    } else if 0x20 <= op <= 0x22 {
        local_spec(ctx, bytes, op, pos, s)
    } else if op == 0x23 || op == 0x24 {
        global_spec(ctx, bytes, op, pos, s)
    } else if is_memory_access_spec(op) {
        access_spec(ctx, bytes, op, pos, s)
    } else if op == 0x3f || op == 0x40 {
        memory_spec(ctx, bytes, op, pos, s)
    } else if 0x41 <= op <= 0x44 {
        const_spec(bytes, op, pos, s)
    } else if is_numeric_spec(op) {
        numeric_spec(op, pos, s)
    } else {
        Err(Error::Malformed(UNKNOWN_INSTRUCTION))
    }
}

/// The validator's state between two instructions.
pub struct VState {
    pub pos: int,
    pub stack: StackView,
    pub side: Map<usize, SideEntry>,
}

/// The frame kind that the opcode of a `block`, `loop` or `if` opens,
/// with its body at `start`.
pub open spec fn opened_kind(op: u8, start: usize) -> ControlType {
    if op == 0x02 {
        ControlType::Block { start }
    } else if op == 0x03 {
        ControlType::Loop
    } else {
        ControlType::If { start }
    }
}

/// `block` (`0x02`), `loop` (`0x03`) and `if` (`0x04`): reads the block
/// type, pops the condition of an `if`, pops the parameters, opens the
/// frame, and records in the side-table, under the offset of the opcode,
/// where the body starts and the arity of the block type.
pub open spec fn open_spec(ctx: CtxView, bytes: Seq<u8>, op: u8, st: VState) -> Result<VState, Error> {
    match block_type_spec(ctx.types, bytes, st.pos) {
        Err(e) => Err(e),
        Ok((sig, p)) => {
            let cond = if op == 0x04 {
                popped(st.stack.pop_expect(ValType::I32))
            } else {
                Ok(st.stack)
            };
            match cond {
                Err(e) => Err(e),
                Ok(s1) => match s1.drop_vals(sig.params) {
                    Err(e) => Err(e),
                    Ok(s2) => Ok(
                        VState {
                            pos: p,
                            stack: s2.push_ctrl(sig, opened_kind(op, p as usize), st.pos as usize),
                            side: side_put_sig(
                                st.side,
                                opcode_offset(st.pos as usize),
                                p as usize,
                                (sig.params.len() % 0x1_0000) as u16,
                                sig.result is Some,
                            ),
                        },
                    ),
                },
            }
        },
    }
}

/// `end`: the frame must hold exactly its result.  The end of the
/// function frame ends the body.  The end of any other frame closes it,
/// pushes its result, and records in the side-table where the construct
/// ends and where its `else` branch starts; without an `else` branch that
/// is the end as well, and an `if` without one must have equal parameter
/// and result types.
pub open spec fn end_spec(ctx: CtxView, st: VState) -> Result<(VState, Action), Error> {
    let s = st.stack;
    if s.ctrls.len() == 0 {
        Err(Error::Validation(TYPE_MISMATCH))
    } else if s.ctrls.len() == 1 {
        match s.pop_result(ctx.func().ty.result) {
            Err(e) => Err(e),
            Ok(s1) => if s1.vals.len() != ctx.func().ty.params.len() {
                Err(Error::Validation(TYPE_MISMATCH))
            } else {
                Ok((VState { stack: s1, ..st }, Action::End))
            },
        }
    } else {
        let f = s.ctrls.last();
        match s.pop_result(f.sig.result) {
            Err(e) => Err(e),
            Ok(s1) => if s1.vals.len() != f.height {
                Err(Error::Validation(TYPE_MISMATCH))
            } else if (f.control_type is If) && f.sig.params != f.sig.results() {
                Err(Error::Validation(TYPE_MISMATCH))
            } else {
                let closed = StackView { vals: s1.vals, ctrls: s1.ctrls.drop_last() };
                let side = match f.control_type {
                    ControlType::Function => st.side,
                    ControlType::IfElse { if_start, else_start } => side_fill(
                        st.side,
                        opcode_offset(f.sig_pc),
                        st.pos as usize,
                        else_start,
                    ),
                    _ => side_fill(st.side, opcode_offset(f.sig_pc), st.pos as usize, st.pos as usize),
                };
                Ok((VState { pos: st.pos, stack: closed.push_result(f.sig.result), side }, Action::Continue))
            },
        }
    }
}

/// One instruction: `st.pos` is the position after the opcode `op`.
pub open spec fn step_spec(ctx: CtxView, bytes: Seq<u8>, op: u8, st: VState) -> Result<
    (VState, Action),
    Error,
> {
    if 0x02 <= op <= 0x04 {
        match open_spec(ctx, bytes, op, st) {
            Ok(st2) => Ok((st2, Action::Continue)),
            Err(e) => Err(e),
        }
    } else if op == 0x0b {
        end_spec(ctx, st)
    } else {
        match simple_spec(ctx, bytes, op, st.pos, st.stack) {
            Ok((p, s)) => Ok((VState { pos: p, stack: s, side: st.side }, Action::Continue)),
            Err(e) => Err(e),
        }
    }
}

} // verus!
