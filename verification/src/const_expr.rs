//! Validation of constant expressions: the initializers of globals and
//! the offsets of element and data segments.

use vstd::prelude::*;
use crate::byte_iter::ByteIter;
use crate::error::{
    Error,
    UNEXPECTED_END,
    UNKNOWN_GLOBAL,
    CONST_EXP_REQUIRED,
    TYPE_MISMATCH,
    ILLEGAL_OP,
};
use crate::instructions::is_instruction;
use crate::leb128::{safe_read_sleb128, signed_spec, lemma_group_len_positive};
use crate::module::{Global, GlobalView, read_u32, u32_spec, cursor_ok};
use crate::signature::ValType;

verus! {

/// The views of a sequence of globals.
pub open spec fn global_views(globals: Seq<Global>) -> Seq<GlobalView> {
    Seq::new(globals.len(), |i: int| globals[i]@)
}

/// The types that a constant expression at `pos` leaves on a stack that
/// holds `stack`, and the position after its `end`; or the error.
///
/// A constant expression is made of the four `const` instructions,
/// `global.get` of an imported immutable global, and `add`, `sub` and
/// `mul` on `i32` and `i64`.
pub open spec fn const_body_spec(
    bytes: Seq<u8>,
    pos: int,
    globals: Seq<GlobalView>,
    stack: Seq<ValType>,
) -> Result<(Seq<ValType>, int), Error>
    decreases bytes.len() - pos,
{
    if pos < 0 || pos >= bytes.len() {
        Err(Error::Malformed(UNEXPECTED_END))
    } else {
        let op = bytes[pos];
        let p = pos + 1;
        if op == 0x0b {
            Ok((stack, p))
        } else if op == 0x23 {
            match u32_spec(bytes, p) {
                Err(e) => Err(e),
                Ok((idx, q)) => if idx >= globals.len() || globals[idx as int].import is None {
                    Err(Error::Validation(UNKNOWN_GLOBAL))
                } else if globals[idx as int].is_mutable {
                    Err(Error::Validation(CONST_EXP_REQUIRED))
                } else {
                    proof {
                        lemma_group_len_positive(bytes, p);
                    }
                    const_body_spec(bytes, q, globals, stack.push(globals[idx as int].ty))
                },
            }
        } else if op == 0x41 || op == 0x42 {
            match signed_spec(bytes, p, if op == 0x41 { 32 } else { 64 }) {
                Err(e) => Err(e),
                Ok((_, q)) => {
                    proof {
                        lemma_group_len_positive(bytes, p);
                    }
                    const_body_spec(
                        bytes,
                        q,
                        globals,
                        stack.push(if op == 0x41 { ValType::I32 } else { ValType::I64 }),
                    )
                },
            }
        } else if op == 0x43 {
            if p + 4 > bytes.len() {
                Err(Error::Malformed(UNEXPECTED_END))
            } else {
                const_body_spec(bytes, p + 4, globals, stack.push(ValType::F32))
            }
        } else if op == 0x44 {
            if p + 8 > bytes.len() {
                Err(Error::Malformed(UNEXPECTED_END))
            } else {
                const_body_spec(bytes, p + 8, globals, stack.push(ValType::F64))
            }
        } else if (0x6a <= op <= 0x6c) || (0x7c <= op <= 0x7e) {
            let t = if op <= 0x6c { ValType::I32 } else { ValType::I64 };
            if stack.len() < 2 || stack[stack.len() - 1] != t || stack[stack.len() - 2] != t {
                Err(Error::Validation(TYPE_MISMATCH))
            } else {
                const_body_spec(bytes, p, globals, stack.drop_last())
            }
        } else if is_instruction(op) {
            Err(Error::Validation(CONST_EXP_REQUIRED))
        } else {
            Err(Error::Malformed(ILLEGAL_OP))
        }
    }
}

/// What validating a constant expression of type `expected` at `pos`
/// returns: the position after its `end`, or the error.
pub open spec fn const_expr_spec(
    bytes: Seq<u8>,
    pos: int,
    expected: ValType,
    globals: Seq<GlobalView>,
) -> Result<int, Error> {
    match const_body_spec(bytes, pos, globals, Seq::empty()) {
        Err(e) => Err(e),
        Ok((stack, p)) => if stack.len() == 1 && stack[0] == expected {
            Ok(p)
        } else {
            Err(Error::Validation(TYPE_MISMATCH))
        },
    }
}

/// Validates the constant expression at the cursor against the type
/// `expected` and moves the cursor past its `end`.
pub fn validate_const(it: &mut ByteIter, expected: ValType, globals: &Vec<Global>) -> (r: Result<
    (),
    Error,
>)
    requires
        cursor_ok(*old(it)),
    ensures
        final(it).bytes == old(it).bytes,
        cursor_ok(*final(it)),
        match const_expr_spec(old(it).bytes@, old(it).idx as int, expected, global_views(globals@)) {
            Ok(p) => r == Ok::<(), Error>(()) && final(it).idx == p,
            Err(e) => r == Err::<(), Error>(e),
        },
{
    let mut stack: Vec<ValType> = Vec::new();
    let ghost bytes = it.bytes@;
    let ghost start = it.idx as int;
    let ghost gv = global_views(globals@);
    let _total: usize = it.bytes.len();
    loop
        invariant_except_break
            const_body_spec(bytes, start, gv, Seq::empty()) == const_body_spec(
                bytes,
                it.idx as int,
                gv,
                stack@,
            ),
        invariant
            it.bytes == old(it).bytes,
            bytes == it.bytes@,
            start == old(it).idx,
            gv == global_views(globals@),
            cursor_ok(*it),
            bytes.len() <= usize::MAX,
        ensures
            const_body_spec(bytes, start, gv, Seq::empty()) == Ok::<(Seq<ValType>, int), Error>(
                (stack@, it.idx as int),
            ),
        decreases bytes.len() - it.idx,
    {
        let ghost pos = it.idx as int;
        let op: u8 = match it.read_u8() {
            Ok(b) => b,
            Err(e) => {
                return Err(e);
            },
        };
        if op == 0x0b {
            break ;
        }
        if op == 0x23 {
            let idx: u32 = match read_u32(it) {
                Ok(v) => v,
                Err(e) => {
                    return Err(e);
                },
            };
            let i: usize = idx as usize;
            if i >= globals.len() || globals[i].import.is_none() {
                return Err(Error::Validation(UNKNOWN_GLOBAL));
            }
            if globals[i].is_mutable {
                return Err(Error::Validation(CONST_EXP_REQUIRED));
            }
            stack.push(globals[i].ty);
        } else if op == 0x41 || op == 0x42 {
            let mut p: usize = it.idx;
            proof {
                lemma_group_len_positive(bytes, p as int);
            }
            match safe_read_sleb128(it.bytes, &mut p, if op == 0x41 { 32 } else { 64 }) {
                Ok(_) => {},
                Err(e) => {
                    return Err(e);
                },
            }
            it.idx = p;
            stack.push(if op == 0x41 { ValType::I32 } else { ValType::I64 });
        } else if op == 0x43 {
            if !it.has_n_left(4) {
                return Err(Error::Malformed(UNEXPECTED_END));
            }
            it.advance(4);
            stack.push(ValType::F32);
        } else if op == 0x44 {
            if !it.has_n_left(8) {
                return Err(Error::Malformed(UNEXPECTED_END));
            }
            it.advance(8);
            stack.push(ValType::F64);
        } else if (0x6a <= op && op <= 0x6c) || (0x7c <= op && op <= 0x7e) {
            let t: ValType = if op <= 0x6c { ValType::I32 } else { ValType::I64 };
            let n: usize = stack.len();
            if n < 2 || stack[n - 1] != t || stack[n - 2] != t {
                return Err(Error::Validation(TYPE_MISMATCH));
            }
            stack.pop();
        } else if is_instruction(op) {
            return Err(Error::Validation(CONST_EXP_REQUIRED));
        } else {
            return Err(Error::Malformed(ILLEGAL_OP));
        }
    }
    if !(stack.len() == 1 && stack[0] == expected) {
        return Err(Error::Validation(TYPE_MISMATCH));
    }
    Ok(())
}

} // verus!
