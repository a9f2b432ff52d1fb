//! Tables over the opcode byte: which bytes are instructions, and the
//! operand and result types of the numeric and memory instructions.

use vstd::prelude::*;
use crate::signature::ValType;

verus! {

/// Whether `op` is the opcode of an instruction.
pub open spec fn is_instruction_spec(op: u8) -> bool {
    op <= 0x05 || (0x0b <= op <= 0x11) || op == 0x1a || op == 0x1b || (0x20 <= op <= 0x24) || (0x28
        <= op <= 0xbf)
}

/// Whether `op` is the opcode of an instruction.
#[verifier::when_used_as_spec(is_instruction_spec)]
pub fn is_instruction(op: u8) -> (r: bool)
    ensures
        r == is_instruction_spec(op),
{
    op <= 0x05 || (0x0b <= op && op <= 0x11) || op == 0x1a || op == 0x1b || (0x20 <= op && op
        <= 0x24) || (0x28 <= op && op <= 0xbf)
}

/// Whether `op` is a numeric instruction: a test, comparison, unary or
/// binary operation, or conversion.
pub open spec fn is_numeric_spec(op: u8) -> bool {
    0x45 <= op <= 0xbf
}

/// The operand type of the numeric instruction `op`.
pub open spec fn numeric_operand_spec(op: u8) -> ValType {
    if op <= 0x4f {
        ValType::I32
    } else if op <= 0x5a {
        ValType::I64
    } else if op <= 0x60 {
        ValType::F32
    } else if op <= 0x66 {
        ValType::F64
    } else if op <= 0x78 {
        ValType::I32
    } else if op <= 0x8a {
        ValType::I64
    } else if op <= 0x98 {
        ValType::F32
    } else if op <= 0xa6 {
        ValType::F64
    } else if op == 0xa7 {
        ValType::I64
    } else if op <= 0xa9 {
        ValType::F32
    } else if op <= 0xab {
        ValType::F64
    } else if op <= 0xad {
        ValType::I32
    } else if op <= 0xaf {
        ValType::F32
    } else if op <= 0xb1 {
        ValType::F64
    } else if op <= 0xb3 {
        ValType::I32
    } else if op <= 0xb5 {
        ValType::I64
    } else if op == 0xb6 {
        ValType::F64
    } else if op <= 0xb8 {
        ValType::I32
    } else if op <= 0xba {
        ValType::I64
    } else if op <= 0xbc {
        ValType::F32
    } else if op == 0xbd {
        ValType::F64
    } else if op == 0xbe {
        ValType::I32
    } else {
        ValType::I64
    }
}

/// The operand type of the numeric instruction `op`.
pub fn numeric_operand(op: u8) -> (t: ValType)
    ensures
        t == numeric_operand_spec(op),
{
    if op <= 0x4f {
        ValType::I32
    } else if op <= 0x5a {
        ValType::I64
    } else if op <= 0x60 {
        ValType::F32
    } else if op <= 0x66 {
        ValType::F64
    } else if op <= 0x78 {
        ValType::I32
    } else if op <= 0x8a {
        ValType::I64
    } else if op <= 0x98 {
        ValType::F32
    } else if op <= 0xa6 {
        ValType::F64
    } else if op == 0xa7 {
        ValType::I64
    } else if op <= 0xa9 {
        ValType::F32
    } else if op <= 0xab {
        ValType::F64
    } else if op <= 0xad {
        ValType::I32
    } else if op <= 0xaf {
        ValType::F32
    } else if op <= 0xb1 {
        ValType::F64
    } else if op <= 0xb3 {
        ValType::I32
    } else if op <= 0xb5 {
        ValType::I64
    } else if op == 0xb6 {
        ValType::F64
    } else if op <= 0xb8 {
        ValType::I32
    } else if op <= 0xba {
        ValType::I64
    } else if op <= 0xbc {
        ValType::F32
    } else if op == 0xbd {
        ValType::F64
    } else if op == 0xbe {
        ValType::I32
    } else {
        ValType::I64
    }
}

/// The result type of the numeric instruction `op`.
pub open spec fn numeric_result_spec(op: u8) -> ValType {
    if op <= 0x78 {
        ValType::I32
    } else if op <= 0x8a {
        ValType::I64
    } else if op <= 0x98 {
        ValType::F32
    } else if op <= 0xa6 {
        ValType::F64
    } else if op <= 0xab {
        ValType::I32
    } else if op <= 0xb1 {
        ValType::I64
    } else if op <= 0xb6 {
        ValType::F32
    } else if op <= 0xbb {
        ValType::F64
    } else if op == 0xbc {
        ValType::I32
    } else if op == 0xbd {
        ValType::I64
    } else if op == 0xbe {
        ValType::F32
    } else {
        ValType::F64
    }
}

/// The result type of the numeric instruction `op`.
pub fn numeric_result(op: u8) -> (t: ValType)
    ensures
        t == numeric_result_spec(op),
{
    if op <= 0x78 {
        ValType::I32
    } else if op <= 0x8a {
        ValType::I64
    } else if op <= 0x98 {
        ValType::F32
    } else if op <= 0xa6 {
        ValType::F64
    } else if op <= 0xab {
        ValType::I32
    } else if op <= 0xb1 {
        ValType::I64
    } else if op <= 0xb6 {
        ValType::F32
    } else if op <= 0xbb {
        ValType::F64
    } else if op == 0xbc {
        ValType::I32
    } else if op == 0xbd {
        ValType::I64
    } else if op == 0xbe {
        ValType::F32
    } else {
        ValType::F64
    }
}

/// Whether the numeric instruction `op` takes two operands; the others
/// take one.
pub open spec fn numeric_is_binary_spec(op: u8) -> bool {
    (0x46 <= op <= 0x4f) || (0x51 <= op <= 0x66) || (0x6a <= op <= 0x78) || (0x7c <= op <= 0x8a)
        || (0x92 <= op <= 0x98) || (0xa0 <= op <= 0xa6)
}

/// Whether the numeric instruction `op` takes two operands.
#[verifier::when_used_as_spec(numeric_is_binary_spec)]
pub fn numeric_is_binary(op: u8) -> (r: bool)
    ensures
        r == numeric_is_binary_spec(op),
{
    (0x46 <= op && op <= 0x4f) || (0x51 <= op && op <= 0x66) || (0x6a <= op && op <= 0x78) || (0x7c
        <= op && op <= 0x8a) || (0x92 <= op && op <= 0x98) || (0xa0 <= op && op <= 0xa6)
}

/// Whether `op` is a load or a store.
pub open spec fn is_memory_access_spec(op: u8) -> bool {
    0x28 <= op <= 0x3e
}

/// Whether the memory instruction `op` is a store.
pub open spec fn is_store_spec(op: u8) -> bool {
    0x36 <= op <= 0x3e
}

/// The type of the value that the memory instruction `op` loads or
/// stores.
pub open spec fn access_type_spec(op: u8) -> ValType {
    if op == 0x28 || (0x2c <= op <= 0x2f) || op == 0x36 || op == 0x3a || op == 0x3b {
        ValType::I32
    } else if op == 0x2a || op == 0x38 {
        ValType::F32
    } else if op == 0x2b || op == 0x39 {
        ValType::F64
    } else {
        ValType::I64
    }
}

/// The type of the value that the memory instruction `op` loads or
/// stores.
pub fn access_type(op: u8) -> (t: ValType)
    ensures
        t == access_type_spec(op),
{
    if op == 0x28 || (0x2c <= op && op <= 0x2f) || op == 0x36 || op == 0x3a || op == 0x3b {
        ValType::I32
    } else if op == 0x2a || op == 0x38 {
        ValType::F32
    } else if op == 0x2b || op == 0x39 {
        ValType::F64
    } else {
        ValType::I64
    }
}

/// The natural alignment of the memory instruction `op`, as the
/// exponent `k` of its width `2^k` in bytes.
pub open spec fn natural_align_spec(op: u8) -> u32 {
    if op == 0x29 || op == 0x2b || op == 0x37 || op == 0x39 {
        3
    } else if op == 0x28 || op == 0x2a || op == 0x34 || op == 0x35 || op == 0x36 || op == 0x38
        || op == 0x3e {
        2
    } else if op == 0x2e || op == 0x2f || op == 0x32 || op == 0x33 || op == 0x3b || op == 0x3d {
        1
    } else {
        0
    }
}

/// The natural alignment of the memory instruction `op`, as the
/// exponent `k` of its width `2^k` in bytes.
pub fn natural_align(op: u8) -> (k: u32)
    ensures
        k == natural_align_spec(op),
{
    if op == 0x29 || op == 0x2b || op == 0x37 || op == 0x39 {
        3
    } else if op == 0x28 || op == 0x2a || op == 0x34 || op == 0x35 || op == 0x36 || op == 0x38
        || op == 0x3e {
        2
    } else if op == 0x2e || op == 0x2f || op == 0x32 || op == 0x33 || op == 0x3b || op == 0x3d {
        1
    } else {
        0
    }
}

} // verus!
