//! The arithmetic of the instruction set, on bit patterns.
//!
//! A 32-bit operand is a `u32` and a 64-bit operand a `u64`, whatever the
//! instruction reads it as.  The float instructions that are decided on
//! the bit pattern are evaluated here as well; the others need the
//! machine's floating-point unit and are left to the embedder.

use vstd::prelude::*;
use vstd::arithmetic::power2::{pow2, lemma_pow2_unfold, lemma2_to64, lemma2_to64_rest};
use vstd::std_specs::bits::{
    u32_leading_zeros,
    u32_trailing_zeros,
    u64_leading_zeros,
    u64_trailing_zeros,
};
use crate::error::{Error, DIVIDE_BY_ZERO, INTEGER_OVERFLOW};
use crate::floats::{
    is_comparison,
    is_min_max,
    is_rounding,
    compare_spec,
    min_max_spec,
    rounding_spec,
    compare,
    min_max,
    round,
};
use crate::value::{
    signed32,
    signed64,
    unsigned32,
    unsigned64,
    u32_to_i32,
    i32_to_u32,
    u64_to_i64,
    i64_to_u64,
};

verus! {

/// `v` modulo `2^32`.
pub open spec fn wrap32(v: int) -> u32 {
    (v % 0x1_0000_0000) as u32
}

/// `v` modulo `2^64`.
pub open spec fn wrap64(v: int) -> u64 {
    (v % 0x1_0000_0000_0000_0000) as u64
}

/// The quotient rounded toward zero.
pub open spec fn trunc_div(a: int, b: int) -> int {
    if a >= 0 {
        if b > 0 {
            a / b
        } else {
            -(a / (-b))
        }
    } else {
        if b > 0 {
            -((-a) / b)
        } else {
            (-a) / (-b)
        }
    }
}

/// The remainder that goes with [`trunc_div`]: it has the sign of `a`
/// and the magnitude `|a| mod |b|`.
pub open spec fn trunc_rem(a: int, b: int) -> int {
    let m = if b > 0 { b } else { -b };
    if a >= 0 {
        a % m
    } else {
        -((-a) % m)
    }
}

/// The number of one bits of `v`.
pub open spec fn popcount(v: nat) -> nat
    decreases v,
{
    if v == 0 {
        0
    } else {
        (v % 2) + popcount(v / 2)
    }
}

/// `a` rotated left by `k` bits, `k < 32`.
pub open spec fn rotl32(a: u32, k: u32) -> u32 {
    if k == 0 {
        a
    } else {
        (a << k) | (a >> ((32 - k) as u32))
    }
}

/// `a` rotated right by `k` bits, `k < 32`.
pub open spec fn rotr32(a: u32, k: u32) -> u32 {
    if k == 0 {
        a
    } else {
        (a >> k) | (a << ((32 - k) as u32))
    }
}

/// `a` rotated left by `k` bits, `k < 64`.
pub open spec fn rotl64(a: u64, k: u32) -> u64 {
    if k == 0 {
        a
    } else {
        (a << k) | (a >> ((64 - k) as u32))
    }
}

/// `a` rotated right by `k` bits, `k < 64`.
pub open spec fn rotr64(a: u64, k: u32) -> u64 {
    if k == 0 {
        a
    } else {
        (a >> k) | (a << ((64 - k) as u32))
    }
}

/// Signed division: the result, or the trap.
pub open spec fn div_s_spec(a: int, b: int, min: int) -> Result<int, Error> {
    if b == 0 {
        Err(Error::Trap(DIVIDE_BY_ZERO))
    } else if a == min && b == -1 {
        Err(Error::Trap(INTEGER_OVERFLOW))
    } else {
        Ok(trunc_div(a, b))
    }
}

/// Signed remainder: the result, or the trap.  The remainder of the least
/// integer by `-1` is zero.
pub open spec fn rem_s_spec(a: int, b: int, min: int) -> Result<int, Error> {
    if b == 0 {
        Err(Error::Trap(DIVIDE_BY_ZERO))
    } else if a == min && b == -1 {
        Ok(0)
    } else {
        Ok(trunc_rem(a, b))
    }
}

/// Unsigned division: the result, or the trap.
pub open spec fn div_u_spec(a: int, b: int) -> Result<int, Error> {
    if b == 0 {
        Err(Error::Trap(DIVIDE_BY_ZERO))
    } else {
        Ok(a / b)
    }
}

/// Unsigned remainder: the result, or the trap.
pub open spec fn rem_u_spec(a: int, b: int) -> Result<int, Error> {
    if b == 0 {
        Err(Error::Trap(DIVIDE_BY_ZERO))
    } else {
        Ok(a % b)
    }
}

/// `i32.div_s`.
pub fn i32_div_s(a: i32, b: i32) -> (r: Result<i32, Error>)
    ensures
        match div_s_spec(a as int, b as int, i32::MIN as int) {
            Ok(v) => r == Ok::<i32, Error>(v as i32) && i32::MIN <= v <= i32::MAX,
            Err(e) => r == Err::<i32, Error>(e),
        },
{
    if b == 0 {
        return Err(Error::Trap(DIVIDE_BY_ZERO));
    }
    if a == i32::MIN && b == -1 {
        return Err(Error::Trap(INTEGER_OVERFLOW));
    }
    let ma: u32 = magnitude32(a);
    let mb: u32 = magnitude32(b);
    let q: u32 = ma / mb;
    assert(q <= ma) by (nonlinear_arith)
        requires
            q == ma / mb,
            mb > 0,
    ;
    if (a < 0) != (b < 0) {
        Ok((-(q as i64)) as i32)
    } else {
        assert(q <= i32::MAX) by (nonlinear_arith)
            requires
                q == ma / mb,
                mb > 0,
                ma <= i32::MAX + 1,
                ma == i32::MAX + 1 ==> mb >= 2,
        ;
        Ok(q as i32)
    }
}

/// `i32.rem_s`.
pub fn i32_rem_s(a: i32, b: i32) -> (r: Result<i32, Error>)
    ensures
        match rem_s_spec(a as int, b as int, i32::MIN as int) {
            Ok(v) => r == Ok::<i32, Error>(v as i32) && i32::MIN <= v <= i32::MAX,
            Err(e) => r == Err::<i32, Error>(e),
        },
{
    if b == 0 {
        return Err(Error::Trap(DIVIDE_BY_ZERO));
    }
    if a == i32::MIN && b == -1 {
        return Ok(0);
    }
    let ma: u32 = magnitude32(a);
    let mb: u32 = magnitude32(b);
    let m: u32 = ma % mb;
    if a < 0 {
        Ok((-(m as i64)) as i32)
    } else {
        Ok(m as i32)
    }
}

/// The absolute value of `v`.
fn magnitude32(v: i32) -> (m: u32)
    ensures
        m == if v >= 0 { v as int } else { -v },
{
    if v >= 0 {
        v as u32
    } else {
        (-(v as i64)) as u32
    }
}

/// `i32.div_u`.
pub fn i32_div_u(a: u32, b: u32) -> (r: Result<u32, Error>)
    ensures
        match div_u_spec(a as int, b as int) {
            Ok(v) => r == Ok::<u32, Error>(v as u32) && 0 <= v <= u32::MAX,
            Err(e) => r == Err::<u32, Error>(e),
        },
{
    if b == 0 {
        return Err(Error::Trap(DIVIDE_BY_ZERO));
    }
    Ok(a / b)
}

/// `i32.rem_u`.
pub fn i32_rem_u(a: u32, b: u32) -> (r: Result<u32, Error>)
    ensures
        match rem_u_spec(a as int, b as int) {
            Ok(v) => r == Ok::<u32, Error>(v as u32) && 0 <= v <= u32::MAX,
            Err(e) => r == Err::<u32, Error>(e),
        },
{
    if b == 0 {
        return Err(Error::Trap(DIVIDE_BY_ZERO));
    }
    Ok(a % b)
}

/// `i64.div_s`.
pub fn i64_div_s(a: i64, b: i64) -> (r: Result<i64, Error>)
    ensures
        match div_s_spec(a as int, b as int, i64::MIN as int) {
            Ok(v) => r == Ok::<i64, Error>(v as i64) && i64::MIN <= v <= i64::MAX,
            Err(e) => r == Err::<i64, Error>(e),
        },
{
    if b == 0 {
        return Err(Error::Trap(DIVIDE_BY_ZERO));
    }
    if a == i64::MIN && b == -1 {
        return Err(Error::Trap(INTEGER_OVERFLOW));
    }
    let ma: u64 = magnitude64(a);
    let mb: u64 = magnitude64(b);
    let q: u64 = ma / mb;
    assert(q <= ma) by (nonlinear_arith)
        requires
            q == ma / mb,
            mb > 0,
    ;
    if (a < 0) != (b < 0) {
        Ok((-(q as i128)) as i64)
    } else {
        assert(q <= i64::MAX) by (nonlinear_arith)
            requires
                q == ma / mb,
                mb > 0,
                ma <= i64::MAX + 1,
                ma == i64::MAX + 1 ==> mb >= 2,
        ;
        Ok(q as i64)
    }
}

/// `i64.rem_s`.
pub fn i64_rem_s(a: i64, b: i64) -> (r: Result<i64, Error>)
    ensures
        match rem_s_spec(a as int, b as int, i64::MIN as int) {
            Ok(v) => r == Ok::<i64, Error>(v as i64) && i64::MIN <= v <= i64::MAX,
            Err(e) => r == Err::<i64, Error>(e),
        },
{
    if b == 0 {
        return Err(Error::Trap(DIVIDE_BY_ZERO));
    }
    if a == i64::MIN && b == -1 {
        return Ok(0);
    }
    let ma: u64 = magnitude64(a);
    let mb: u64 = magnitude64(b);
    let m: u64 = ma % mb;
    if a < 0 {
        Ok((-(m as i128)) as i64)
    } else {
        Ok(m as i64)
    }
}

/// The absolute value of `v`.
fn magnitude64(v: i64) -> (m: u64)
    ensures
        m == if v >= 0 { v as int } else { -v },
{
    if v >= 0 {
        v as u64
    } else {
        (-(v as i128)) as u64
    }
}

/// `i64.div_u`.
pub fn i64_div_u(a: u64, b: u64) -> (r: Result<u64, Error>)
    ensures
        match div_u_spec(a as int, b as int) {
            Ok(v) => r == Ok::<u64, Error>(v as u64) && 0 <= v <= u64::MAX,
            Err(e) => r == Err::<u64, Error>(e),
        },
{
    if b == 0 {
        return Err(Error::Trap(DIVIDE_BY_ZERO));
    }
    Ok(a / b)
}

/// `i64.rem_u`.
pub fn i64_rem_u(a: u64, b: u64) -> (r: Result<u64, Error>)
    ensures
        match rem_u_spec(a as int, b as int) {
            Ok(v) => r == Ok::<u64, Error>(v as u64) && 0 <= v <= u64::MAX,
            Err(e) => r == Err::<u64, Error>(e),
        },
{
    if b == 0 {
        return Err(Error::Trap(DIVIDE_BY_ZERO));
    }
    Ok(a % b)
}

/// Dividing the least 32-bit integer by `-1` traps with an overflow and
/// leaves the remainder zero; dividing by zero traps whatever the
/// dividend, signed or unsigned.
pub proof fn lemma_division_edges(x: int)
    ensures
        div_s_spec(i32::MIN as int, -1, i32::MIN as int) == Err::<int, Error>(
            Error::Trap(INTEGER_OVERFLOW),
        ),
        rem_s_spec(i32::MIN as int, -1, i32::MIN as int) == Ok::<int, Error>(0),
        div_s_spec(i64::MIN as int, -1, i64::MIN as int) == Err::<int, Error>(
            Error::Trap(INTEGER_OVERFLOW),
        ),
        rem_s_spec(i64::MIN as int, -1, i64::MIN as int) == Ok::<int, Error>(0),
        div_u_spec(x, 0) == Err::<int, Error>(Error::Trap(DIVIDE_BY_ZERO)),
        rem_u_spec(x, 0) == Err::<int, Error>(Error::Trap(DIVIDE_BY_ZERO)),
        div_s_spec(x, 0, i32::MIN as int) == Err::<int, Error>(Error::Trap(DIVIDE_BY_ZERO)),
        rem_s_spec(x, 0, i32::MIN as int) == Err::<int, Error>(Error::Trap(DIVIDE_BY_ZERO)),
{
}

/// A number below `2^n` has at most `n` one bits.
pub proof fn lemma_popcount_bound(v: nat, n: nat)
    requires
        v < pow2(n),
    ensures
        popcount(v) <= n,
    decreases n,
{
    if n == 0 {
        lemma2_to64();
    } else {
        lemma_pow2_unfold(n);
        if v > 0 {
            lemma_popcount_bound(v / 2, (n - 1) as nat);
        }
    }
}

/// The number of one bits of `v`.
pub fn popcnt(v: u64) -> (r: u32)
    ensures
        r == popcount(v as nat),
        r <= 64,
{
    proof {
        lemma2_to64();
        lemma2_to64_rest();
        lemma_popcount_bound(v as nat, 64);
    }
    let mut x: u64 = v;
    let mut c: u32 = 0;
    while x != 0
        invariant
            c + popcount(x as nat) == popcount(v as nat),
            popcount(v as nat) <= 64,
        decreases x,
    {
        c = c + (x % 2) as u32;
        x = x / 2;
    }
    c
}

/// The comparisons of `i32`, by opcode from `0x46` (`eq`) to
/// `0x4f` (`ge_u`): `eq`, `ne`, then `lt`, `gt`, `le`, `ge`, each signed
/// first and unsigned second.
pub open spec fn i32_rel_spec(op: u8, a: u32, b: u32) -> bool {
    if op == 0x46 {
        a == b
    } else if op == 0x47 {
        a != b
    } else if op == 0x48 {
        signed32(a) < signed32(b)
    } else if op == 0x49 {
        a < b
    } else if op == 0x4a {
        signed32(a) > signed32(b)
    } else if op == 0x4b {
        a > b
    } else if op == 0x4c {
        signed32(a) <= signed32(b)
    } else if op == 0x4d {
        a <= b
    } else if op == 0x4e {
        signed32(a) >= signed32(b)
    } else if op == 0x4f {
        a >= b
    } else {
        false
    }
}

/// Evaluates a comparison of `i32`.
pub fn i32_rel(op: u8, a: u32, b: u32) -> (r: bool)
    ensures
        r == i32_rel_spec(op, a, b),
{
    if op == 0x46 {
        a == b
    } else if op == 0x47 {
        a != b
    } else if op == 0x48 {
        u32_to_i32(a) < u32_to_i32(b)
    } else if op == 0x49 {
        a < b
    } else if op == 0x4a {
        u32_to_i32(a) > u32_to_i32(b)
    } else if op == 0x4b {
        a > b
    } else if op == 0x4c {
        u32_to_i32(a) <= u32_to_i32(b)
    } else if op == 0x4d {
        a <= b
    } else if op == 0x4e {
        u32_to_i32(a) >= u32_to_i32(b)
    } else if op == 0x4f {
        a >= b
    } else {
        false
    }
}

/// The comparisons of `i64`, by opcode from `0x51` (`eq`) to
/// `0x5a` (`ge_u`): `eq`, `ne`, then `lt`, `gt`, `le`, `ge`, each signed
/// first and unsigned second.
pub open spec fn i64_rel_spec(op: u8, a: u64, b: u64) -> bool {
    if op == 0x51 {
        a == b
    } else if op == 0x52 {
        a != b
    } else if op == 0x53 {
        signed64(a) < signed64(b)
    } else if op == 0x54 {
        a < b
    } else if op == 0x55 {
        signed64(a) > signed64(b)
    } else if op == 0x56 {
        a > b
    } else if op == 0x57 {
        signed64(a) <= signed64(b)
    } else if op == 0x58 {
        a <= b
    } else if op == 0x59 {
        signed64(a) >= signed64(b)
    } else if op == 0x5a {
        a >= b
    } else {
        false
    }
}

/// Evaluates a comparison of `i64`.
pub fn i64_rel(op: u8, a: u64, b: u64) -> (r: bool)
    ensures
        r == i64_rel_spec(op, a, b),
{
    if op == 0x51 {
        a == b
    } else if op == 0x52 {
        a != b
    } else if op == 0x53 {
        u64_to_i64(a) < u64_to_i64(b)
    } else if op == 0x54 {
        a < b
    } else if op == 0x55 {
        u64_to_i64(a) > u64_to_i64(b)
    } else if op == 0x56 {
        a > b
    } else if op == 0x57 {
        u64_to_i64(a) <= u64_to_i64(b)
    } else if op == 0x58 {
        a <= b
    } else if op == 0x59 {
        u64_to_i64(a) >= u64_to_i64(b)
    } else if op == 0x5a {
        a >= b
    } else {
        false
    }
}

/// Lifts a signed result to its bit pattern.
pub open spec fn lift32(r: Result<int, Error>) -> Result<u32, Error> {
    match r {
        Ok(v) => Ok(unsigned32(v) as u32),
        Err(e) => Err(e),
    }
}

/// Lifts an unsigned result to its bit pattern.
pub open spec fn keep32(r: Result<int, Error>) -> Result<u32, Error> {
    match r {
        Ok(v) => Ok(v as u32),
        Err(e) => Err(e),
    }
}

/// The binary operations of `i32`, by opcode from `0x6a` to
/// `0x78`: `add`, `sub`, `mul`, `div_s`, `div_u`, `rem_s`, `rem_u`, `and`,
/// `or`, `xor`, `shl`, `shr_s`, `shr_u`, `rotl`, `rotr`.  Sums, differences
/// and products wrap; shifts and rotations use the shift count modulo
/// 32.
pub open spec fn i32_bin_spec(op: u8, a: u32, b: u32) -> Result<u32, Error> {
    let k = (b % 32) as u32;
    if op == 0x6a {
        Ok(wrap32(a + b))
    } else if op == 0x6b {
        Ok(wrap32(a - b))
    } else if op == 0x6c {
        Ok(wrap32(a * b))
    } else if op == 0x6d {
        lift32(div_s_spec(signed32(a), signed32(b), i32::MIN as int))
    } else if op == 0x6e {
        keep32(div_u_spec(a as int, b as int))
    } else if op == 0x6f {
        lift32(rem_s_spec(signed32(a), signed32(b), i32::MIN as int))
    } else if op == 0x70 {
        keep32(rem_u_spec(a as int, b as int))
    } else if op == 0x71 {
        Ok(a & b)
    } else if op == 0x72 {
        Ok(a | b)
    } else if op == 0x73 {
        Ok(a ^ b)
    } else if op == 0x74 {
        Ok(a << k)
    } else if op == 0x75 {
        Ok(unsigned32(((signed32(a) as i32) >> k) as int) as u32)
    } else if op == 0x76 {
        Ok(a >> k)
    } else if op == 0x77 {
        Ok(rotl32(a, k))
    } else {
        Ok(rotr32(a, k))
    }
}

/// Evaluates a binary operation of `i32`.
pub fn i32_bin(op: u8, a: u32, b: u32) -> (r: Result<u32, Error>)
    ensures
        r == i32_bin_spec(op, a, b),
{
    let k: u32 = (b % 32) as u32;
    if op == 0x6a {
        Ok(a.wrapping_add(b))
    } else if op == 0x6b {
        Ok(a.wrapping_sub(b))
    } else if op == 0x6c {
        Ok(a.wrapping_mul(b))
    } else if op == 0x6d {
        match i32_div_s(u32_to_i32(a), u32_to_i32(b)) {
            Ok(v) => Ok(i32_to_u32(v)),
            Err(e) => Err(e),
        }
    } else if op == 0x6e {
        i32_div_u(a, b)
    } else if op == 0x6f {
        match i32_rem_s(u32_to_i32(a), u32_to_i32(b)) {
            Ok(v) => Ok(i32_to_u32(v)),
            Err(e) => Err(e),
        }
    } else if op == 0x70 {
        i32_rem_u(a, b)
    } else if op == 0x71 {
        Ok(a & b)
    } else if op == 0x72 {
        Ok(a | b)
    } else if op == 0x73 {
        Ok(a ^ b)
    } else if op == 0x74 {
        Ok(a << k)
    } else if op == 0x75 {
        let x: i32 = u32_to_i32(a);
        Ok(i32_to_u32(x >> k))
    } else if op == 0x76 {
        Ok(a >> k)
    } else if op == 0x77 {
        if k == 0 {
            Ok(a)
        } else {
            Ok((a << k) | (a >> (32 - k)))
        }
    } else {
        if k == 0 {
            Ok(a)
        } else {
            Ok((a >> k) | (a << (32 - k)))
        }
    }
}

/// The unary operations of `i32`, by opcode from `0x67`: `clz`, `ctz`,
/// `popcnt`.
pub open spec fn i32_un_spec(op: u8, a: u32) -> u32 {
    if op == 0x67 {
        u32_leading_zeros(a) as u32
    } else if op == 0x68 {
        u32_trailing_zeros(a) as u32
    } else {
        popcount(a as nat) as u32
    }
}

/// Evaluates a unary operation of `i32`.
pub fn i32_un(op: u8, a: u32) -> (r: u32)
    ensures
        r == i32_un_spec(op, a),
{
    if op == 0x67 {
        a.leading_zeros() as u32
    } else if op == 0x68 {
        a.trailing_zeros() as u32
    } else {
        popcnt(a as u64) as u32
    }
}

/// Lifts a signed result to its bit pattern.
pub open spec fn lift64(r: Result<int, Error>) -> Result<u64, Error> {
    match r {
        Ok(v) => Ok(unsigned64(v) as u64),
        Err(e) => Err(e),
    }
}

/// Lifts an unsigned result to its bit pattern.
pub open spec fn keep64(r: Result<int, Error>) -> Result<u64, Error> {
    match r {
        Ok(v) => Ok(v as u64),
        Err(e) => Err(e),
    }
}

/// The binary operations of `i64`, by opcode from `0x7c` to
/// `0x8a`: `add`, `sub`, `mul`, `div_s`, `div_u`, `rem_s`, `rem_u`, `and`,
/// `or`, `xor`, `shl`, `shr_s`, `shr_u`, `rotl`, `rotr`.  Sums, differences
/// and products wrap; shifts and rotations use the shift count modulo
/// 64.
pub open spec fn i64_bin_spec(op: u8, a: u64, b: u64) -> Result<u64, Error> {
    let k = (b % 64) as u32;
    if op == 0x7c {
        Ok(wrap64(a + b))
    } else if op == 0x7d {
        Ok(wrap64(a - b))
    } else if op == 0x7e {
        Ok(wrap64(a * b))
    } else if op == 0x7f {
        lift64(div_s_spec(signed64(a), signed64(b), i64::MIN as int))
    } else if op == 0x80 {
        keep64(div_u_spec(a as int, b as int))
    } else if op == 0x81 {
        lift64(rem_s_spec(signed64(a), signed64(b), i64::MIN as int))
    } else if op == 0x82 {
        keep64(rem_u_spec(a as int, b as int))
    } else if op == 0x83 {
        Ok(a & b)
    } else if op == 0x84 {
        Ok(a | b)
    } else if op == 0x85 {
        Ok(a ^ b)
    } else if op == 0x86 {
        Ok(a << k)
    } else if op == 0x87 {
        Ok(unsigned64(((signed64(a) as i64) >> k) as int) as u64)
    } else if op == 0x88 {
        Ok(a >> k)
    } else if op == 0x89 {
        Ok(rotl64(a, k))
    } else {
        Ok(rotr64(a, k))
    }
}

/// Evaluates a binary operation of `i64`.
pub fn i64_bin(op: u8, a: u64, b: u64) -> (r: Result<u64, Error>)
    ensures
        r == i64_bin_spec(op, a, b),
{
    let k: u32 = (b % 64) as u32;
    if op == 0x7c {
        Ok(a.wrapping_add(b))
    } else if op == 0x7d {
        Ok(a.wrapping_sub(b))
    } else if op == 0x7e {
        Ok(a.wrapping_mul(b))
    } else if op == 0x7f {
        match i64_div_s(u64_to_i64(a), u64_to_i64(b)) {
            Ok(v) => Ok(i64_to_u64(v)),
            Err(e) => Err(e),
        }
    } else if op == 0x80 {
        i64_div_u(a, b)
    } else if op == 0x81 {
        match i64_rem_s(u64_to_i64(a), u64_to_i64(b)) {
            Ok(v) => Ok(i64_to_u64(v)),
            Err(e) => Err(e),
        }
    } else if op == 0x82 {
        i64_rem_u(a, b)
    } else if op == 0x83 {
        Ok(a & b)
    } else if op == 0x84 {
        Ok(a | b)
    } else if op == 0x85 {
        Ok(a ^ b)
    } else if op == 0x86 {
        Ok(a << k)
    } else if op == 0x87 {
        let x: i64 = u64_to_i64(a);
        Ok(i64_to_u64(x >> k))
    } else if op == 0x88 {
        Ok(a >> k)
    } else if op == 0x89 {
        if k == 0 {
            Ok(a)
        } else {
            Ok((a << k) | (a >> (64 - k)))
        }
    } else {
        if k == 0 {
            Ok(a)
        } else {
            Ok((a >> k) | (a << (64 - k)))
        }
    }
}

/// The unary operations of `i64`, by opcode from `0x79`: `clz`, `ctz`,
/// `popcnt`.
pub open spec fn i64_un_spec(op: u8, a: u64) -> u64 {
    if op == 0x79 {
        u64_leading_zeros(a) as u64
    } else if op == 0x7a {
        u64_trailing_zeros(a) as u64
    } else {
        popcount(a as nat) as u64
    }
}

/// Evaluates a unary operation of `i64`.
pub fn i64_un(op: u8, a: u64) -> (r: u64)
    ensures
        r == i64_un_spec(op, a),
{
    if op == 0x79 {
        a.leading_zeros() as u64
    } else if op == 0x7a {
        a.trailing_zeros() as u64
    } else {
        popcnt(a as u64) as u64
    }
}

/// The sign-bit operations on float bit patterns: `abs` clears the sign,
/// `neg` flips it.
pub open spec fn float_sign_un_spec(op: u8, a: u64) -> u64 {
    let lo = a % 0x1_0000_0000;
    if op == 0x8b {
        (lo % 0x8000_0000) as u64
    } else if op == 0x8c {
        (if lo >= 0x8000_0000 { lo - 0x8000_0000 } else { lo + 0x8000_0000 }) as u64
    } else if op == 0x99 {
        (a % 0x8000_0000_0000_0000) as u64
    } else {
        (if a >= 0x8000_0000_0000_0000 {
            a - 0x8000_0000_0000_0000
        } else {
            a + 0x8000_0000_0000_0000
        }) as u64
    }
}

/// `copysign` on float bit patterns: the magnitude of `a` with the sign
/// of `b`.
pub open spec fn copysign_spec(op: u8, a: u64, b: u64) -> u64 {
    if op == 0x98 {
        let x = a % 0x1_0000_0000;
        let y = b % 0x1_0000_0000;
        ((x % 0x8000_0000) + (y / 0x8000_0000) * 0x8000_0000) as u64
    } else {
        ((a % 0x8000_0000_0000_0000) + (b / 0x8000_0000_0000_0000) * 0x8000_0000_0000_0000) as u64
    }
}

/// Whether `op` is a unary instruction that this module evaluates and
/// that cannot trap.
pub open spec fn is_unary_spec(op: u8) -> bool {
    op == 0x45 || op == 0x50 || (0x67 <= op <= 0x69) || (0x79 <= op <= 0x7b) || op == 0x8b || op
        == 0x8c || op == 0x99 || op == 0x9a || op == 0xa7 || op == 0xac || op == 0xad || is_rounding(op)
}

/// Whether `op` is a binary instruction that this module evaluates.
pub open spec fn is_binary_spec(op: u8) -> bool {
    (0x46 <= op <= 0x4f) || (0x51 <= op <= 0x5a) || (0x6a <= op <= 0x78) || (0x7c <= op <= 0x8a)
        || op == 0x98 || op == 0xa6 || is_comparison(op) || is_min_max(op)
}

/// The payload that a unary instruction leaves for the payload `a`:
/// `eqz`, `clz`, `ctz`, `popcnt` at both widths, the float sign
/// operations, the roundings of floats to integers, `i32.wrap_i64`,
/// `i64.extend_i32_s` and `i64.extend_i32_u`.
pub open spec fn unary_spec(op: u8, a: u64) -> u64 {
    let lo = (a % 0x1_0000_0000) as u32;
    if op == 0x45 {
        if lo == 0 { 1 } else { 0 }
    } else if op == 0x50 {
        if a == 0 { 1 } else { 0 }
    } else if 0x67 <= op <= 0x69 {
        i32_un_spec(op, lo) as u64
    } else if 0x79 <= op <= 0x7b {
        i64_un_spec(op, a)
    } else if op == 0xa7 {
        lo as u64
    } else if op == 0xac {
        unsigned64(signed32(lo)) as u64
    } else if op == 0xad {
        lo as u64
    } else if is_rounding(op) {
        rounding_spec(op, a)
    } else {
        float_sign_un_spec(op, a)
    }
}

/// Evaluates a unary instruction.
pub fn unary(op: u8, a: u64) -> (r: u64)
    requires
        is_unary_spec(op),
    ensures
        r == unary_spec(op, a),
{
    let lo: u32 = (a % 0x1_0000_0000) as u32;
    if op == 0x45 {
        if lo == 0 { 1 } else { 0 }
    } else if op == 0x50 {
        if a == 0 { 1 } else { 0 }
    } else if 0x67 <= op && op <= 0x69 {
        i32_un(op, lo) as u64
    } else if 0x79 <= op && op <= 0x7b {
        i64_un(op, a)
    } else if op == 0xa7 {
        lo as u64
    } else if op == 0xac {
        i64_to_u64(u32_to_i32(lo) as i64)
    } else if op == 0xad {
        lo as u64
    } else if (0x8d <= op && op <= 0x90) || (0x9b <= op && op <= 0x9e) {
        round(op, a)
    } else if op == 0x8b {
        (lo % 0x8000_0000) as u64
    } else if op == 0x8c {
        (if lo >= 0x8000_0000 { lo - 0x8000_0000 } else { lo + 0x8000_0000 }) as u64
    } else if op == 0x99 {
        a % 0x8000_0000_0000_0000
    } else {
        if a >= 0x8000_0000_0000_0000 {
            a - 0x8000_0000_0000_0000
        } else {
            a + 0x8000_0000_0000_0000
        }
    }
}

/// The payload that a binary instruction leaves for the payloads `a`
/// (pushed first) and `b`, or the trap: the comparisons and the binary
/// operations of both integer widths, and the comparisons, `min`, `max`
/// and `copysign` of both float widths.
pub open spec fn binary_spec(op: u8, a: u64, b: u64) -> Result<u64, Error> {
    let x = (a % 0x1_0000_0000) as u32;
    let y = (b % 0x1_0000_0000) as u32;
    if 0x46 <= op <= 0x4f {
        Ok(if i32_rel_spec(op, x, y) { 1u64 } else { 0u64 })
    } else if 0x51 <= op <= 0x5a {
        Ok(if i64_rel_spec(op, a, b) { 1u64 } else { 0u64 })
    } else if 0x6a <= op <= 0x78 {
        match i32_bin_spec(op, x, y) {
            Ok(v) => Ok(v as u64),
            Err(e) => Err(e),
        }
    } else if 0x7c <= op <= 0x8a {
        i64_bin_spec(op, a, b)
    } else if is_comparison(op) {
        Ok(if compare_spec(op, a, b) { 1u64 } else { 0u64 })
    } else if is_min_max(op) {
        Ok(min_max_spec(op, a, b))
    } else {
        Ok(copysign_spec(op, a, b))
    }
}

/// Evaluates a binary instruction.
pub fn binary(op: u8, a: u64, b: u64) -> (r: Result<u64, Error>)
    requires
        is_binary_spec(op),
    ensures
        r == binary_spec(op, a, b),
{
    let x: u32 = (a % 0x1_0000_0000) as u32;
    let y: u32 = (b % 0x1_0000_0000) as u32;
    if 0x46 <= op && op <= 0x4f {
        Ok(if i32_rel(op, x, y) { 1u64 } else { 0u64 })
    } else if 0x51 <= op && op <= 0x5a {
        Ok(if i64_rel(op, a, b) { 1u64 } else { 0u64 })
    } else if 0x6a <= op && op <= 0x78 {
        match i32_bin(op, x, y) {
            Ok(v) => Ok(v as u64),
            Err(e) => Err(e),
        }
    } else if 0x7c <= op && op <= 0x8a {
        i64_bin(op, a, b)
    } else if 0x5b <= op && op <= 0x66 {
        Ok(if compare(op, a, b) { 1u64 } else { 0u64 })
    } else if op == 0x96 || op == 0x97 || op == 0xa4 || op == 0xa5 {
        Ok(min_max(op, a, b))
    } else if op == 0x98 {
        Ok(((x % 0x8000_0000) + (y / 0x8000_0000) * 0x8000_0000) as u64)
    } else {
        Ok((a % 0x8000_0000_0000_0000) + (b / 0x8000_0000_0000_0000) * 0x8000_0000_0000_0000)
    }
}

/// Whether `op` is an instruction that needs the floating-point unit:
/// the square root, the four arithmetic operations, and the conversions
/// that give a float, but for the reinterpretations.
pub open spec fn is_float_op_spec(op: u8) -> bool {
    (0x91 <= op <= 0x95) || (0x9f <= op <= 0xa3) || (0xb2 <= op <= 0xbb)
}

/// Whether `op` needs the floating-point unit.
#[verifier::when_used_as_spec(is_float_op_spec)]
pub fn is_float_op(op: u8) -> (r: bool)
    ensures
        r == is_float_op_spec(op),
{
    (0x91 <= op && op <= 0x95) || (0x9f <= op && op <= 0xa3) || (0xb2 <= op && op <= 0xbb)
}

/// The number of operands of an instruction that needs the
/// floating-point unit: two for the four arithmetic operations, one
/// otherwise.
pub open spec fn float_op_arity_spec(op: u8) -> nat {
    if (0x92 <= op <= 0x95) || (0xa0 <= op <= 0xa3) {
        2
    } else {
        1
    }
}

/// The number of operands of a float instruction.
pub fn float_op_arity(op: u8) -> (r: usize)
    ensures
        r == float_op_arity_spec(op),
{
    if (0x92 <= op && op <= 0x95) || (0xa0 <= op && op <= 0xa3) {
        2
    } else {
        1
    }
}

} // verus!
