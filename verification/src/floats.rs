//! The float instructions that need no arithmetic on floats: the
//! comparisons, `min` and `max`, the roundings to integers, and the
//! truncations to the integer types.  They are decided on the bit
//! pattern of the IEEE 754 binary formats: a sign bit, above an exponent,
//! above a fraction.
//!
//! A pattern with the exponent all ones is an infinity where its
//! fraction is zero, and a NaN otherwise.  Any other pattern stands for
//! the number `(-1)^sign * 2^(exponent - bias) * (1 + fraction / 2^f)`,
//! where `f` is the number of fraction bits; with the exponent zero it
//! stands for `(-1)^sign * 2^(1 - bias) * fraction / 2^f`.

use vstd::prelude::*;
use vstd::arithmetic::div_mod::{
    lemma_div_is_ordered,
    lemma_fundamental_div_mod,
    lemma_fundamental_div_mod_converse,
    lemma_mod_pos_bound,
};
use vstd::arithmetic::power2::{
    pow2,
    lemma_pow2_unfold,
    lemma_pow2_strictly_increases,
    lemma2_to64,
    lemma2_to64_rest,
    lemma_pow2_adds,
    lemma_pow2_pos,
};
use vstd::bits::{lemma_u64_shl_is_mul, lemma_u64_shr_is_div};
use crate::error::{Error, INTEGER_OVERFLOW, INVALID_CONV_TO_INT};

verus! {

/// The weight of the sign bit: `2^31` for `f32`, and `2^63` for `f64`,
/// which is `wide`.
pub open spec fn sign_unit(wide: bool) -> u64 {
    if wide {
        0x8000_0000_0000_0000
    } else {
        0x8000_0000
    }
}

/// The weight of the lowest exponent bit: `2^23` or `2^52`.
pub open spec fn frac_unit(wide: bool) -> u64 {
    if wide {
        0x10_0000_0000_0000
    } else {
        0x80_0000
    }
}

/// The number of fraction bits.
pub open spec fn frac_bits(wide: bool) -> nat {
    if wide {
        52
    } else {
        23
    }
}

/// The exponent bias.
pub open spec fn bias(wide: bool) -> u64 {
    if wide {
        1023
    } else {
        127
    }
}

/// The magnitude of the infinities.
pub open spec fn infinity(wide: bool) -> u64 {
    if wide {
        0x7ff0_0000_0000_0000
    } else {
        0x7f80_0000
    }
}

/// The bit pattern of the float in the payload `v`: all of it for `f64`,
/// its low half for `f32`.
pub open spec fn pattern(wide: bool, v: u64) -> u64 {
    if wide {
        v
    } else {
        (v % 0x1_0000_0000) as u64
    }
}

/// The pattern without its sign bit.
pub open spec fn magnitude(wide: bool, v: u64) -> u64 {
    (pattern(wide, v) % sign_unit(wide)) as u64
}

/// Whether the sign bit is set.
pub open spec fn negative(wide: bool, v: u64) -> bool {
    pattern(wide, v) >= sign_unit(wide)
}

/// The exponent field.
pub open spec fn exponent(wide: bool, v: u64) -> u64 {
    (magnitude(wide, v) / frac_unit(wide)) as u64
}

/// The fraction field.
pub open spec fn fraction(wide: bool, v: u64) -> u64 {
    (magnitude(wide, v) % frac_unit(wide)) as u64
}

/// Whether the float is a NaN.
pub open spec fn is_nan(wide: bool, v: u64) -> bool {
    magnitude(wide, v) > infinity(wide)
}

/// Whether the float is an infinity.
pub open spec fn is_infinite(wide: bool, v: u64) -> bool {
    magnitude(wide, v) == infinity(wide)
}

/// The place of a float that is no NaN in the order of the floats: the
/// magnitude of the pattern, negated where the sign is set.  The two
/// zeros have the same place.
pub open spec fn place(wide: bool, v: u64) -> int {
    if negative(wide, v) {
        -(magnitude(wide, v) as int)
    } else {
        magnitude(wide, v) as int
    }
}

/// The parts of a payload as the instructions read them.
struct Parts {
    pattern: u64,
    magnitude: u64,
    negative: bool,
}

/// Takes a payload apart.
fn parts(wide: bool, v: u64) -> (p: Parts)
    ensures
        p.pattern == pattern(wide, v),
        p.magnitude == magnitude(wide, v),
        p.negative == negative(wide, v),
{
    if wide {
        Parts { pattern: v, magnitude: v % 0x8000_0000_0000_0000, negative: v >= 0x8000_0000_0000_0000 }
    } else {
        let low: u64 = v % 0x1_0000_0000;
        Parts { pattern: low, magnitude: low % 0x8000_0000, negative: low >= 0x8000_0000 }
    }
}

/// The magnitude of the infinities.
fn infinity_of(wide: bool) -> (r: u64)
    ensures
        r == infinity(wide),
{
    if wide {
        0x7ff0_0000_0000_0000
    } else {
        0x7f80_0000
    }
}

/// Whether `op` is a float comparison: `eq`, `ne`, `lt`, `gt`, `le`,
/// `ge`, of `f32` from `0x5b` and of `f64` from `0x61`.
pub open spec fn is_comparison(op: u8) -> bool {
    0x5b <= op <= 0x66
}

/// What a float comparison gives for the payloads `a` and `b`.  A NaN is
/// unequal to everything and neither below nor above anything; the
/// other floats compare as their places in the order.
pub open spec fn compare_spec(op: u8, a: u64, b: u64) -> bool {
    let wide = op >= 0x61;
    let kind = (op - 0x5b) % 6;
    let unordered = is_nan(wide, a) || is_nan(wide, b);
    let x = place(wide, a);
    let y = place(wide, b);
    if kind == 0 {
        !unordered && x == y
    } else if kind == 1 {
        unordered || x != y
    } else if kind == 2 {
        !unordered && x < y
    } else if kind == 3 {
        !unordered && x > y
    } else if kind == 4 {
        !unordered && x <= y
    } else {
        !unordered && x >= y
    }
}

/// Whether the float `a` is below the float `b`, neither being a NaN.
fn below(a: &Parts, b: &Parts) -> (r: bool)
    ensures
        r == ((if a.negative {
            -(a.magnitude as int)
        } else {
            a.magnitude as int
        }) < (if b.negative {
            -(b.magnitude as int)
        } else {
            b.magnitude as int
        })),
{
    if a.negative {
        if b.negative {
            a.magnitude > b.magnitude
        } else {
            a.magnitude > 0 || b.magnitude > 0
        }
    } else {
        if b.negative {
            false
        } else {
            a.magnitude < b.magnitude
        }
    }
}

/// Evaluates a float comparison; see [`compare_spec`].
pub fn compare(op: u8, a: u64, b: u64) -> (r: bool)
    requires
        is_comparison(op),
    ensures
        r == compare_spec(op, a, b),
{
    let wide: bool = op >= 0x61;
    let kind: u8 = (op - 0x5b) % 6;
    let x: Parts = parts(wide, a);
    let y: Parts = parts(wide, b);
    let inf: u64 = infinity_of(wide);
    let unordered: bool = x.magnitude > inf || y.magnitude > inf;
    if unordered {
        kind == 1
    } else {
        let lt: bool = below(&x, &y);
        let gt: bool = below(&y, &x);
        if kind == 0 {
            !lt && !gt
        } else if kind == 1 {
            lt || gt
        } else if kind == 2 {
            lt
        } else if kind == 3 {
            gt
        } else if kind == 4 {
            !gt
        } else {
            !lt
        }
    }
}

/// Whether `op` is `min` or `max` of `f32` or of `f64`.
pub open spec fn is_min_max(op: u8) -> bool {
    op == 0x96 || op == 0x97 || op == 0xa4 || op == 0xa5
}

/// What `min` and `max` give for the payloads `a` and `b`: the first
/// operand that is a NaN, if one is; of the two zeros the negative one
/// for `min` and the positive one for `max`; otherwise the operand that
/// is below, or above, the other.
pub open spec fn min_max_spec(op: u8, a: u64, b: u64) -> u64 {
    let wide = op >= 0xa4;
    let min = op == 0x96 || op == 0xa4;
    let x = place(wide, a);
    let y = place(wide, b);
    if is_nan(wide, a) {
        pattern(wide, a)
    } else if is_nan(wide, b) {
        pattern(wide, b)
    } else if x == y {
        if negative(wide, a) == min {
            pattern(wide, a)
        } else {
            pattern(wide, b)
        }
    } else if (x < y) == min {
        pattern(wide, a)
    } else {
        pattern(wide, b)
    }
}

/// Evaluates `min` or `max`; see [`min_max_spec`].
pub fn min_max(op: u8, a: u64, b: u64) -> (r: u64)
    requires
        is_min_max(op),
    ensures
        r == min_max_spec(op, a, b),
{
    let wide: bool = op >= 0xa4;
    let min: bool = op == 0x96 || op == 0xa4;
    let x: Parts = parts(wide, a);
    let y: Parts = parts(wide, b);
    let inf: u64 = infinity_of(wide);
    if x.magnitude > inf {
        x.pattern
    } else if y.magnitude > inf {
        y.pattern
    } else {
        let lt: bool = below(&x, &y);
        let gt: bool = below(&y, &x);
        if !lt && !gt {
            if x.negative == min {
                x.pattern
            } else {
                y.pattern
            }
        } else if lt == min {
            x.pattern
        } else {
            y.pattern
        }
    }
}

/// The whole part of the absolute value of a float that is neither a
/// NaN nor an infinity: the absolute value, rounded towards zero.
///
/// Below one it is zero.  From one on, the float is `s * 2^(e - f)` for
/// the significand `s`, which is the fraction with the bit `2^f` above
/// it, and the exponent `e` without its bias.
pub open spec fn whole(wide: bool, v: u64) -> nat {
    let f = frac_bits(wide);
    let s: nat = (frac_unit(wide) + fraction(wide, v)) as nat;
    if exponent(wide, v) < bias(wide) {
        0
    } else {
        let e: nat = (exponent(wide, v) - bias(wide)) as nat;
        if e >= f {
            s * pow2((e - f) as nat)
        } else {
            s / pow2((f - e) as nat)
        }
    }
}

/// Whether `op` is a truncation of a float to an integer:
/// `i32.trunc_f32_s` (`0xa8`), `i32.trunc_f32_u`, `i32.trunc_f64_s`,
/// `i32.trunc_f64_u`, and the same to `i64` from `0xae`.
pub open spec fn is_truncation(op: u8) -> bool {
    (0xa8 <= op <= 0xab) || (0xae <= op <= 0xb1)
}

/// Whether the truncation `op` reads an `f64`.
pub open spec fn reads_wide(op: u8) -> bool {
    op == 0xaa || op == 0xab || op == 0xb0 || op == 0xb1
}

/// The least integer of the type that the truncation `op` gives.
pub open spec fn least(op: u8) -> int {
    if op % 2 == 1 {
        0
    } else if op >= 0xae {
        -0x8000_0000_0000_0000
    } else {
        -0x8000_0000
    }
}

/// The greatest integer of the type that the truncation `op` gives.
pub open spec fn greatest(op: u8) -> int {
    if op >= 0xae {
        if op % 2 == 1 {
            0xffff_ffff_ffff_ffff
        } else {
            0x7fff_ffff_ffff_ffff
        }
    } else {
        if op % 2 == 1 {
            0xffff_ffff
        } else {
            0x7fff_ffff
        }
    }
}

/// The payload of the integer `n`, which lies between `least(op)` and
/// `greatest(op)`: its two's complement in 32 or in 64 bits.
pub open spec fn payload_of(op: u8, n: int) -> u64 {
    if n >= 0 {
        n as u64
    } else if op >= 0xae {
        (n + 0x1_0000_0000_0000_0000) as u64
    } else {
        (n + 0x1_0000_0000) as u64
    }
}

/// What a truncation gives for the payload `v`: the float rounded
/// towards zero, where that is an integer of the type; a trap for a NaN,
/// and a trap for an infinity and for every other float whose whole part
/// is no integer of the type.
pub open spec fn truncate_spec(op: u8, v: u64) -> Result<u64, Error> {
    let wide = reads_wide(op);
    let n: int = if negative(wide, v) {
        -(whole(wide, v) as int)
    } else {
        whole(wide, v) as int
    };
    if is_nan(wide, v) {
        Err(Error::Trap(INVALID_CONV_TO_INT))
    } else if is_infinite(wide, v) || n < least(op) || n > greatest(op) {
        Err(Error::Trap(INTEGER_OVERFLOW))
    } else {
        Ok(payload_of(op, n))
    }
}

/// A float with an exponent of `2^64` or more has a whole part of `2^64`
/// or more.
proof fn lemma_whole_is_large(wide: bool, v: u64)
    requires
        exponent(wide, v) >= bias(wide) + 64,
    ensures
        whole(wide, v) >= 0x1_0000_0000_0000_0000,
{
    let f = frac_bits(wide);
    let s: nat = (frac_unit(wide) + fraction(wide, v)) as nat;
    let e: nat = (exponent(wide, v) - bias(wide)) as nat;
    let k: nat = (e - f) as nat;
    lemma2_to64();
    lemma2_to64_rest();
    lemma_pow2_adds(f, k);
    if e > 64 {
        lemma_pow2_strictly_increases(64, e);
    }
    assert(pow2(f) == frac_unit(wide));
    assert(s * pow2(k) >= pow2(f) * pow2(k)) by (nonlinear_arith)
        requires
            s >= pow2(f),
    ;
}

/// The significand `s` times `2^k`, which must be below `2^64`.
fn scale(s: u64, k: u32, Ghost(f): Ghost<nat>) -> (r: u64)
    requires
        s < pow2(f + 1),
        f + 1 + k <= 64,
    ensures
        r == s * pow2(k as nat),
{
    let mut r: u64 = s;
    let mut i: u32 = 0;
    proof {
        lemma2_to64();
    }
    while i < k
        invariant
            i <= k,
            f + 1 + k <= 64,
            r == s * pow2(i as nat),
            r < pow2(f + 1 + i as nat),
        decreases k - i,
    {
        proof {
            lemma_pow2_unfold((i + 1) as nat);
            lemma_pow2_unfold(f + 1 + (i + 1) as nat);
            if f + 1 + i < 63 {
                lemma_pow2_strictly_increases(f + 1 + i as nat, 63);
            }
            lemma2_to64_rest();
            assert(s * (2 * pow2(i as nat)) == 2 * (s * pow2(i as nat))) by (nonlinear_arith);
        }
        r = r * 2;
        i = i + 1;
    }
    r
}

/// The whole part of a float whose exponent is below `2^64`; see
/// [`whole`].
fn whole_part(wide: bool, magnitude: u64) -> (r: u64)
    requires
        magnitude < sign_unit(wide),
        magnitude / frac_unit(wide) < bias(wide) + 64,
    ensures
        r == (if magnitude / frac_unit(wide) < bias(wide) {
            0nat
        } else if magnitude / frac_unit(wide) - bias(wide) >= frac_bits(wide) {
            (frac_unit(wide) + magnitude % frac_unit(wide)) as nat * pow2(
                (magnitude / frac_unit(wide) - bias(wide) - frac_bits(wide)) as nat,
            )
        } else {
            (frac_unit(wide) + magnitude % frac_unit(wide)) as nat / pow2(
                (frac_bits(wide) - (magnitude / frac_unit(wide) - bias(wide))) as nat,
            )
        }),
{
    let unit: u64 = if wide { 0x10_0000_0000_0000 } else { 0x80_0000 };
    let f: u32 = if wide { 52 } else { 23 };
    let b: u64 = if wide { 1023 } else { 127 };
    let exp: u64 = magnitude / unit;
    let s: u64 = unit + magnitude % unit;
    if exp < b {
        0
    } else {
        let e: u32 = (exp - b) as u32;
        proof {
            lemma2_to64();
            lemma2_to64_rest();
        }
        if e >= f {
            scale(s, e - f, Ghost(f as nat))
        } else {
            proof {
                lemma_u64_shr_is_div(s, (f - e) as u64);
            }
            s >> (f - e)
        }
    }
}

/// Evaluates a truncation; see [`truncate_spec`].
pub fn truncate(op: u8, v: u64) -> (r: Result<u64, Error>)
    requires
        is_truncation(op),
    ensures
        r == truncate_spec(op, v),
{
    let wide: bool = op == 0xaa || op == 0xab || op == 0xb0 || op == 0xb1;
    let x: Parts = parts(wide, v);
    let inf: u64 = infinity_of(wide);
    if x.magnitude > inf {
        return Err(Error::Trap(INVALID_CONV_TO_INT));
    }
    if x.magnitude == inf {
        return Err(Error::Trap(INTEGER_OVERFLOW));
    }
    let unit: u64 = if wide { 0x10_0000_0000_0000 } else { 0x80_0000 };
    let b: u64 = if wide { 1023 } else { 127 };
    if x.magnitude / unit >= b + 64 {
        proof {
            lemma_whole_is_large(wide, v);
        }
        return Err(Error::Trap(INTEGER_OVERFLOW));
    }
    let n: u64 = whole_part(wide, x.magnitude);
    let unsigned: bool = op % 2 == 1;
    let long: bool = op >= 0xae;
    if x.negative {
        if unsigned {
            if n == 0 {
                Ok(0)
            } else {
                Err(Error::Trap(INTEGER_OVERFLOW))
            }
        } else if long {
            if n > 0x8000_0000_0000_0000 {
                Err(Error::Trap(INTEGER_OVERFLOW))
            } else if n == 0 {
                Ok(0)
            } else {
                Ok(0xffff_ffff_ffff_ffff - n + 1)
            }
        } else {
            if n > 0x8000_0000 {
                Err(Error::Trap(INTEGER_OVERFLOW))
            } else if n == 0 {
                Ok(0)
            } else {
                Ok(0x1_0000_0000 - n)
            }
        }
    } else {
        let top: u64 = if long {
            if unsigned { 0xffff_ffff_ffff_ffff } else { 0x7fff_ffff_ffff_ffff }
        } else {
            if unsigned { 0xffff_ffff } else { 0x7fff_ffff }
        };
        if n > top {
            Err(Error::Trap(INTEGER_OVERFLOW))
        } else {
            Ok(n)
        }
    }
}

/// Whether `op` rounds a float to an integer that is a float again:
/// `ceil`, `floor`, `trunc` and `nearest`, of `f32` from `0x8d` and of
/// `f64` from `0x9b`.
pub open spec fn is_rounding(op: u8) -> bool {
    (0x8d <= op <= 0x90) || (0x9b <= op <= 0x9e)
}

/// The direction of a rounding: `0` for `ceil`, `1` for `floor`, `2` for
/// `trunc`, and `3` for `nearest`.
pub open spec fn direction(op: u8) -> int {
    if op >= 0x9b {
        op - 0x9b
    } else {
        op - 0x8d
    }
}

/// Whether a float with digits behind the point is rounded away from
/// zero: `ceil` rounds the positive floats so and `floor` the negative
/// ones, where the digits are not all zero; `nearest` rounds so where
/// the digits are more than a half, which is where `twice` is more than
/// `step`, and where they are just a half and the integer towards zero
/// is `odd`.
pub open spec fn rounds_away(dir: int, negative: bool, twice: int, step: int, odd: bool) -> bool {
    if dir == 0 {
        !negative && twice != 0
    } else if dir == 1 {
        negative && twice != 0
    } else if dir == 2 {
        false
    } else {
        twice > step || (twice == step && odd)
    }
}

/// What a rounding gives for the payload `v`: the nearest integer in its
/// direction, with the sign of the float.  An infinity and a float
/// without digits behind the point stay as they are.  So does a NaN
/// under `nearest`; the other roundings make it quiet, which is to set
/// the highest bit of its fraction.
///
/// A float from one on, with the exponent `e` below the number `f` of
/// fraction bits, has `k = f - e` digits behind the point, which are the
/// magnitude modulo `2^k`.  Without them the magnitude is that of the
/// float rounded towards zero, and `2^k` more is the magnitude of the
/// next integer away from zero.  A float below one lies between zero
/// and one, which has the magnitude `bias * 2^f`; it is more than a half
/// where its magnitude is more than that of a half, `(bias - 1) * 2^f`,
/// because the floats are ordered as their magnitudes.
pub open spec fn rounding_spec(op: u8, v: u64) -> u64 {
    let wide = op >= 0x9b;
    let dir = direction(op);
    let mag = magnitude(wide, v);
    let sign = pattern(wide, v) - mag;
    let exp = exponent(wide, v);
    let one = bias(wide) * frac_unit(wide);
    let half = (bias(wide) - 1) * frac_unit(wide);
    if is_nan(wide, v) {
        if dir == 3 || fraction(wide, v) >= frac_unit(wide) / 2 {
            pattern(wide, v)
        } else {
            (pattern(wide, v) + frac_unit(wide) / 2) as u64
        }
    } else if exp >= bias(wide) + frac_bits(wide) {
        pattern(wide, v)
    } else if exp < bias(wide) {
        if rounds_away(dir, negative(wide, v), mag as int, half as int, false) {
            (sign + one) as u64
        } else {
            sign as u64
        }
    } else {
        let step = pow2((frac_bits(wide) - (exp - bias(wide))) as nat);
        let behind = mag as nat % step;
        let towards_zero = mag - behind;
        if rounds_away(
            dir,
            negative(wide, v),
            2 * behind as int,
            step as int,
            (towards_zero / step as int) % 2 == 1,
        ) {
            (sign + towards_zero + step) as u64
        } else {
            (sign + towards_zero) as u64
        }
    }
}

/// Decides a rounding; see [`rounds_away`].
fn away(dir: u8, negative: bool, twice: u64, step: u64, odd: bool) -> (r: bool)
    ensures
        r == rounds_away(dir as int, negative, twice as int, step as int, odd),
{
    if dir == 0 {
        !negative && twice != 0
    } else if dir == 1 {
        negative && twice != 0
    } else if dir == 2 {
        false
    } else {
        twice > step || (twice == step && odd)
    }
}

/// Evaluates a rounding; see [`rounding_spec`].
pub fn round(op: u8, v: u64) -> (r: u64)
    requires
        is_rounding(op),
    ensures
        r == rounding_spec(op, v),
{
    let wide: bool = op >= 0x9b;
    let dir: u8 = if wide { op - 0x9b } else { op - 0x8d };
    let x: Parts = parts(wide, v);
    let unit: u64 = if wide { 0x10_0000_0000_0000 } else { 0x80_0000 };
    let f: u64 = if wide { 52 } else { 23 };
    let b: u64 = if wide { 1023 } else { 127 };
    let exp: u64 = x.magnitude / unit;
    let sign: u64 = x.pattern - x.magnitude;
    if x.magnitude > infinity_of(wide) {
        if dir == 3 || x.magnitude % unit >= unit / 2 {
            x.pattern
        } else {
            x.pattern + unit / 2
        }
    } else if exp >= b + f {
        x.pattern
    } else if exp < b {
        if away(dir, x.negative, x.magnitude, (b - 1) * unit, false) {
            sign + b * unit
        } else {
            sign
        }
    } else {
        let k: u64 = f - (exp - b);
        proof {
            lemma2_to64();
            lemma2_to64_rest();
            if k < 52 {
                lemma_pow2_strictly_increases(k as nat, 52);
            }
            lemma_u64_shl_is_mul(1, k);
        }
        let step: u64 = 1u64 << k;
        let behind: u64 = x.magnitude % step;
        let towards_zero: u64 = x.magnitude - behind;
        if away(dir, x.negative, 2 * behind, step, (towards_zero / step) % 2 == 1) {
            sign + towards_zero + step
        } else {
            sign + towards_zero
        }
    }
}

/// The digits behind the point of a float from one on whose exponent
/// is below the number of fraction bits, as a number of units of
/// `2^-k`, where `k` is the number of those digits.
pub open spec fn digits_behind(wide: bool, v: u64) -> nat {
    magnitude(wide, v) as nat % pow2((frac_bits(wide) - (exponent(wide, v) - bias(wide))) as nat)
}

/// A magnitude `exp * unit + fr`, where `unit` is `scale` steps, taken
/// apart into steps: the digits behind the point are `fr` modulo a
/// step, and the significand `unit + fr` is a whole number `q` of steps
/// and those digits.
proof fn lemma_steps(unit: int, step: int, scale: int, exp: int, fr: int)
    requires
        step >= 1,
        scale >= 1,
        unit == step * scale,
        0 <= fr < unit,
        exp >= 0,
    ensures
        ({
            let behind = (exp * unit + fr) % step;
            let q = (unit + fr) / step;
            &&& 0 <= behind < step
            &&& (unit + fr) % step == behind
            &&& scale <= q < 2 * scale
            &&& fr - behind == (q - scale) * step
        }),
{
    let q0 = fr / step;
    let r0 = fr % step;
    lemma_fundamental_div_mod(fr, step);
    lemma_mod_pos_bound(fr, step);
    assert(0 <= q0 < scale) by (nonlinear_arith)
        requires
            fr == step * q0 + r0,
            0 <= r0 < step,
            0 <= fr < step * scale,
            step >= 1,
    ;
    assert(exp * unit + fr == (exp * scale + q0) * step + r0) by (nonlinear_arith)
        requires
            unit == step * scale,
            fr == step * q0 + r0,
    ;
    lemma_fundamental_div_mod_converse(
        exp * unit + fr,
        step,
        exp * scale + q0,
        r0,
    );
    assert(unit + fr == (scale + q0) * step + r0) by (nonlinear_arith)
        requires
            unit == step * scale,
            fr == step * q0 + r0,
    ;
    lemma_fundamental_div_mod_converse(unit + fr, step, scale + q0, r0);
    assert(fr - r0 == (scale + q0 - scale) * step) by (nonlinear_arith)
        requires
            fr == step * q0 + r0,
    ;
}

/// The magnitude with the fraction `(q - scale) * step` has the whole
/// number `q` of steps as its significand and no digits behind the
/// point.
proof fn lemma_whole_steps(unit: int, step: int, scale: int, exp: int, q: int)
    requires
        step >= 1,
        unit == step * scale,
        scale <= q < 2 * scale,
        exp >= 0,
    ensures
        0 <= (q - scale) * step < unit,
        (unit + (q - scale) * step) / step == q,
        (exp * unit + (q - scale) * step) % step == 0,
{
    let fl = (q - scale) * step;
    assert(0 <= fl < unit) by (nonlinear_arith)
        requires
            fl == (q - scale) * step,
            unit == step * scale,
            scale <= q < 2 * scale,
            step >= 1,
    ;
    assert(unit + fl == q * step + 0) by (nonlinear_arith)
        requires
            fl == (q - scale) * step,
            unit == step * scale,
    ;
    lemma_fundamental_div_mod_converse(unit + fl, step, q, 0);
    assert(exp * unit + fl == (exp * scale + q - scale) * step + 0) by (nonlinear_arith)
        requires
            fl == (q - scale) * step,
            unit == step * scale,
    ;
    lemma_fundamental_div_mod_converse(
        exp * unit + fl,
        step,
        exp * scale + q - scale,
        0,
    );
}

/// A unit is a whole number of half steps, and so is every multiple of
/// it.
proof fn lemma_half_steps(unit: int, half: int, scale: int, n: int)
    requires
        half >= 1,
        unit == (2 * half) * scale,
        n >= 0,
    ensures
        unit / half == 2 * scale,
        (n * unit) % half == 0,
{
    assert(unit == (2 * scale) * half + 0) by (nonlinear_arith)
        requires
            unit == (2 * half) * scale,
    ;
    lemma_fundamental_div_mod_converse(unit, half, 2 * scale, 0);
    assert(n * unit == (n * (2 * scale)) * half + 0) by (nonlinear_arith)
        requires
            unit == (2 * half) * scale,
    ;
    lemma_fundamental_div_mod_converse(n * unit, half, n * (2 * scale), 0);
}

/// The fields of the pattern that is put together from a sign bit, an
/// exponent and a fraction.
proof fn lemma_fields(wide: bool, r: u64, sign: int, exp: int, fr: int)
    requires
        sign == 0 || sign == sign_unit(wide),
        0 <= fr < frac_unit(wide),
        0 <= exp <= bias(wide) + frac_bits(wide),
        r == sign + exp * frac_unit(wide) + fr,
    ensures
        pattern(wide, r) == r,
        negative(wide, r) == (sign != 0),
        magnitude(wide, r) == exp * frac_unit(wide) + fr,
        exponent(wide, r) == exp,
        fraction(wide, r) == fr,
{
    let unit = frac_unit(wide) as int;
    let mag = exp * unit + fr;
    assert(0 <= mag < sign_unit(wide)) by (nonlinear_arith)
        requires
            mag == exp * unit + fr,
            0 <= fr < unit,
            0 <= exp <= bias(wide) + frac_bits(wide),
            unit == frac_unit(wide),
            (bias(wide) + frac_bits(wide) + 1) * frac_unit(wide) <= sign_unit(wide),
    ;
    lemma_fundamental_div_mod_converse(mag, unit, exp, fr);
}

/// Whether `r` is an integer of the magnitude `n`, seen as a float of
/// the format, with the sign bit `sign`: it has no digits behind the
/// point, and its whole part is `n`.
pub open spec fn is_whole(wide: bool, r: u64, sign: bool, n: nat) -> bool {
    &&& pattern(wide, r) == r
    &&& negative(wide, r) == sign
    &&& bias(wide) <= exponent(wide, r) <= bias(wide) + frac_bits(wide)
    &&& exponent(wide, r) < bias(wide) + frac_bits(wide) ==> digits_behind(wide, r) == 0
    &&& whole(wide, r) == n
}

/// The steps of a float from one on with digits behind the point: a
/// unit of the exponent is `2^e` steps of `2^k`, where `e` is the
/// exponent without its bias and `k` the number of digits behind the
/// point.
proof fn lemma_unit_in_steps(wide: bool, e: nat)
    requires
        e < frac_bits(wide),
    ensures
        frac_unit(wide) == pow2((frac_bits(wide) - e) as nat) * pow2(e),
        pow2((frac_bits(wide) - e) as nat) == 2 * pow2((frac_bits(wide) - e - 1) as nat),
        pow2((frac_bits(wide) - e - 1) as nat) >= 1,
        pow2(e) >= 1,
        pow2(0) == 1,
{
    let k: nat = (frac_bits(wide) - e) as nat;
    lemma2_to64();
    lemma2_to64_rest();
    lemma_pow2_adds(k, e);
    lemma_pow2_pos((k - 1) as nat);
    lemma_pow2_pos(e);
    lemma_pow2_unfold(k);
}

/// The float with the exponent field `exp` and the fraction
/// `(q - scale) * step` is the integer `q`.
proof fn lemma_lands(wide: bool, r: u64, sign: int, exp: nat, q: int)
    requires
        bias(wide) <= exp < bias(wide) + frac_bits(wide),
        sign == 0 || sign == sign_unit(wide),
        pow2((exp - bias(wide)) as nat) <= q < 2 * pow2((exp - bias(wide)) as nat),
        r == sign + exp * frac_unit(wide) + (q - pow2((exp - bias(wide)) as nat)) * pow2(
            (frac_bits(wide) - (exp - bias(wide))) as nat,
        ),
    ensures
        is_whole(wide, r, sign != 0, q as nat),
{
    let e: nat = (exp - bias(wide)) as nat;
    let step = pow2((frac_bits(wide) - e) as nat) as int;
    let scale = pow2(e) as int;
    let unit = frac_unit(wide) as int;
    lemma_unit_in_steps(wide, e);
    lemma_whole_steps(unit, step, scale, exp as int, q);
    lemma_fields(wide, r, sign, exp as int, (q - scale) * step);
}

/// The float with the exponent field `exp + 1` and the fraction zero is
/// the integer `2^(e + 1)`, where `e` is `exp` without the bias.
proof fn lemma_lands_on_power(wide: bool, r: u64, sign: int, exp: nat)
    requires
        bias(wide) <= exp < bias(wide) + frac_bits(wide),
        sign == 0 || sign == sign_unit(wide),
        r == sign + (exp + 1) * frac_unit(wide),
    ensures
        is_whole(wide, r, sign != 0, 2 * pow2((exp - bias(wide)) as nat)),
{
    let e: nat = (exp - bias(wide)) as nat;
    let scale = pow2(e) as int;
    let unit = frac_unit(wide) as int;
    let half = pow2((frac_bits(wide) - e - 1) as nat) as int;
    lemma_unit_in_steps(wide, e);
    lemma_fields(wide, r, sign, exp as int + 1, 0);
    assert(unit == (2 * half) * scale);
    lemma_half_steps(unit, half, scale, exp as int + 1);
    if e + 1 >= frac_bits(wide) {
        assert(half == 1);
        assert(unit * 1 == 2 * scale) by (nonlinear_arith)
            requires
                unit == (2 * half) * scale,
                half == 1,
        ;
    }
}

/// A rounding of a float from one on gives an integer: the float that
/// comes out has the sign of the float that goes in and no digits
/// behind the point, and its whole part is that of the float that goes
/// in, or one more where the float is rounded away from zero.
pub proof fn lemma_rounding_is_whole(op: u8, v: u64)
    requires
        is_rounding(op),
        bias(op >= 0x9b) <= exponent(op >= 0x9b, v) < bias(op >= 0x9b) + frac_bits(op >= 0x9b),
    ensures
        ({
            let wide = op >= 0x9b;
            let step = pow2((frac_bits(wide) - (exponent(wide, v) - bias(wide))) as nat);
            let away = rounds_away(
                direction(op),
                negative(wide, v),
                2 * digits_behind(wide, v) as int,
                step as int,
                whole(wide, v) % 2 == 1,
            );
            is_whole(
                wide,
                rounding_spec(op, v),
                negative(wide, v),
                whole(wide, v) + if away { 1nat } else { 0nat },
            )
        }),
{
    let wide = op >= 0x9b;
    let unit = frac_unit(wide) as int;
    let mag = magnitude(wide, v) as int;
    let exp = exponent(wide, v) as nat;
    let fr = fraction(wide, v) as int;
    let e: nat = (exp - bias(wide)) as nat;
    let step = pow2((frac_bits(wide) - e) as nat) as int;
    let scale = pow2(e) as int;
    let sign = pattern(wide, v) - magnitude(wide, v);
    let r = rounding_spec(op, v);
    lemma_unit_in_steps(wide, e);
    lemma_fundamental_div_mod(mag, unit);
    assert(mag == exp * unit + fr) by (nonlinear_arith)
        requires
            mag == unit * (mag / unit) + fr,
            exp == mag / unit,
    ;
    lemma_steps(unit, step, scale, exp as int, fr);
    assert(step <= unit) by (nonlinear_arith)
        requires
            unit == step * scale,
            scale >= 1,
            step >= 1,
    ;
    let behind = mag % step;
    let q = (unit + fr) / step;
    assert(whole(wide, v) == q);
    assert(digits_behind(wide, v) == behind);
    assert(mag - behind == exp * unit + (q - scale) * step);
    // whether the integer towards zero is odd is read off the magnitude
    assert(((mag - behind) / step) % 2 == q % 2) by {
        assert(mag - behind == (exp * scale + (q - scale)) * step + 0) by (nonlinear_arith)
            requires
                mag - behind == exp * unit + (q - scale) * step,
                unit == step * scale,
        ;
        lemma_fundamental_div_mod_converse(
            mag - behind,
            step,
            exp * scale + (q - scale),
            0,
        );
        lemma_parity(exp as int, scale, q, e);
    }
    let odd = ((mag - behind) / step) % 2 == 1;
    let away = rounds_away(direction(op), negative(wide, v), 2 * behind, step, odd);
    assert(odd == (whole(wide, v) % 2 == 1));
    assert(!is_nan(wide, v)) by (nonlinear_arith)
        requires
            mag == exp * unit + fr,
            0 <= fr < unit,
            exp < bias(wide) + frac_bits(wide),
            unit == frac_unit(wide),
            (bias(wide) + frac_bits(wide)) * frac_unit(wide) <= infinity(wide),
            mag == magnitude(wide, v),
    ;
    assert(0 <= mag - behind + step < sign_unit(wide)) by (nonlinear_arith)
        requires
            mag == exp * unit + fr,
            0 <= fr < unit,
            0 <= behind < step,
            step <= unit,
            exp < bias(wide) + frac_bits(wide),
            unit == frac_unit(wide),
            (bias(wide) + frac_bits(wide) + 2) * frac_unit(wide) <= sign_unit(wide),
    ;
    assert(r == if away {
        sign + (mag - behind) + step
    } else {
        sign + (mag - behind)
    });
    if !away {
        lemma_lands(wide, r, sign, exp, q);
    } else if q + 1 < 2 * scale {
        assert(mag - behind + step == exp * unit + (q + 1 - scale) * step) by (nonlinear_arith)
            requires
                mag - behind == exp * unit + (q - scale) * step,
        ;
        lemma_lands(wide, r, sign, exp, q + 1);
    } else {
        assert(mag - behind + step == (exp + 1) * unit) by (nonlinear_arith)
            requires
                mag - behind == exp * unit + (q - scale) * step,
                q + 1 == 2 * scale,
                unit == step * scale,
        ;
        lemma_lands_on_power(wide, r, sign, exp);
    }
}

/// The number of steps in the magnitude of a float towards zero is odd
/// where its whole part is: the steps of the exponent are an even
/// number, but for the floats from one to two, whose exponent field is
/// the bias, which is odd as their whole part is.
proof fn lemma_parity(exp: int, scale: int, q: int, e: nat)
    requires
        scale == pow2(e),
        exp == 127 + e || exp == 1023 + e,
        scale <= q < 2 * scale,
    ensures
        (exp * scale + (q - scale)) % 2 == q % 2,
{
    if e == 0 {
        lemma2_to64();
        assert(scale == 1);
    } else {
        lemma_pow2_unfold(e);
        let h = pow2((e - 1) as nat) as int;
        assert(exp * scale + (q - scale) == q + 2 * ((exp - 1) * h)) by (nonlinear_arith)
            requires
                scale == 2 * h,
        ;
    }
}

/// The whole part of a float from one on lies between the power of two
/// of its exponent and the next one.
pub proof fn lemma_whole_bounds(wide: bool, v: u64)
    requires
        bias(wide) <= exponent(wide, v),
    ensures
        pow2((exponent(wide, v) - bias(wide)) as nat) <= whole(wide, v) < 2 * pow2(
            (exponent(wide, v) - bias(wide)) as nat,
        ),
{
    let f = frac_bits(wide);
    let unit = frac_unit(wide) as int;
    let fr = fraction(wide, v) as int;
    let e: nat = (exponent(wide, v) - bias(wide)) as nat;
    lemma2_to64();
    lemma2_to64_rest();
    if e >= f {
        let k: nat = (e - f) as nat;
        lemma_pow2_adds(f, k);
        lemma_pow2_pos(k);
        let p = pow2(k) as int;
        assert(unit * p <= (unit + fr) * p < 2 * (unit * p)) by (nonlinear_arith)
            requires
                0 <= fr < unit,
                p >= 1,
        ;
    } else {
        lemma_unit_in_steps(wide, e);
        lemma_steps(unit, pow2((f - e) as nat) as int, pow2(e) as int, 0, fr);
    }
}

/// The floats from zero on that are no NaN are ordered as their
/// magnitudes: of two of them, the one with the smaller magnitude has
/// the smaller whole part, or the same.
pub proof fn lemma_magnitudes_order(wide: bool, a: u64, b: u64)
    requires
        magnitude(wide, a) <= magnitude(wide, b),
    ensures
        whole(wide, a) <= whole(wide, b),
{
    let f = frac_bits(wide);
    let unit = frac_unit(wide) as int;
    let (x, y) = (exponent(wide, a) as int, exponent(wide, b) as int);
    let (s, t) = (unit + fraction(wide, a), unit + fraction(wide, b));
    lemma_fundamental_div_mod(magnitude(wide, a) as int, unit);
    lemma_fundamental_div_mod(magnitude(wide, b) as int, unit);
    lemma_div_is_ordered(magnitude(wide, a) as int, magnitude(wide, b) as int, unit);
    if x >= bias(wide) {
        let e: nat = (x - bias(wide)) as nat;
        if x == y {
            if e >= f {
                let p = pow2((e - f) as nat) as int;
                assert(s * p <= t * p) by (nonlinear_arith)
                    requires
                        s <= t,
                        p >= 0,
                ;
            } else {
                lemma_pow2_pos((f - e) as nat);
                lemma_div_is_ordered(s, t, pow2((f - e) as nat) as int);
            }
        } else {
            let d: nat = (y - bias(wide)) as nat;
            lemma_whole_bounds(wide, a);
            lemma_whole_bounds(wide, b);
            lemma_pow2_unfold(e + 1);
            if e + 1 < d {
                lemma_pow2_strictly_increases(e + 1, d);
            }
        }
    }
}

} // verus!
