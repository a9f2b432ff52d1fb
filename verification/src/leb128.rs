//! LEB128 readers.
//!
//! A LEB128 *group* is a run of bytes whose last byte, and only the last,
//! has its top bit clear.  Each byte carries seven payload bits, least
//! significant group first.  The checked readers enforce the canonical
//! length for a declared width and reject payload bits beyond that width;
//! the plain readers only decode.

use vstd::prelude::*;
use vstd::arithmetic::power2::{pow2, lemma2_to64, lemma2_to64_rest};
use vstd::bits::{lemma_u64_shl_is_mul, lemma_u64_pow2_no_overflow};
use crate::error::{Error, UNEXPECTED_END, INT_TOO_LONG, INT_TOO_LARGE};

verus! {

/// `128^n`.
pub open spec fn pow128(n: nat) -> nat
    decreases n,
{
    if n == 0 {
        1
    } else {
        128 * pow128((n - 1) as nat)
    }
}

/// Length in bytes of the group that starts at `pos`, or `None` when the
/// input ends before a byte with a clear top bit is found.
pub open spec fn group_len(bytes: Seq<u8>, pos: int) -> Option<nat>
    decreases bytes.len() - pos,
{
    if pos < 0 || pos >= bytes.len() {
        None
    } else if bytes[pos] < 0x80 {
        Some(1nat)
    } else {
        match group_len(bytes, pos + 1) {
            Some(n) => Some(n + 1),
            None => None,
        }
    }
}

/// The payload of the first `n` bytes from `pos`, read as a base-128
/// number with the least significant digit first.
pub open spec fn payload_sum(bytes: Seq<u8>, pos: int, n: nat) -> nat
    decreases n,
{
    if n == 0 {
        0
    } else {
        payload_sum(bytes, pos, (n - 1) as nat) + (bytes[pos + n - 1] % 128) as nat * pow128(
            (n - 1) as nat,
        )
    }
}

/// The longest canonical encoding of a `bits`-wide integer.
pub open spec fn max_group_len(bits: nat) -> nat {
    (bits + 6) / 7
}

/// What the checked unsigned reader returns at `pos`: the value and the
/// position after the group, or the error.
pub open spec fn unsigned_spec(bytes: Seq<u8>, pos: int, bits: nat) -> Result<(nat, int), Error> {
    match group_len(bytes, pos) {
        None => Err(Error::Malformed(UNEXPECTED_END)),
        Some(n) => if n > max_group_len(bits) {
            Err(Error::Malformed(INT_TOO_LONG))
        } else if payload_sum(bytes, pos, n) >= pow2(bits) {
            Err(Error::Malformed(INT_TOO_LARGE))
        } else {
            Ok((payload_sum(bytes, pos, n), pos + n))
        },
    }
}

/// The two's complement value of a complete group of `n` bytes.
pub open spec fn signed_value(bytes: Seq<u8>, pos: int, n: nat) -> int {
    if bytes[pos + n - 1] % 128 >= 64 {
        payload_sum(bytes, pos, n) - pow128(n)
    } else {
        payload_sum(bytes, pos, n) as int
    }
}

/// The 64-bit value that the plain signed reader computes from a group
/// of `n` bytes: the first nine bytes carry the low 63 bits, and the sign
/// comes from the last byte.
pub open spec fn signed_raw(bytes: Seq<u8>, pos: int, n: nat) -> int {
    let k = if n <= 9 { n } else { 9nat };
    if bytes[pos + n - 1] % 128 >= 64 {
        payload_sum(bytes, pos, k) - pow128(k)
    } else {
        payload_sum(bytes, pos, k) as int
    }
}

/// Whether `v` is a signed integer of the width `bits`, which is 32, 33
/// or 64: whether it lies between `-2^(bits - 1)` and `2^(bits - 1) - 1`.
pub open spec fn signed_in_range(v: int, bits: nat) -> bool {
    if bits == 64 {
        -0x8000_0000_0000_0000 <= v < 0x8000_0000_0000_0000
    } else if bits == 33 {
        -0x1_0000_0000 <= v < 0x1_0000_0000
    } else {
        -0x8000_0000 <= v < 0x8000_0000
    }
}

/// What the checked signed reader returns at `pos`: the value and the
/// position after the group, or the error.  A group of more than
/// `ceil(bits / 7)` bytes is too long; a shorter one whose two's
/// complement value is no signed integer of the width is too large.
pub open spec fn signed_spec(bytes: Seq<u8>, pos: int, bits: nat) -> Result<(int, int), Error> {
    match group_len(bytes, pos) {
        None => Err(Error::Malformed(UNEXPECTED_END)),
        Some(n) => if n > max_group_len(bits) {
            Err(Error::Malformed(INT_TOO_LONG))
        } else if !signed_in_range(signed_value(bytes, pos, n), bits) {
            Err(Error::Malformed(INT_TOO_LARGE))
        } else {
            Ok((signed_value(bytes, pos, n), pos + n))
        },
    }
}

/// What the plain unsigned reader returns: the payload of at most ten
/// bytes, reduced modulo `2^64`.
pub open spec fn plain_unsigned_spec(bytes: Seq<u8>, pos: int) -> Result<(nat, int), Error> {
    match group_len(bytes, pos) {
        None => Err(Error::Malformed(UNEXPECTED_END)),
        Some(n) => {
            let k = if n <= 10 { n } else { 10nat };
            Ok((payload_sum(bytes, pos, k) % 0x1_0000_0000_0000_0000, pos + n))
        },
    }
}

/// What the plain signed reader returns.
pub open spec fn plain_signed_spec(bytes: Seq<u8>, pos: int) -> Result<(int, int), Error> {
    match group_len(bytes, pos) {
        None => Err(Error::Malformed(UNEXPECTED_END)),
        Some(n) => Ok((signed_raw(bytes, pos, n), pos + n)),
    }
}

/// A payload of `n` bytes is below `128^n`.
pub proof fn lemma_payload_bound(bytes: Seq<u8>, pos: int, n: nat)
    ensures
        payload_sum(bytes, pos, n) < pow128(n),
    decreases n,
{
    if n > 0 {
        lemma_payload_bound(bytes, pos, (n - 1) as nat);
        let d = (bytes[pos + n - 1] % 128) as nat;
        let p = pow128((n - 1) as nat);
        assert(d * p <= 127 * p) by (nonlinear_arith)
            requires
                d <= 127,
                p >= 0,
        ;
    }
}

/// `128^n` for the lengths that occur.
pub proof fn lemma_pow128_values()
    ensures
        pow128(0) == 1,
        pow128(1) == 0x80,
        pow128(2) == 0x4000,
        pow128(3) == 0x20_0000,
        pow128(4) == 0x1000_0000,
        pow128(5) == 0x8_0000_0000,
        pow128(6) == 0x400_0000_0000,
        pow128(7) == 0x2_0000_0000_0000,
        pow128(8) == 0x100_0000_0000_0000,
        pow128(9) == 0x8000_0000_0000_0000,
        pow128(10) == 0x40_0000_0000_0000_0000,
{
    reveal_with_fuel(pow128, 12);
}

/// `128^n` is monotone over the lengths that occur.
pub proof fn lemma_pow128_small(n: nat)
    requires
        n <= 10,
    ensures
        1 <= pow128(n) <= 0x40_0000_0000_0000_0000,
        n <= 9 ==> pow128(n) <= 0x8000_0000_0000_0000,
        n <= 5 ==> pow128(n) <= 0x8_0000_0000,
{
    lemma_pow128_values();
    assert(n == 0 || n == 1 || n == 2 || n == 3 || n == 4 || n == 5 || n == 6 || n == 7 || n == 8
        || n == 9 || n == 10);
}

/// When every byte of `[start, end)` has its top bit set, the group at
/// `start` is the group at `end` with those bytes in front.
pub proof fn lemma_group_len_skip(bytes: Seq<u8>, start: int, end: int)
    requires
        0 <= start <= end <= bytes.len(),
        forall|k: int| start <= k < end ==> bytes[k] >= 0x80,
    ensures
        group_len(bytes, start) == (match group_len(bytes, end) {
            Some(n) => Some((n + (end - start)) as nat),
            None => None,
        }),
    decreases end - start,
{
    if start < end {
        lemma_group_len_skip(bytes, start + 1, end);
    }
}

/// Scans the group at `*pc` and gathers the payload of its first
/// `cap` bytes at most.  Returns the group's length and that payload.
fn scan_group(bytes: &[u8], pc: usize, cap: usize) -> (r: Option<(usize, u128)>)
    requires
        cap <= 10,
    ensures
        r is None <==> group_len(bytes@, pc as int) is None,
        r matches Some((n, acc)) ==> {
            &&& group_len(bytes@, pc as int) == Some(n as nat)
            &&& n >= 1
            &&& pc + n <= bytes.len()
            &&& acc == payload_sum(bytes@, pc as int, if n <= cap { n as nat } else { cap as nat })
        },
{
    let mut end: usize = pc;
    let mut acc: u128 = 0;
    let mut mult: u128 = 1;
    let mut count: usize = 0;
    proof {
        lemma_pow128_values();
    }
    loop
        invariant
            cap <= 10,
            pc <= end,
            count == end - pc,
            end <= bytes@.len() || count == 0,
            forall|k: int| pc <= k < end ==> bytes@[k] >= 0x80,
            acc == payload_sum(bytes@, pc as int, if count <= cap { count as nat } else { cap as nat }),
            mult == pow128(if count <= cap { count as nat } else { cap as nat }),
        decreases bytes@.len() - end,
    {
        if end >= bytes.len() {
            proof {
                if pc as int <= bytes@.len() {
                    lemma_group_len_skip(bytes@, pc as int, end as int);
                }
            }
            return None;
        }
        let byte: u8 = bytes[end];
        if count < cap {
            let digit: u128 = (byte % 128) as u128;
            proof {
                lemma_payload_bound(bytes@, pc as int, count as nat);
                lemma_pow128_small(count as nat);
                assert(digit * mult <= 127 * mult) by (nonlinear_arith)
                    requires
                        digit <= 127,
                        mult >= 0,
                ;
            }
            acc = acc + digit * mult;
            mult = mult * 128;
        }
        end = end + 1;
        count = count + 1;
        if byte < 0x80 {
            proof {
                lemma_group_len_skip(bytes@, pc as int, end - 1);
            }
            return Some((count, acc));
        }
    }
}

/// Reads an unsigned integer of the declared width at `*pc`.
///
/// Succeeds exactly on a complete group of at most `ceil(bits / 7)` bytes
/// whose value is below `2^bits`, and then moves `*pc` past the group.  On
/// an error `*pc` stays where it was.
pub fn safe_read_leb128(bytes: &[u8], pc: &mut usize, bits: u8) -> (r: Result<u64, Error>)
    requires
        1 <= bits <= 64,
    ensures
        match unsigned_spec(bytes@, *old(pc) as int, bits as nat) {
            Ok((v, p)) => r == Ok::<u64, Error>(v as u64) && *final(pc) == p && v <= u64::MAX,
            Err(e) => r == Err::<u64, Error>(e) && *final(pc) == *old(pc),
        },
{
    let start: usize = *pc;
    match scan_group(bytes, start, 10) {
        None => Err(Error::Malformed(UNEXPECTED_END)),
        Some((n, acc)) => {
            if n > (bits as usize + 6) / 7 {
                return Err(Error::Malformed(INT_TOO_LONG));
            }
            proof {
                lemma2_to64();
                lemma2_to64_rest();
            }
            if bits < 64 {
                proof {
                    lemma_u64_pow2_no_overflow(bits as nat);
                    lemma_u64_shl_is_mul(1u64, bits as u64);
                }
                let limit: u64 = 1u64 << (bits as u64);
                if acc >= limit as u128 {
                    return Err(Error::Malformed(INT_TOO_LARGE));
                }
            } else {
                if acc > u64::MAX as u128 {
                    return Err(Error::Malformed(INT_TOO_LARGE));
                }
            }
            *pc = start + n;
            Ok(acc as u64)
        },
    }
}

/// Reads a signed integer of the declared width (32, 33 or 64) at `*pc`.
///
/// Succeeds exactly on a complete group of at most `ceil(bits / 7)` bytes
/// whose two's complement value is a signed integer of that width, and
/// then moves `*pc` past the group.  On an error `*pc` stays where it
/// was.
pub fn safe_read_sleb128(bytes: &[u8], pc: &mut usize, bits: u8) -> (r: Result<i64, Error>)
    requires
        bits == 32 || bits == 33 || bits == 64,
    ensures
        match signed_spec(bytes@, *old(pc) as int, bits as nat) {
            Ok((v, p)) => r == Ok::<i64, Error>(v as i64) && *final(pc) == p && i64::MIN <= v
                <= i64::MAX,
            Err(e) => r == Err::<i64, Error>(e) && *final(pc) == *old(pc),
        },
{
    let start: usize = *pc;
    match scan_group(bytes, start, 10) {
        None => Err(Error::Malformed(UNEXPECTED_END)),
        Some((n, acc)) => {
            if n > (bits as usize + 6) / 7 {
                return Err(Error::Malformed(INT_TOO_LONG));
            }
            proof {
                lemma_payload_bound(bytes@, start as int, n as nat);
                lemma_pow128_small(n as nat);
            }
            let value: i128 = if bytes[start + n - 1] % 128 >= 64 {
                acc as i128 - top_of(n) as i128
            } else {
                acc as i128
            };
            let (least, most): (i128, i128) = if bits == 64 {
                (-0x8000_0000_0000_0000, 0x7fff_ffff_ffff_ffff)
            } else if bits == 33 {
                (-0x1_0000_0000, 0xffff_ffff)
            } else {
                (-0x8000_0000, 0x7fff_ffff)
            };
            if value < least || value > most {
                return Err(Error::Malformed(INT_TOO_LARGE));
            }
            *pc = start + n;
            Ok(value as i64)
        },
    }
}

/// Applies the sign of the last byte to the payload of the first nine.
fn sign_extend(bytes: &[u8], start: usize, n: usize, acc: u128) -> (raw: i64)
    requires
        n >= 1,
        start + n <= bytes.len(),
        acc == payload_sum(bytes@, start as int, if n <= 9 { n as nat } else { 9nat }),
    ensures
        raw == signed_raw(bytes@, start as int, n as nat),
{
    let k: usize = if n <= 9 { n } else { 9 };
    proof {
        lemma_payload_bound(bytes@, start as int, k as nat);
        lemma_pow128_small(k as nat);
    }
    let last: u8 = bytes[start + n - 1];
    if last % 128 >= 64 {
        let top: u128 = top_of(k);
        (acc as i128 - top as i128) as i64
    } else {
        acc as i64
    }
}

/// `128^k` for `k` up to ten.
fn top_of(k: usize) -> (t: u128)
    requires
        k <= 10,
    ensures
        t == pow128(k as nat),
{
    let mut t: u128 = 1;
    let mut i: usize = 0;
    proof {
        lemma_pow128_values();
    }
    while i < k
        invariant
            i <= k <= 10,
            t == pow128(i as nat),
        decreases k - i,
    {
        proof {
            lemma_pow128_small(i as nat);
        }
        t = t * 128;
        i = i + 1;
    }
    t
}

/// Decodes an unsigned group at `*pc` without checking its length or
/// width.  Fails only when the input ends inside the group.
pub fn read_leb128(bytes: &[u8], pc: &mut usize) -> (r: Result<u64, Error>)
    ensures
        match plain_unsigned_spec(bytes@, *old(pc) as int) {
            Ok((v, p)) => r == Ok::<u64, Error>(v as u64) && *final(pc) == p,
            Err(e) => r == Err::<u64, Error>(e) && *final(pc) == *old(pc),
        },
{
    let start: usize = *pc;
    match scan_group(bytes, start, 10) {
        None => Err(Error::Malformed(UNEXPECTED_END)),
        Some((n, acc)) => {
            *pc = start + n;
            Ok((acc % 0x1_0000_0000_0000_0000u128) as u64)
        },
    }
}

/// Decodes a signed group at `*pc` without checking its length or width.
/// Fails only when the input ends inside the group.
pub fn read_sleb128(bytes: &[u8], pc: &mut usize) -> (r: Result<i64, Error>)
    ensures
        match plain_signed_spec(bytes@, *old(pc) as int) {
            Ok((v, p)) => r == Ok::<i64, Error>(v as i64) && *final(pc) == p && i64::MIN <= v
                <= i64::MAX,
            Err(e) => r == Err::<i64, Error>(e) && *final(pc) == *old(pc),
        },
{
    let start: usize = *pc;
    match scan_group(bytes, start, 9) {
        None => Err(Error::Malformed(UNEXPECTED_END)),
        Some((n, acc)) => {
            let raw: i64 = sign_extend(bytes, start, n, acc);
            proof {
                lemma_payload_bound(bytes@, start as int, if n <= 9 { n as nat } else { 9nat });
                lemma_pow128_small(if n <= 9 { n as nat } else { 9nat });
            }
            *pc = start + n;
            Ok(raw)
        },
    }
}

/// Canonicity of the unsigned reader: it accepts exactly the complete
/// groups of at most `ceil(bits / 7)` bytes whose value is below `2^bits`,
/// and returns that value.
pub proof fn lemma_unsigned_canonical(bytes: Seq<u8>, pos: int, bits: nat)
    requires
        1 <= bits <= 64,
    ensures
        unsigned_spec(bytes, pos, bits) is Ok <==> (group_len(bytes, pos) matches Some(n) && n
            <= max_group_len(bits) && payload_sum(bytes, pos, n) < pow2(bits)),
        unsigned_spec(bytes, pos, bits) matches Ok((v, p)) ==> group_len(bytes, pos) == Some(
            (p - pos) as nat,
        ) && v == payload_sum(bytes, pos, (p - pos) as nat),
{
}

/// Canonicity of the signed reader: it accepts exactly the complete groups
/// of at most `ceil(bits / 7)` bytes whose two's complement value is a
/// signed integer of the declared width, and returns that value.
pub proof fn lemma_signed_canonical(bytes: Seq<u8>, pos: int, bits: nat)
    requires
        bits == 32 || bits == 33 || bits == 64,
    ensures
        signed_spec(bytes, pos, bits) is Ok <==> (group_len(bytes, pos) matches Some(n) && n
            <= max_group_len(bits) && signed_in_range(signed_value(bytes, pos, n), bits)),
        signed_spec(bytes, pos, bits) matches Ok((v, p)) ==> group_len(bytes, pos) == Some(
            (p - pos) as nat,
        ) && v == signed_value(bytes, pos, (p - pos) as nat),
{
}

/// Whether the payload bits of the byte `last` that lie beyond the width
/// `bits` are copies of the sign bit, where `last` is the last byte of a
/// group of `ceil(bits / 7)` bytes.  The last byte of such a group
/// carries the bits from 28 on for the widths 32 and 33, with the sign
/// in bit 31 or 32, and the bits from 63 on for the width 64, with the
/// sign in bit 63.
pub open spec fn sign_extended(last: u8, bits: nat) -> bool {
    let d = last % 128;
    if bits == 64 {
        d == 0 || d == 0x7f
    } else if bits == 33 {
        d < 0x10 || d >= 0x70
    } else {
        d < 0x08 || d >= 0x78
    }
}

/// Canonicity of the signed reader, on the bytes: a complete group of at
/// most `ceil(bits / 7)` bytes is accepted exactly where it is shorter
/// than that, or the bits of its last byte beyond the width are copies
/// of the sign bit.
pub proof fn lemma_signed_sign_extension(bytes: Seq<u8>, pos: int, bits: nat)
    requires
        bits == 32 || bits == 33 || bits == 64,
    ensures
        signed_spec(bytes, pos, bits) is Ok <==> (group_len(bytes, pos) matches Some(n) && n
            <= max_group_len(bits) && (n < max_group_len(bits) || sign_extended(
            bytes[pos + n - 1],
            bits,
        ))),
{
    match group_len(bytes, pos) {
        None => {},
        Some(n) => {
            lemma_pow128_values();
            lemma_group_len_positive(bytes, pos);
            if n <= max_group_len(bits) {
                lemma_payload_bound(bytes, pos, (n - 1) as nat);
                let d = (bytes[pos + n - 1] % 128) as int;
                let p = pow128((n - 1) as nat) as int;
                let low = payload_sum(bytes, pos, (n - 1) as nat) as int;
                let v = signed_value(bytes, pos, n);
                assert(pow128(n) == 128 * p);
                assert(v == if d >= 64 {
                    low + (d - 128) * p
                } else {
                    low + d * p
                }) by (nonlinear_arith)
                    requires
                        v == (if d >= 64 {
                            low + d * p - 128 * p
                        } else {
                            low + d * p
                        }),
                ;
                if n < max_group_len(bits) {
                    // a shorter group has fewer bits than the width
                    assert(-64 * p <= v < 64 * p) by (nonlinear_arith)
                        requires
                            v == (if d >= 64 {
                                low + (d - 128) * p
                            } else {
                                low + d * p
                            }),
                            0 <= low < p,
                            0 <= d < 128,
                    ;
                    lemma_pow128_small(n);
                    assert(64 * p <= if bits == 64 {
                        0x4000_0000_0000_0000int
                    } else {
                        0x800_0000int
                    }) by {
                        assert(n == 1 || n == 2 || n == 3 || n == 4 || n == 5 || n == 6 || n == 7
                            || n == 8 || n == 9);
                    }
                    assert(signed_in_range(v, bits));
                } else {
                    let last = bytes[pos + n - 1];
                    assert(d == last % 128);
                    if bits == 64 {
                        assert(p == 0x8000_0000_0000_0000);
                        assert(d * p == d * 0x8000_0000_0000_0000 && (d - 128) * p == (d - 128)
                            * 0x8000_0000_0000_0000) by (nonlinear_arith)
                            requires
                                p == 0x8000_0000_0000_0000,
                        ;
                    } else {
                        assert(p == 0x1000_0000);
                        assert(d * p == d * 0x1000_0000 && (d - 128) * p == (d - 128) * 0x1000_0000)
                            by (nonlinear_arith)
                            requires
                                p == 0x1000_0000,
                        ;
                    }
                    assert(signed_in_range(v, bits) == sign_extended(bytes[pos + n - 1], bits));
                }
            }
        },
    }
}

/// A group has at least one byte and lies inside the input.
pub proof fn lemma_group_len_positive(bytes: Seq<u8>, pos: int)
    ensures
        group_len(bytes, pos) matches Some(n) ==> n >= 1 && 0 <= pos && pos + n <= bytes.len()
            && bytes[pos + n - 1] < 0x80,
    decreases bytes.len() - pos,
{
    if 0 <= pos < bytes.len() && bytes[pos] >= 0x80 {
        lemma_group_len_positive(bytes, pos + 1);
    }
}

} // verus!
