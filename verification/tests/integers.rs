use wagmi::byte_iter::ByteIter;
use wagmi::error::Error;
use wagmi::leb128::{read_leb128, read_sleb128, safe_read_leb128, safe_read_sleb128};
use wagmi::numeric::{
    binary, float_op_arity, i32_div_s, i32_div_u, i32_rem_s, i32_rem_u, i64_div_s, i64_div_u, i64_rem_s,
    i64_rem_u, is_float_op, popcnt, unary,
};
use wagmi::value::{i32_to_u32, i64_to_u64, u32_to_i32, u64_to_i64, WasmValue};

fn unsigned(bytes: &[u8], bits: u8) -> (Result<u64, Error>, usize) {
    let mut pc = 0;
    let r = safe_read_leb128(bytes, &mut pc, bits);
    (r, pc)
}

fn signed(bytes: &[u8], bits: u8) -> (Result<i64, Error>, usize) {
    let mut pc = 0;
    let r = safe_read_sleb128(bytes, &mut pc, bits);
    (r, pc)
}

#[test]
fn unsigned_leb128_values() {
    assert_eq!(unsigned(&[0x00], 32), (Ok(0), 1));
    assert_eq!(unsigned(&[0x7f], 32), (Ok(127), 1));
    assert_eq!(unsigned(&[0xe5, 0x8e, 0x26], 32), (Ok(624485), 3));
    assert_eq!(unsigned(&[0xff, 0xff, 0xff, 0xff, 0x0f], 32), (Ok(0xffff_ffff), 5));
    assert_eq!(unsigned(&[0x80, 0x00], 32), (Ok(0), 2));
    assert_eq!(unsigned(&[0x01], 1), (Ok(1), 1));
    assert_eq!(
        unsigned(&[0xff, 0xff, 0xff, 0xff, 0xff, 0xff, 0xff, 0xff, 0xff, 0x01], 64),
        (Ok(u64::MAX), 10)
    );
}

#[test]
fn unsigned_leb128_rejections() {
    assert_eq!(unsigned(&[], 32), (Err(Error::Malformed("unexpected end of section or function")), 0));
    assert_eq!(unsigned(&[0x80], 32), (Err(Error::Malformed("unexpected end of section or function")), 0));
    assert_eq!(
        unsigned(&[0x80, 0x80, 0x80, 0x80, 0x80, 0x00], 32),
        (Err(Error::Malformed("integer representation too long")), 0)
    );
    assert_eq!(
        unsigned(&[0xff, 0xff, 0xff, 0xff, 0x1f], 32),
        (Err(Error::Malformed("integer too large")), 0)
    );
    assert_eq!(unsigned(&[0x02], 1), (Err(Error::Malformed("integer too large")), 0));
    assert_eq!(unsigned(&[0x80, 0x00], 1), (Err(Error::Malformed("integer representation too long")), 0));
    assert_eq!(
        unsigned(&[0xff, 0xff, 0xff, 0xff, 0xff, 0xff, 0xff, 0xff, 0xff, 0x02], 64),
        (Err(Error::Malformed("integer too large")), 0)
    );
}

#[test]
fn signed_leb128_values() {
    assert_eq!(signed(&[0x00], 32), (Ok(0), 1));
    assert_eq!(signed(&[0x7f], 32), (Ok(-1), 1));
    assert_eq!(signed(&[0x3f], 32), (Ok(63), 1));
    assert_eq!(signed(&[0x40], 32), (Ok(-64), 1));
    assert_eq!(signed(&[0x80, 0x7f], 32), (Ok(-128), 2));
    assert_eq!(signed(&[0xff, 0xff, 0xff, 0xff, 0x07], 32), (Ok(i32::MAX as i64), 5));
    assert_eq!(signed(&[0x80, 0x80, 0x80, 0x80, 0x78], 32), (Ok(i32::MIN as i64), 5));
    assert_eq!(signed(&[0xff, 0xff, 0xff, 0xff, 0x7f], 32), (Ok(-1), 5));
    assert_eq!(
        signed(&[0x80, 0x80, 0x80, 0x80, 0x80, 0x80, 0x80, 0x80, 0x80, 0x7f], 64),
        (Ok(i64::MIN), 10)
    );
    assert_eq!(
        signed(&[0xff, 0xff, 0xff, 0xff, 0xff, 0xff, 0xff, 0xff, 0xff, 0x00], 64),
        (Ok(i64::MAX), 10)
    );
    assert_eq!(signed(&[0x03], 33), (Ok(3), 1));
}

#[test]
fn signed_leb128_of_33_bits() {
    // 2^31 and -2^31 - 1 are integers of 33 bits, not of 32
    assert_eq!(signed(&[0x80, 0x80, 0x80, 0x80, 0x08], 33), (Ok(0x8000_0000), 5));
    assert_eq!(signed(&[0x80, 0x80, 0x80, 0x80, 0x08], 32), (Err(Error::Malformed("integer too large")), 0));
    assert_eq!(signed(&[0xff, 0xff, 0xff, 0xff, 0x77], 33), (Ok(-0x8000_0001), 5));
    assert_eq!(signed(&[0xff, 0xff, 0xff, 0xff, 0x77], 32), (Err(Error::Malformed("integer too large")), 0));
    // the bounds of the width
    assert_eq!(signed(&[0xff, 0xff, 0xff, 0xff, 0x0f], 33), (Ok(0xffff_ffff), 5));
    assert_eq!(signed(&[0x80, 0x80, 0x80, 0x80, 0x70], 33), (Ok(-0x1_0000_0000), 5));
    assert_eq!(signed(&[0x80, 0x80, 0x80, 0x80, 0x10], 33), (Err(Error::Malformed("integer too large")), 0));
    assert_eq!(signed(&[0xff, 0xff, 0xff, 0xff, 0x6f], 33), (Err(Error::Malformed("integer too large")), 0));
    assert_eq!(signed(&[0xff, 0xff, 0xff, 0xff, 0x7f], 33), (Ok(-1), 5));
    assert_eq!(
        signed(&[0x80, 0x80, 0x80, 0x80, 0x80, 0x00], 33),
        (Err(Error::Malformed("integer representation too long")), 0)
    );
}

#[test]
fn the_length_decides_before_the_width() {
    // six bytes are too long for 32 bits, whatever they hold
    assert_eq!(
        signed(&[0xff, 0xff, 0xff, 0xff, 0xff, 0x0f], 32),
        (Err(Error::Malformed("integer representation too long")), 0)
    );
    assert_eq!(
        signed(&[0xff, 0xff, 0xff, 0xff, 0xff, 0x0f], 33),
        (Err(Error::Malformed("integer representation too long")), 0)
    );
    assert_eq!(
        unsigned(&[0xff, 0xff, 0xff, 0xff, 0xff, 0x0f], 32),
        (Err(Error::Malformed("integer representation too long")), 0)
    );
    assert_eq!(
        signed(&[0xff, 0xff, 0xff, 0xff, 0xff, 0xff, 0xff, 0xff, 0xff, 0xff, 0x01], 64),
        (Err(Error::Malformed("integer representation too long")), 0)
    );
    // five bytes are not, and then the value decides
    assert_eq!(signed(&[0xff, 0xff, 0xff, 0xff, 0x08], 32), (Err(Error::Malformed("integer too large")), 0));
    assert_eq!(signed(&[0xff, 0xff, 0xff, 0xff, 0x70], 32), (Err(Error::Malformed("integer too large")), 0));
}

#[test]
fn signed_leb128_rejections() {
    assert_eq!(signed(&[0x80], 32), (Err(Error::Malformed("unexpected end of section or function")), 0));
    assert_eq!(
        signed(&[0xff, 0xff, 0xff, 0xff, 0x0f], 32),
        (Err(Error::Malformed("integer too large")), 0)
    );
    assert_eq!(
        signed(&[0x80, 0x80, 0x80, 0x80, 0x80, 0x00], 32),
        (Err(Error::Malformed("integer representation too long")), 0)
    );
    assert_eq!(
        signed(&[0x80, 0x80, 0x80, 0x80, 0x80, 0x80, 0x80, 0x80, 0x80, 0x01], 64),
        (Err(Error::Malformed("integer too large")), 0)
    );
    assert_eq!(
        signed(&[0x80, 0x80, 0x80, 0x80, 0x80, 0x80, 0x80, 0x80, 0x80, 0x7e], 64),
        (Err(Error::Malformed("integer too large")), 0)
    );
    assert_eq!(
        signed(&[0x80, 0x80, 0x80, 0x80, 0x80, 0x80, 0x80, 0x80, 0x80, 0x80, 0x00], 64),
        (Err(Error::Malformed("integer representation too long")), 0)
    );
}

#[test]
fn plain_readers_decode_without_checks() {
    let mut pc = 1;
    assert_eq!(read_leb128(&[0xaa, 0xe5, 0x8e, 0x26, 0x00], &mut pc), Ok(624485));
    assert_eq!(pc, 4);
    let mut pc = 0;
    assert_eq!(read_leb128(&[0x80, 0x80, 0x80, 0x80, 0x80, 0x00], &mut pc), Ok(0));
    assert_eq!(pc, 6);
    let mut pc = 0;
    assert_eq!(read_sleb128(&[0x80, 0x7f], &mut pc), Ok(-128));
    assert_eq!(pc, 2);
    let mut pc = 0;
    assert_eq!(read_sleb128(&[0x80], &mut pc), Err(Error::Malformed("unexpected end of section or function")));
    assert_eq!(pc, 0);
    let mut pc = 3;
    assert_eq!(read_leb128(&[0x01], &mut pc), Err(Error::Malformed("unexpected end of section or function")));
}

#[test]
fn byte_cursor() {
    let bytes = [1u8, 2, 3, 4];
    let mut it = ByteIter::new(&bytes, 1);
    assert_eq!(it.cur(), 1);
    assert!(!it.empty());
    assert!(it.has_n_left(3));
    assert!(!it.has_n_left(4));
    assert!(!it.has_n_left(usize::MAX));
    assert_eq!(it.get_with_at_least(3), Ok(1));
    assert_eq!(it.get_with_at_least(4), Err(Error::Malformed("unexpected end of section or function")));
    assert_eq!(it.peek_u8(), Ok(2));
    assert_eq!(it.read_u8(), Ok(2));
    assert_eq!(it.cur(), 2);
    it.advance(2);
    assert!(it.empty());
    assert_eq!(it.read_u8(), Err(Error::Malformed("unexpected end of section or function")));
    assert_eq!(it.peek_u8(), Err(Error::Malformed("unexpected end of section or function")));
    assert_eq!(it.slice_from(1, 2), Ok(&bytes[1..3]));
    assert_eq!(it.slice_from(3, 2), Err(Error::Malformed("unexpected end")));
    assert_eq!(it.slice_from(usize::MAX, 2), Err(Error::Malformed("unexpected end")));
}

#[test]
fn bit_patterns_round_trip() {
    for v in [0u32, 1, 0x7fff_ffff, 0x8000_0000, 0xffff_ffff, 0x7fc0_0000, 0xffc0_0001] {
        assert_eq!(i32_to_u32(u32_to_i32(v)), v);
        assert_eq!(WasmValue::from_f32_bits(v).as_f32_bits(), v);
        assert_eq!(WasmValue::from_u32(v).as_u32(), v);
        assert_eq!(WasmValue::from_i32(v as i32).as_f32_bits(), v);
    }
    for v in [0u64, 1, u64::MAX, 0x8000_0000_0000_0000, 0x7ff8_0000_0000_0001] {
        assert_eq!(i64_to_u64(u64_to_i64(v)), v);
        assert_eq!(WasmValue::from_f64_bits(v).as_f64_bits(), v);
        assert_eq!(WasmValue::from_i64(v as i64).as_u64(), v);
    }
    assert_eq!(u32_to_i32(0xffff_ffff), -1);
    assert_eq!(u64_to_i64(u64::MAX), -1);
    assert_eq!(WasmValue::from_i32(-1), WasmValue(0xffff_ffff));
    assert_eq!(WasmValue::from_i64(-1), WasmValue(u64::MAX));
    assert_eq!(WasmValue(0x1_0000_0005).as_i32(), 5);
    assert_eq!(WasmValue(0x1_0000_0005).as_i64(), 0x1_0000_0005);
}

#[test]
fn division_edges() {
    assert_eq!(i32_div_s(i32::MIN, -1), Err(Error::Trap("integer overflow")));
    assert_eq!(i32_rem_s(i32::MIN, -1), Ok(0));
    assert_eq!(i64_div_s(i64::MIN, -1), Err(Error::Trap("integer overflow")));
    assert_eq!(i64_rem_s(i64::MIN, -1), Ok(0));
    for x in [0u32, 1, 17, u32::MAX] {
        assert_eq!(i32_div_u(x, 0), Err(Error::Trap("integer divide by zero")));
        assert_eq!(i32_rem_u(x, 0), Err(Error::Trap("integer divide by zero")));
        assert_eq!(i32_div_s(x as i32, 0), Err(Error::Trap("integer divide by zero")));
        assert_eq!(i32_rem_s(x as i32, 0), Err(Error::Trap("integer divide by zero")));
    }
    assert_eq!(i64_div_u(5, 0), Err(Error::Trap("integer divide by zero")));
    assert_eq!(i64_rem_u(5, 0), Err(Error::Trap("integer divide by zero")));
    assert_eq!(i32_div_s(-7, 2), Ok(-3));
    assert_eq!(i32_rem_s(-7, 2), Ok(-1));
    assert_eq!(i32_div_s(7, -2), Ok(-3));
    assert_eq!(i32_rem_s(7, -2), Ok(1));
    assert_eq!(i32_div_s(-7, -2), Ok(3));
    assert_eq!(i32_div_s(i32::MIN, 1), Ok(i32::MIN));
    assert_eq!(i32_div_s(i32::MIN, 2), Ok(i32::MIN / 2));
    assert_eq!(i64_div_s(-9, 4), Ok(-2));
    assert_eq!(i64_rem_s(-9, 4), Ok(-1));
    assert_eq!(i32_div_u(u32::MAX, 2), Ok(0x7fff_ffff));
    assert_eq!(i64_rem_u(u64::MAX, 10), Ok(5));
}

#[test]
fn integer_instructions() {
    // i32
    assert_eq!(binary(0x6a, 0x7fff_ffff, 1), Ok(0x8000_0000));
    assert_eq!(binary(0x6a, 0xffff_ffff, 1), Ok(0));
    assert_eq!(binary(0x6b, 0, 1), Ok(0xffff_ffff));
    assert_eq!(binary(0x6c, 0x1_0000, 0x1_0000), Ok(0));
    assert_eq!(binary(0x6d, 0x8000_0000, 0xffff_ffff), Err(Error::Trap("integer overflow")));
    assert_eq!(binary(0x6d, 0xffff_fff9, 2), Ok(0xffff_fffd));
    assert_eq!(binary(0x6e, 0xffff_fff9, 2), Ok(0x7fff_fffc));
    assert_eq!(binary(0x6f, 0x8000_0000, 0xffff_ffff), Ok(0));
    assert_eq!(binary(0x70, 7, 0), Err(Error::Trap("integer divide by zero")));
    assert_eq!(binary(0x71, 0b1100, 0b1010), Ok(0b1000));
    assert_eq!(binary(0x72, 0b1100, 0b1010), Ok(0b1110));
    assert_eq!(binary(0x73, 0b1100, 0b1010), Ok(0b0110));
    assert_eq!(binary(0x74, 1, 33), Ok(2));
    assert_eq!(binary(0x75, 0x8000_0000, 31), Ok(0xffff_ffff));
    assert_eq!(binary(0x76, 0x8000_0000, 31), Ok(1));
    assert_eq!(binary(0x77, 0x8000_0001, 1), Ok(3));
    assert_eq!(binary(0x78, 3, 1), Ok(0x8000_0001));
    assert_eq!(binary(0x77, 0x1234_5678, 32), Ok(0x1234_5678));
    // comparisons
    assert_eq!(binary(0x48, 0xffff_ffff, 0), Ok(1));
    assert_eq!(binary(0x49, 0xffff_ffff, 0), Ok(0));
    assert_eq!(binary(0x46, 5, 5), Ok(1));
    assert_eq!(binary(0x47, 5, 5), Ok(0));
    assert_eq!(binary(0x4e, 0, 0xffff_ffff), Ok(1));
    assert_eq!(binary(0x4f, 0, 0xffff_ffff), Ok(0));
    assert_eq!(binary(0x53, u64::MAX, 0), Ok(1));
    assert_eq!(binary(0x54, u64::MAX, 0), Ok(0));
    // i64
    assert_eq!(binary(0x7c, u64::MAX, 1), Ok(0));
    assert_eq!(binary(0x7d, 0, 1), Ok(u64::MAX));
    assert_eq!(binary(0x7e, 1 << 32, 1 << 32), Ok(0));
    assert_eq!(binary(0x7f, 0x8000_0000_0000_0000, u64::MAX), Err(Error::Trap("integer overflow")));
    assert_eq!(binary(0x86, 1, 65), Ok(2));
    assert_eq!(binary(0x87, 0x8000_0000_0000_0000, 63), Ok(u64::MAX));
    assert_eq!(binary(0x88, 0x8000_0000_0000_0000, 63), Ok(1));
    assert_eq!(binary(0x89, 0x8000_0000_0000_0001, 1), Ok(3));
    assert_eq!(binary(0x8a, 3, 1), Ok(0x8000_0000_0000_0001));
    // unary
    assert_eq!(unary(0x45, 0), 1);
    assert_eq!(unary(0x45, 0x1_0000_0000), 1);
    assert_eq!(unary(0x50, 0x1_0000_0000), 0);
    assert_eq!(unary(0x67, 1), 31);
    assert_eq!(unary(0x67, 0), 32);
    assert_eq!(unary(0x68, 0x8000_0000), 31);
    assert_eq!(unary(0x69, 0xf0f0), 8);
    assert_eq!(unary(0x79, 1), 63);
    assert_eq!(unary(0x7a, 0), 64);
    assert_eq!(unary(0x7b, u64::MAX), 64);
    assert_eq!(unary(0xa7, 0x1234_5678_9abc_def0), 0x9abc_def0);
    assert_eq!(unary(0xac, 0xffff_ffff), u64::MAX);
    assert_eq!(unary(0xac, 0x7fff_ffff), 0x7fff_ffff);
    assert_eq!(unary(0xad, 0xffff_ffff), 0xffff_ffff);
    assert_eq!(popcnt(0), 0);
    assert_eq!(popcnt(0b1011), 3);
}

#[test]
fn float_sign_instructions_work_on_bits() {
    let minus_one = (-1.0f32).to_bits() as u64;
    let one = 1.0f32.to_bits() as u64;
    assert_eq!(unary(0x8b, minus_one), one);
    assert_eq!(unary(0x8c, one), minus_one);
    assert_eq!(unary(0x8c, minus_one), one);
    let nan = 0xffc0_0001u64;
    assert_eq!(unary(0x8b, nan), 0x7fc0_0001);
    assert_eq!(binary(0x98, one, minus_one), Ok(minus_one));
    assert_eq!(binary(0x98, minus_one, one), Ok(one));
    let d_minus = (-2.5f64).to_bits();
    let d_plus = 2.5f64.to_bits();
    assert_eq!(unary(0x99, d_minus), d_plus);
    assert_eq!(unary(0x9a, d_plus), d_minus);
    assert_eq!(binary(0xa6, d_plus, (-0.0f64).to_bits()), Ok(d_minus));
    assert_eq!(binary(0xa6, d_minus, 0.0f64.to_bits()), Ok(d_plus));
}

#[test]
fn float_instructions_are_told_apart() {
    // sqrt, the arithmetic, and the conversions to floats
    for op in [0x91u8, 0x92, 0x95, 0x9f, 0xa0, 0xa3, 0xb2, 0xb6, 0xbb] {
        assert!(is_float_op(op));
    }
    // what is decided on the bits: comparisons, roundings, min, max, truncations, signs
    for op in [0x5bu8, 0x66, 0x8d, 0x8e, 0x8f, 0x90, 0x96, 0x97, 0x9b, 0x9e, 0xa4, 0xa5, 0xa8, 0xab, 0xae, 0xb1] {
        assert!(!is_float_op(op));
    }
    for op in [0x45u8, 0x6a, 0x8b, 0x8c, 0x98, 0x99, 0x9a, 0xa6, 0xa7, 0xac, 0xad, 0xbc, 0xbf, 0x00] {
        assert!(!is_float_op(op));
    }
    assert_eq!(float_op_arity(0x92), 2);
    assert_eq!(float_op_arity(0x95), 2);
    assert_eq!(float_op_arity(0xa0), 2);
    assert_eq!(float_op_arity(0xa3), 2);
    assert_eq!(float_op_arity(0x9f), 1);
    assert_eq!(float_op_arity(0x91), 1);
    assert_eq!(float_op_arity(0xbb), 1);
    // through the dispatch of the unary and binary instructions
    assert_eq!(unary(0x90, 2.5f32.to_bits() as u64), 2.0f32.to_bits() as u64);
    assert_eq!(unary(0x8d, 2.5f32.to_bits() as u64), 3.0f32.to_bits() as u64);
    assert_eq!(unary(0x9c, (-2.5f64).to_bits()), (-3.0f64).to_bits());
    assert_eq!(unary(0x9e, (-3.5f64).to_bits()), (-4.0f64).to_bits());
    assert_eq!(binary(0x5d, 1.0f32.to_bits() as u64, 2.0f32.to_bits() as u64), Ok(1));
    assert_eq!(binary(0x66, f64::NAN.to_bits(), 2.0f64.to_bits()), Ok(0));
    assert_eq!(binary(0x62, f64::NAN.to_bits(), f64::NAN.to_bits()), Ok(1));
    assert_eq!(binary(0xa4, 0.0f64.to_bits(), (-0.0f64).to_bits()), Ok((-0.0f64).to_bits()));
    assert_eq!(binary(0x97, 1.0f32.to_bits() as u64, (-2.0f32).to_bits() as u64), Ok(1.0f32.to_bits() as u64));
}
