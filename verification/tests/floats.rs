use wagmi::error::Error;
use wagmi::floats::{compare, min_max, round, truncate};

/// Bit patterns of `f32` that matter: zeros, subnormals, halves, integers,
/// the neighbours of the integer bounds, infinities, NaNs.
fn patterns32() -> Vec<u32> {
    let mut v: Vec<u32> = vec![
        0x0000_0000, 0x8000_0000, 0x0000_0001, 0x8000_0001, 0x007f_ffff, 0x0080_0000, 0x3eff_ffff, 0x3f00_0000, 0x3f00_0001,
        0xbf00_0000, 0x3f7f_ffff, 0x3f80_0000, 0xbf80_0000, 0x3fc0_0000, 0xbfc0_0000, 0x4020_0000, 0xc020_0000, 0x4060_0000,
        0x4b00_0000, 0x4b00_0001, 0x4b7f_ffff, 0x4b80_0000, 0x4aff_ffff, 0x4eff_ffff, 0x4f00_0000, 0xcf00_0000, 0xcf00_0001,
        0x4f7f_ffff, 0x4f80_0000, 0x5eff_ffff, 0x5f00_0000, 0xdf00_0000, 0xdf00_0001, 0x5f7f_ffff, 0x5f80_0000, 0xbf7f_ffff,
        0x7f7f_ffff, 0xff7f_ffff, 0x7f80_0000, 0xff80_0000, 0x7f80_0001, 0x7fc0_0000, 0xffc0_0000, 0x7fa0_0000, 0xffff_ffff,
    ];
    let mut x: u32 = 0x1234_5678;
    for _ in 0..400 {
        x = x.wrapping_mul(1_664_525).wrapping_add(1_013_904_223);
        v.push(x);
        // the same fraction with an exponent around the integers
        v.push((x & 0x807f_ffff) | (((x >> 23) % 72 + 100) << 23));
    }
    v
}

fn patterns64() -> Vec<u64> {
    let mut v: Vec<u64> = vec![
        0,
        0x8000_0000_0000_0000,
        1,
        0x000f_ffff_ffff_ffff,
        0x0010_0000_0000_0000,
        0x3fdf_ffff_ffff_ffff,
        0x3fe0_0000_0000_0000,
        0xbfe0_0000_0000_0000,
        0x3fe0_0000_0000_0001,
        0x3ff0_0000_0000_0000,
        0xbff0_0000_0000_0000,
        0x3ff8_0000_0000_0000,
        0x4004_0000_0000_0000,
        0xc004_0000_0000_0000,
        0x4330_0000_0000_0000,
        0x4330_0000_0000_0001,
        0x432f_ffff_ffff_ffff,
        0x41df_ffff_ffc0_0000,
        0x41df_ffff_ffff_ffff,
        0x41e0_0000_0000_0000,
        0xc1e0_0000_0000_0000,
        0xc1e0_0000_001f_ffff,
        0xc1e0_0000_0020_0000,
        0x41ef_ffff_ffe0_0000,
        0x41ef_ffff_ffff_ffff,
        0x41f0_0000_0000_0000,
        0xbfef_ffff_ffff_ffff,
        0x43df_ffff_ffff_ffff,
        0x43e0_0000_0000_0000,
        0xc3e0_0000_0000_0000,
        0xc3e0_0000_0000_0001,
        0x43ef_ffff_ffff_ffff,
        0x43f0_0000_0000_0000,
        0x7fef_ffff_ffff_ffff,
        0x7ff0_0000_0000_0000,
        0xfff0_0000_0000_0000,
        0x7ff0_0000_0000_0001,
        0x7ff8_0000_0000_0000,
        0xfff8_0000_0000_0000,
        0xffff_ffff_ffff_ffff,
    ];
    let mut x: u64 = 0x1234_5678_9abc_def0;
    for _ in 0..400 {
        x = x.wrapping_mul(6_364_136_223_846_793_005).wrapping_add(1_442_695_040_888_963_407);
        v.push(x);
        v.push((x & 0x800f_ffff_ffff_ffff) | (((x >> 52) % 130 + 990) << 52));
    }
    v
}

#[test]
fn comparisons_agree_with_the_floats() {
    let p32 = patterns32();
    for &a in p32.iter().take(120) {
        for &b in p32.iter().take(120) {
            let (x, y) = (f32::from_bits(a), f32::from_bits(b));
            // the upper half of the payload has no part in an f32
            let (pa, pb) = (a as u64 | 0xdead_0000_0000, b as u64);
            assert_eq!(compare(0x5b, pa, pb), x == y, "{a:#x} == {b:#x}");
            assert_eq!(compare(0x5c, pa, pb), x != y, "{a:#x} != {b:#x}");
            assert_eq!(compare(0x5d, pa, pb), x < y, "{a:#x} < {b:#x}");
            assert_eq!(compare(0x5e, pa, pb), x > y, "{a:#x} > {b:#x}");
            assert_eq!(compare(0x5f, pa, pb), x <= y, "{a:#x} <= {b:#x}");
            assert_eq!(compare(0x60, pa, pb), x >= y, "{a:#x} >= {b:#x}");
        }
    }
    let p64 = patterns64();
    for &a in p64.iter().take(120) {
        for &b in p64.iter().take(120) {
            let (x, y) = (f64::from_bits(a), f64::from_bits(b));
            assert_eq!(compare(0x61, a, b), x == y, "{a:#x} == {b:#x}");
            assert_eq!(compare(0x62, a, b), x != y, "{a:#x} != {b:#x}");
            assert_eq!(compare(0x63, a, b), x < y, "{a:#x} < {b:#x}");
            assert_eq!(compare(0x64, a, b), x > y, "{a:#x} > {b:#x}");
            assert_eq!(compare(0x65, a, b), x <= y, "{a:#x} <= {b:#x}");
            assert_eq!(compare(0x66, a, b), x >= y, "{a:#x} >= {b:#x}");
        }
    }
}

#[test]
fn min_and_max_of_the_zeros() {
    let (pz, nz) = (0.0f64.to_bits(), (-0.0f64).to_bits());
    assert_eq!(min_max(0xa4, pz, nz), nz);
    assert_eq!(min_max(0xa4, nz, pz), nz);
    assert_eq!(min_max(0xa5, pz, nz), pz);
    assert_eq!(min_max(0xa5, nz, pz), pz);
    assert_eq!(min_max(0xa4, pz, pz), pz);
    assert_eq!(min_max(0xa5, nz, nz), nz);
    let (pz, nz) = (0.0f32.to_bits() as u64, (-0.0f32).to_bits() as u64);
    assert_eq!(min_max(0x96, pz, nz), nz);
    assert_eq!(min_max(0x96, nz, pz), nz);
    assert_eq!(min_max(0x97, pz, nz), pz);
    assert_eq!(min_max(0x97, nz, pz), pz);
}

#[test]
fn min_and_max_agree_with_the_floats() {
    let p32 = patterns32();
    for &a in p32.iter().take(150) {
        for &b in p32.iter().take(150) {
            let (x, y) = (f32::from_bits(a), f32::from_bits(b));
            let (lo, hi) = if x.is_nan() {
                (a, a)
            } else if y.is_nan() {
                (b, b)
            } else if x == y {
                // equal floats are the same pattern, or the two zeros
                (a | b, a & b)
            } else if x < y {
                (a, b)
            } else {
                (b, a)
            };
            assert_eq!(min_max(0x96, a as u64, b as u64), lo as u64, "min {a:#x} {b:#x}");
            assert_eq!(min_max(0x97, a as u64, b as u64), hi as u64, "max {a:#x} {b:#x}");
        }
    }
    let p64 = patterns64();
    for &a in p64.iter().take(150) {
        for &b in p64.iter().take(150) {
            let (x, y) = (f64::from_bits(a), f64::from_bits(b));
            let (lo, hi) = if x.is_nan() {
                (a, a)
            } else if y.is_nan() {
                (b, b)
            } else if x == y {
                (a | b, a & b)
            } else if x < y {
                (a, b)
            } else {
                (b, a)
            };
            assert_eq!(min_max(0xa4, a, b), lo, "min {a:#x} {b:#x}");
            assert_eq!(min_max(0xa5, a, b), hi, "max {a:#x} {b:#x}");
        }
    }
}

#[test]
fn nearest_rounds_halves_to_even() {
    let n32 = |x: f32| f32::from_bits(round(0x90, x.to_bits() as u64) as u32);
    assert_eq!(n32(0.5).to_bits(), 0.0f32.to_bits());
    assert_eq!(n32(-0.5).to_bits(), (-0.0f32).to_bits());
    assert_eq!(n32(1.5), 2.0);
    assert_eq!(n32(2.5), 2.0);
    assert_eq!(n32(3.5), 4.0);
    assert_eq!(n32(-1.5), -2.0);
    assert_eq!(n32(-2.5), -2.0);
    assert_eq!(n32(0.49999997), 0.0);
    assert_eq!(n32(0.50000006), 1.0);
    assert_eq!(n32(-0.75), -1.0);
    assert_eq!(n32(1.25), 1.0);
    assert_eq!(n32(1.75), 2.0);
    assert_eq!(n32(8388607.5), 8388608.0);
    assert_eq!(n32(8388606.5), 8388606.0);
    assert_eq!(n32(16777216.0), 16777216.0);
    assert_eq!(n32(f32::INFINITY), f32::INFINITY);
    assert_eq!(n32(f32::NEG_INFINITY), f32::NEG_INFINITY);
    assert_eq!(n32(f32::MIN_POSITIVE).to_bits(), 0);
    assert_eq!(round(0x90, 0x7fa0_0001), 0x7fa0_0001);
    assert_eq!(round(0x90, 0xdead_beef_ffc0_0000), 0xffc0_0000);
    let n64 = |x: f64| f64::from_bits(round(0x9e, x.to_bits()));
    assert_eq!(n64(0.5).to_bits(), 0.0f64.to_bits());
    assert_eq!(n64(-0.5).to_bits(), (-0.0f64).to_bits());
    assert_eq!(n64(1.5), 2.0);
    assert_eq!(n64(2.5), 2.0);
    assert_eq!(n64(-3.5), -4.0);
    assert_eq!(n64(4503599627370495.5), 4503599627370496.0);
    assert_eq!(n64(4503599627370494.5), 4503599627370494.0);
    assert_eq!(n64(1.0e300), 1.0e300);
    assert_eq!(round(0x9e, 0x7ff0_0000_0000_0001), 0x7ff0_0000_0000_0001);
}

fn reference_nearest64(x: f64) -> f64 {
    if x.is_nan() || x.is_infinite() {
        return x;
    }
    let lower = x.floor();
    let upper = x.ceil();
    let (dl, du) = (x - lower, upper - x);
    let y = if dl < du {
        lower
    } else if dl > du {
        upper
    } else if lower % 2.0 == 0.0 {
        lower
    } else {
        upper
    };
    if y == 0.0 { y.copysign(x) } else { y }
}

#[test]
fn nearest_agrees_with_the_floats() {
    for &a in patterns32().iter() {
        let x = f32::from_bits(a);
        let want = if x.is_nan() { a } else { (reference_nearest64(x as f64) as f32).to_bits() };
        assert_eq!(round(0x90, a as u64), want as u64, "nearest {a:#x}");
    }
    for &a in patterns64().iter() {
        let x = f64::from_bits(a);
        let want = if x.is_nan() { a } else { reference_nearest64(x).to_bits() };
        assert_eq!(round(0x9e, a), want, "nearest {a:#x}");
    }
}

#[test]
fn truncation_traps() {
    let nan32 = f32::NAN.to_bits() as u64;
    let nan64 = f64::NAN.to_bits();
    for op in [0xa8u8, 0xa9, 0xae, 0xaf] {
        assert_eq!(truncate(op, nan32), Err(Error::Trap("invalid conversion to integer")));
        assert_eq!(truncate(op, 0xffc0_0001), Err(Error::Trap("invalid conversion to integer")));
        assert_eq!(truncate(op, f32::INFINITY.to_bits() as u64), Err(Error::Trap("integer overflow")));
        assert_eq!(truncate(op, f32::NEG_INFINITY.to_bits() as u64), Err(Error::Trap("integer overflow")));
        assert_eq!(truncate(op, f32::MAX.to_bits() as u64), Err(Error::Trap("integer overflow")));
    }
    for op in [0xaau8, 0xab, 0xb0, 0xb1] {
        assert_eq!(truncate(op, nan64), Err(Error::Trap("invalid conversion to integer")));
        assert_eq!(truncate(op, f64::INFINITY.to_bits()), Err(Error::Trap("integer overflow")));
        assert_eq!(truncate(op, f64::NEG_INFINITY.to_bits()), Err(Error::Trap("integer overflow")));
        assert_eq!(truncate(op, f64::MIN.to_bits()), Err(Error::Trap("integer overflow")));
    }
    let t = |op: u8, x: f64| truncate(op, x.to_bits());
    assert_eq!(t(0xaa, -3.9), Ok((-3i32) as u32 as u64));
    assert_eq!(t(0xaa, 3.9), Ok(3));
    assert_eq!(t(0xaa, 2147483647.9), Ok(0x7fff_ffff));
    assert_eq!(t(0xaa, 2147483648.0), Err(Error::Trap("integer overflow")));
    assert_eq!(t(0xaa, -2147483648.9), Ok(0x8000_0000));
    assert_eq!(t(0xaa, -2147483649.0), Err(Error::Trap("integer overflow")));
    assert_eq!(t(0xab, -0.9), Ok(0));
    assert_eq!(t(0xab, -1.0), Err(Error::Trap("integer overflow")));
    assert_eq!(t(0xab, 4294967295.9), Ok(0xffff_ffff));
    assert_eq!(t(0xab, 4294967296.0), Err(Error::Trap("integer overflow")));
    assert_eq!(t(0xb0, -9223372036854775808.0), Ok(0x8000_0000_0000_0000));
    assert_eq!(t(0xb0, -9223372036854777856.0), Err(Error::Trap("integer overflow")));
    assert_eq!(t(0xb0, 9223372036854774784.0), Ok(0x7fff_ffff_ffff_fc00));
    assert_eq!(t(0xb0, 9223372036854775808.0), Err(Error::Trap("integer overflow")));
    assert_eq!(t(0xb1, 18446744073709549568.0), Ok(0xffff_ffff_ffff_f800));
    assert_eq!(t(0xb1, 18446744073709551616.0), Err(Error::Trap("integer overflow")));
    assert_eq!(t(0xb1, -0.0), Ok(0));
    let s = |op: u8, x: f32| truncate(op, x.to_bits() as u64);
    assert_eq!(s(0xa8, -2147483648.0), Ok(0x8000_0000));
    assert_eq!(s(0xa8, -2147483904.0), Err(Error::Trap("integer overflow")));
    assert_eq!(s(0xa8, 2147483520.0), Ok(0x7fff_ff80));
    assert_eq!(s(0xa8, 2147483648.0), Err(Error::Trap("integer overflow")));
    assert_eq!(s(0xa9, 4294967040.0), Ok(0xffff_ff00));
    assert_eq!(s(0xa9, 4294967296.0), Err(Error::Trap("integer overflow")));
    assert_eq!(s(0xae, -9223372036854775808.0), Ok(0x8000_0000_0000_0000));
    assert_eq!(s(0xae, -9223373136366403584.0), Err(Error::Trap("integer overflow")));
    assert_eq!(s(0xaf, 18446742974197923840.0), Ok(0xffff_ff00_0000_0000));
    assert_eq!(s(0xaf, -0.99999994), Ok(0));
}

fn reference_truncate(x: f64, min: f64, max: f64) -> Result<f64, Error> {
    if x.is_nan() {
        Err(Error::Trap("invalid conversion to integer"))
    } else if x.is_infinite() || x <= min || x >= max {
        Err(Error::Trap("integer overflow"))
    } else {
        Ok(x.trunc())
    }
}

#[test]
fn truncation_agrees_with_the_floats() {
    let two63 = 9223372036854775808.0f64;
    for &a in patterns64().iter() {
        let x = f64::from_bits(a);
        assert_eq!(truncate(0xaa, a), reference_truncate(x, -2147483649.0, 2147483648.0).map(|t| t as i32 as u32 as u64), "{a:#x}");
        assert_eq!(truncate(0xab, a), reference_truncate(x, -1.0, 4294967296.0).map(|t| t as u32 as u64), "{a:#x}");
        assert_eq!(truncate(0xb0, a), reference_truncate(x, -9223372036854777856.0, two63).map(|t| t as i64 as u64), "{a:#x}");
        assert_eq!(truncate(0xb1, a), reference_truncate(x, -1.0, 2.0 * two63).map(|t| t as u64), "{a:#x}");
    }
    for &a in patterns32().iter() {
        // every f32 is an f64, and the bounds that an f32 can reach are the same
        let x = f32::from_bits(a) as f64;
        let p = a as u64 | 0xffff_ffff_0000_0000;
        assert_eq!(truncate(0xa8, p), reference_truncate(x, -2147483649.0, 2147483648.0).map(|t| t as i32 as u32 as u64), "{a:#x}");
        assert_eq!(truncate(0xa9, p), reference_truncate(x, -1.0, 4294967296.0).map(|t| t as u32 as u64), "{a:#x}");
        assert_eq!(truncate(0xae, p), reference_truncate(x, -9223372036854777856.0, two63).map(|t| t as i64 as u64), "{a:#x}");
        assert_eq!(truncate(0xaf, p), reference_truncate(x, -1.0, 2.0 * two63).map(|t| t as u64), "{a:#x}");
    }
}

#[test]
fn ceil_floor_and_trunc_agree_with_the_floats() {
    for &a in patterns32().iter() {
        let x = f32::from_bits(a);
        if x.is_nan() {
            // a NaN comes out quiet, with the rest of its bits
            for op in [0x8du8, 0x8e, 0x8f] {
                assert_eq!(round(op, a as u64), (a | 0x0040_0000) as u64, "{op:#x} {a:#x}");
            }
        } else {
            assert_eq!(round(0x8d, a as u64), x.ceil().to_bits() as u64, "ceil {a:#x}");
            assert_eq!(round(0x8e, a as u64), x.floor().to_bits() as u64, "floor {a:#x}");
            assert_eq!(round(0x8f, a as u64), x.trunc().to_bits() as u64, "trunc {a:#x}");
        }
    }
    for &a in patterns64().iter() {
        let x = f64::from_bits(a);
        if x.is_nan() {
            for op in [0x9bu8, 0x9c, 0x9d] {
                assert_eq!(round(op, a), a | 0x0008_0000_0000_0000, "{op:#x} {a:#x}");
            }
        } else {
            assert_eq!(round(0x9b, a), x.ceil().to_bits(), "ceil {a:#x}");
            assert_eq!(round(0x9c, a), x.floor().to_bits(), "floor {a:#x}");
            assert_eq!(round(0x9d, a), x.trunc().to_bits(), "trunc {a:#x}");
        }
    }
    let c = |op: u8, x: f64| f64::from_bits(round(op, x.to_bits()));
    assert_eq!(c(0x9b, 0.25), 1.0);
    assert_eq!(c(0x9b, -0.25).to_bits(), (-0.0f64).to_bits());
    assert_eq!(c(0x9c, -0.25), -1.0);
    assert_eq!(c(0x9c, 0.25).to_bits(), 0);
    assert_eq!(c(0x9d, -7.75), -7.0);
    assert_eq!(c(0x9b, 7.000001), 8.0);
    assert_eq!(c(0x9c, -7.000001), -8.0);
    assert_eq!(c(0x9b, f64::NEG_INFINITY), f64::NEG_INFINITY);
}
