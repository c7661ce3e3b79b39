use echo_math::scalar::dfix64::DFix64;
use echo_math::scalar::float_bits::{floor_log2_u64, from_bits_raw, pow2_u64, to_bits_raw};
use echo_math::scalar::traits::Scalar;

fn sample_floats() -> Vec<f32> {
    let mut out = vec![
        0.0f32,
        -0.0,
        1.0,
        -1.0,
        0.5,
        1.5,
        -2.75,
        0.017_453_292,
        1.0 / 65536.0,
        0.9 / 65536.0,
        -1.9 / 65536.0,
        3.999_99,
        16_777_216.0,
        16_777_217.0,
        1.0e9,
        -1.0e9,
        1.0e14,
        140_737_488_355_328.0,
        -140_737_488_355_328.0,
        140_737_479_966_720.0,
        1.0e20,
        -1.0e20,
        f32::MAX,
        f32::MIN,
        f32::MIN_POSITIVE,
        f32::EPSILON,
        f32::INFINITY,
        f32::NEG_INFINITY,
        f32::NAN,
        f32::from_bits(1),
        f32::from_bits(0x007f_ffff),
    ];
    let mut word: u32 = 0x1234_5678;
    for _ in 0..20_000 {
        word = word.wrapping_mul(1_664_525).wrapping_add(1_013_904_223);
        out.push(f32::from_bits(word));
    }
    out
}

#[test]
fn from_bits_matches_the_scaled_and_truncated_float() {
    for x in sample_floats() {
        let expected = (x * 65536.0) as i64;
        assert_eq!(from_bits_raw(x.to_bits()), expected, "x = {x:?}");
        assert_eq!(DFix64::from_f32_bits(x.to_bits()), DFix64(expected));
    }
}

#[test]
fn from_bits_exact_values() {
    assert_eq!(from_bits_raw(0x3f80_0000), 65_536);
    assert_eq!(from_bits_raw(0xbf80_0000), -65_536);
    assert_eq!(from_bits_raw(0x3c8e_fa35), 1_143);
    assert_eq!(from_bits_raw(0x7f80_0000), i64::MAX);
    assert_eq!(from_bits_raw(0xff80_0000), i64::MIN);
    assert_eq!(from_bits_raw(0x7fc0_0000), 0);
    assert_eq!(from_bits_raw(0xd700_0000), i64::MIN);
    assert_eq!(from_bits_raw(0x5700_0000), i64::MAX);
    assert_eq!(from_bits_raw(0x56ff_ffff), 0x7fff_ff80_0000_0000);
}

#[test]
fn to_bits_matches_the_converted_and_scaled_float() {
    let mut values: Vec<i64> = vec![
        0,
        1,
        -1,
        2,
        3,
        65_535,
        65_536,
        -65_536,
        98_304,
        1_143,
        (1 << 24) - 1,
        1 << 24,
        (1 << 24) + 1,
        (1 << 24) + 2,
        (1 << 24) + 3,
        (1 << 25) + 2,
        (1 << 25) + 6,
        (1 << 26) + 4,
        (1 << 26) + 12,
        (1 << 26) + 5,
        (1 << 40) - 1,
        i64::MAX,
        i64::MAX - 1,
        i64::MIN,
        i64::MIN + 1,
        0x7fff_ff80_0000_0000,
        0x7fff_ffbf_ffff_ffff,
        0x7fff_ffc0_0000_0000,
        0x7fff_ff40_0000_0000,
    ];
    let mut word: u64 = 0x9e37_79b9_7f4a_7c15;
    for _ in 0..20_000 {
        word = word.wrapping_mul(6_364_136_223_846_793_005).wrapping_add(1_442_695_040_888_963_407);
        let shift = (word >> 58) as u32;
        values.push((word as i64) >> shift);
    }
    for v in values {
        let expected = ((v as f32) / 65536.0).to_bits();
        assert_eq!(to_bits_raw(v), expected, "v = {v}");
        assert_eq!(DFix64(v).to_f32_bits(), expected);
    }
}

#[test]
fn to_bits_exact_values() {
    assert_eq!(to_bits_raw(0), 0);
    assert_eq!(to_bits_raw(65_536), 0x3f80_0000);
    assert_eq!(to_bits_raw(-65_536), 0xbf80_0000);
    assert_eq!(to_bits_raw(1), 0x3780_0000);
    assert_eq!(to_bits_raw(98_304), 0x3fc0_0000);
}

#[test]
fn round_trip_from_a_float_loses_less_than_one_quantum() {
    for x in sample_floats() {
        if !x.is_finite() || x.abs() >= 1.0e6 {
            continue;
        }
        let back = f32::from_bits(DFix64::from_f32_bits(x.to_bits()).to_f32_bits());
        assert!((f64::from(back) - f64::from(x)).abs() < 1.0 / 65536.0, "x = {x:?}");
    }
}

#[test]
fn round_trip_from_a_fixed_value_is_exact_up_to_24_bits() {
    let mut v: i64 = -(1 << 24);
    while v <= (1 << 24) {
        assert_eq!(DFix64::from_f32_bits(DFix64(v).to_f32_bits()), DFix64(v));
        v += 4_099;
    }
    assert_eq!(DFix64::from_f32_bits(DFix64(1 << 24).to_f32_bits()), DFix64(1 << 24));
    // From 2^25 on the kept bits are four quanta apart, and a tie goes to the
    // even significand.
    let tie = DFix64((1 << 25) + 2);
    assert_eq!(DFix64::from_f32_bits(tie.to_f32_bits()), DFix64(1 << 25));
    for v in [(1i64 << 24) + 1, (1 << 24) + 3, (1 << 25) - 1, -(1 << 25) + 1] {
        let back = DFix64::from_f32_bits(DFix64(v).to_f32_bits());
        assert!((back.0 - v).abs() <= 1);
    }
    let wide = DFix64((1 << 26) + 12);
    assert_eq!(DFix64::from_f32_bits(wide.to_f32_bits()), DFix64((1 << 26) + 16));
}

#[test]
fn powers_and_logarithms_of_two() {
    assert_eq!(pow2_u64(0), 1);
    assert_eq!(pow2_u64(10), 1024);
    assert_eq!(pow2_u64(63), 1 << 63);
    assert_eq!(floor_log2_u64(1), 0);
    assert_eq!(floor_log2_u64(2), 1);
    assert_eq!(floor_log2_u64(3), 1);
    assert_eq!(floor_log2_u64(1 << 40), 40);
    assert_eq!(floor_log2_u64(u64::MAX), 63);
}
