use echo_math::scalar::dfix64::DFix64;
use echo_math::scalar::fixed::{
    isqrt, FIXED_HALF_PI, FIXED_PI, FIXED_POINT_ONE, FIXED_POINT_SHIFT, FIXED_QUARTER_PI,
    FIXED_TWO_PI,
};
use echo_math::scalar::traits::{RealScalar, Scalar, TrigScalar};

const ONE: i64 = 65536;

#[test]
fn identities_and_step() {
    assert_eq!(DFix64::zero(), DFix64(0));
    assert_eq!(DFix64::one(), DFix64(65536));
    assert_eq!(DFix64::one().0, FIXED_POINT_ONE);
    assert_eq!(1i64 << FIXED_POINT_SHIFT, FIXED_POINT_ONE);
    assert_eq!(DFix64::epsilon(), DFix64(1));
    assert_eq!(DFix64::default(), DFix64(0));
    assert_eq!(DFix64::from(42i64), DFix64(42));
}

#[test]
fn one_times_one_is_one() {
    assert_eq!(DFix64::one() * DFix64::one(), DFix64::one());
}

#[test]
fn addition_subtraction_negation() {
    assert_eq!(DFix64(3 * ONE) + DFix64(ONE / 2), DFix64(229_376));
    assert_eq!(DFix64(3 * ONE) - DFix64(5 * ONE), DFix64(-2 * ONE));
    assert_eq!(-DFix64(7), DFix64(-7));
    assert_eq!(DFix64(i64::MAX - 1) + DFix64(1), DFix64(i64::MAX));
}

#[test]
fn multiplication_drops_the_low_bits_toward_negative_infinity() {
    assert_eq!(DFix64(3 * ONE) * DFix64(ONE / 2), DFix64(98_304));
    assert_eq!(DFix64(-7) * DFix64(3), DFix64(-1));
    assert_eq!(DFix64(-5) * DFix64(32_768), DFix64(-3));
    assert_eq!(DFix64(7) * DFix64(3), DFix64(0));
    // The exact product needs more than 64 bits; the result does not.
    assert_eq!(DFix64(1 << 40) * DFix64(1 << 30), DFix64(1 << 54));
}

#[test]
fn division_rounds_toward_zero() {
    assert_eq!(DFix64(7 * ONE) / DFix64(2 * ONE), DFix64(229_376));
    assert_eq!(DFix64(-7 * ONE) / DFix64(2 * ONE), DFix64(-229_376));
    assert_eq!(DFix64(-3) / DFix64(2 * ONE), DFix64(-1));
    assert_eq!(DFix64(ONE) / DFix64(3 * ONE), DFix64(21_845));
    assert_eq!(DFix64(ONE) / DFix64(-3 * ONE), DFix64(-21_845));
    assert_eq!(DFix64(1 << 50) / DFix64(ONE), DFix64(1 << 50));
}

#[test]
fn product_divided_by_factor_recovers_within_one_quantum() {
    let factors = [ONE, -ONE, 3 * ONE, 65_535, -65_535, 200_000, 1 << 40, -(1 << 33) + 5];
    let values = [0i64, 1, -1, 3, 65_535, -65_537, 123_456_789, -987_654_321];
    for b in factors {
        for a in values {
            let back = (DFix64(a) * DFix64(b)) / DFix64(b);
            assert!((back.0 - a).abs() <= 1, "a = {a}, b = {b}");
        }
    }
}

#[test]
fn a_small_factor_can_lose_more_than_one_quantum() {
    let back = (DFix64(3) * DFix64(32_769)) / DFix64(32_769);
    assert_eq!(back, DFix64(1));
}

#[test]
fn magnitude_and_order_selection() {
    assert_eq!(DFix64(-5).abs(), DFix64(5));
    assert_eq!(DFix64(5).abs(), DFix64(5));
    assert_eq!(RealScalar::min(DFix64(3), DFix64(-4)), DFix64(-4));
    assert_eq!(RealScalar::max(DFix64(3), DFix64(-4)), DFix64(3));
    assert_eq!(RealScalar::clamp(DFix64(10), DFix64(-1), DFix64(4)), DFix64(4));
    assert_eq!(RealScalar::clamp(DFix64(-10), DFix64(-1), DFix64(4)), DFix64(-1));
    assert_eq!(RealScalar::clamp(DFix64(2), DFix64(-1), DFix64(4)), DFix64(2));
    assert_eq!(RealScalar::clamp(DFix64(2), DFix64(2), DFix64(2)), DFix64(2));
}

#[test]
fn square_roots() {
    assert_eq!(DFix64(0).sqrt(), DFix64(0));
    assert_eq!(DFix64(1).sqrt(), DFix64(256));
    assert_eq!(DFix64(ONE).sqrt(), DFix64(ONE));
    assert_eq!(DFix64(4 * ONE).sqrt(), DFix64(2 * ONE));
    assert_eq!(DFix64(2 * ONE).sqrt(), DFix64(92_681));
    assert_eq!(DFix64(-5).sqrt(), DFix64(0));
    assert_eq!(DFix64(i64::MAX).sqrt(), DFix64(777_472_127_993));
    assert_eq!(isqrt(0), 0);
    assert_eq!(isqrt(15), 3);
    assert_eq!(isqrt(16), 4);
    assert_eq!(isqrt((1u128 << 80) - 1), (1u64 << 40) - 1);
}

#[test]
fn reciprocal_square_roots() {
    assert_eq!(DFix64(4 * ONE).rsqrt(), DFix64(32_768));
    assert_eq!(DFix64(ONE).rsqrt(), DFix64(ONE));
    assert_eq!(DFix64(2 * ONE).rsqrt(), DFix64(46_341));
    assert_eq!(DFix64(1).rsqrt(), DFix64(16_777_216));
    assert_eq!(DFix64(16_384).rsqrt(), DFix64(131_072));
    assert_eq!(DFix64(0).rsqrt(), DFix64(0));
    assert_eq!(DFix64(-5).rsqrt(), DFix64(0));
}

#[test]
fn angle_constants_are_multiples_of_the_quarter_turn() {
    assert_eq!(FIXED_PI, 2 * FIXED_HALF_PI);
    assert_eq!(FIXED_TWO_PI, 4 * FIXED_HALF_PI);
    assert_eq!(FIXED_HALF_PI, 2 * FIXED_QUARTER_PI);
}

#[test]
fn sine_and_cosine() {
    assert_eq!(DFix64(0).sin(), DFix64(0));
    assert_eq!(DFix64(0).cos(), DFix64(ONE));
    assert_eq!(DFix64(FIXED_HALF_PI).sin(), DFix64(ONE));
    assert_eq!(DFix64(FIXED_HALF_PI).cos(), DFix64(0));
    assert_eq!(DFix64(FIXED_PI).sin(), DFix64(0));
    assert_eq!(DFix64(FIXED_PI).cos(), DFix64(-ONE));
    assert_eq!(DFix64(3 * FIXED_HALF_PI).sin(), DFix64(-ONE));
    assert_eq!(DFix64(34_315).sin(), DFix64(32_768));
    assert_eq!(DFix64(-34_315).sin(), DFix64(-32_768));
    assert_eq!(DFix64(34_315).cos(), DFix64(56_756));
    assert_eq!(DFix64(-34_315).cos(), DFix64(56_756));
    assert_eq!(DFix64(ONE).sin(), DFix64(55_147));
    assert_eq!(DFix64(ONE).cos(), DFix64(35_409));
    assert_eq!(DFix64(1_000_000).sin(), DFix64(28_459));
    assert_eq!(DFix64(-1_000_000).sin(), DFix64(-28_459));
    assert_eq!(DFix64(1_000_000).cos(), DFix64(-59_034));
    assert_eq!(DFix64(FIXED_TWO_PI + FIXED_HALF_PI).sin(), DFix64(ONE));
    assert_eq!(DFix64(ONE).sin_cos(), (DFix64(55_147), DFix64(35_409)));
    assert_eq!(DFix64(FIXED_QUARTER_PI).sin(), DFix64(46_341));
    assert_eq!(DFix64(FIXED_QUARTER_PI).cos(), DFix64(46_341));
}

#[test]
fn sine_and_cosine_stay_within_one() {
    let mut a: i64 = -3_000_000;
    while a < 3_000_000 {
        let s = DFix64(a).sin().0;
        let c = DFix64(a).cos().0;
        assert!(-ONE <= s && s <= ONE);
        assert!(-ONE <= c && c <= ONE);
        let exact = ((a as f64) / 65536.0).sin();
        assert!(((s as f64) / 65536.0 - exact).abs() < 0.0003);
        let turned = ((a as f64) / 65536.0).cos();
        assert!(((c as f64) / 65536.0 - turned).abs() < 0.0003);
        a += 997;
    }
    assert!(DFix64(i64::MIN).sin().0.abs() <= ONE);
    assert!(DFix64(i64::MAX).cos().0.abs() <= ONE);
}

#[test]
fn inverse_functions_stay_close_to_the_real_ones() {
    let mut a: i64 = -65_536;
    while a <= 65_536 {
        let exact = ((a as f64) / 65536.0).asin();
        let got = (DFix64(a).asin().0 as f64) / 65536.0;
        assert!((got - exact).abs() < 0.0005, "asin at {a}");
        let turned = (DFix64(a).acos().0 as f64) / 65536.0;
        assert!((turned - ((a as f64) / 65536.0).acos()).abs() < 0.0005, "acos at {a}");
        a += 331;
    }
    let mut y: i64 = -200_000;
    while y <= 200_000 {
        let mut x: i64 = -200_000;
        while x <= 200_000 {
            let exact = (y as f64).atan2(x as f64);
            let got = (DFix64(y).atan2(DFix64(x)).0 as f64) / 65536.0;
            let apart = (got - exact).abs();
            // The two ends of the range meet on the negative abscissa.
            assert!(apart < 0.0005 || (apart - 2.0 * core::f64::consts::PI).abs() < 0.0005);
            x += 19_993;
        }
        y += 19_997;
    }
}

#[test]
fn tangent() {
    assert_eq!(DFix64(0).tan(), DFix64(0));
    assert_eq!(DFix64(FIXED_QUARTER_PI).tan(), DFix64(ONE));
    assert_eq!(DFix64(34_315).tan(), DFix64(37_837));
    assert_eq!(DFix64(-34_315).tan(), DFix64(-37_837));
    assert_eq!(DFix64(ONE).tan(), DFix64(102_067));
    assert_eq!(DFix64(FIXED_HALF_PI).tan(), DFix64(i64::MAX));
    assert_eq!(DFix64(-FIXED_HALF_PI).tan(), DFix64(i64::MIN));
    assert_eq!(DFix64(3 * FIXED_HALF_PI).tan(), DFix64(i64::MIN));
}

#[test]
fn arctangent_of_two_arguments() {
    assert_eq!(DFix64(ONE).atan2(DFix64(ONE)), DFix64(FIXED_QUARTER_PI));
    assert_eq!(DFix64(ONE).atan2(DFix64(0)), DFix64(FIXED_HALF_PI));
    assert_eq!(DFix64(0).atan2(DFix64(-ONE)), DFix64(FIXED_PI));
    assert_eq!(DFix64(-ONE).atan2(DFix64(-ONE)), DFix64(-154_416));
    assert_eq!(DFix64(0).atan2(DFix64(0)), DFix64(0));
    assert_eq!(DFix64(0).atan2(DFix64(5)), DFix64(0));
    assert_eq!(DFix64(32_768).atan2(DFix64(ONE)), DFix64(30_385));
    assert_eq!(DFix64(ONE).atan2(DFix64(32_768)), DFix64(72_559));
    assert_eq!(DFix64(-3).atan2(DFix64(7)), DFix64(-26_534));
    let r = DFix64(i64::MIN).atan2(DFix64(i64::MIN)).0;
    assert_eq!(r, -154_416);
}

#[test]
fn arcsine_and_arccosine() {
    assert_eq!(DFix64(0).asin(), DFix64(0));
    assert_eq!(DFix64(ONE).asin(), DFix64(FIXED_HALF_PI));
    assert_eq!(DFix64(-ONE).asin(), DFix64(-FIXED_HALF_PI));
    assert_eq!(DFix64(32_768).asin(), DFix64(34_313));
    assert_eq!(DFix64(-32_768).asin(), DFix64(-34_313));
    assert_eq!(DFix64(100_000).asin(), DFix64(FIXED_HALF_PI));
    assert_eq!(DFix64(46_341).asin(), DFix64(51_476));
    assert_eq!(DFix64(0).acos(), DFix64(FIXED_HALF_PI));
    assert_eq!(DFix64(ONE).acos(), DFix64(0));
    assert_eq!(DFix64(-ONE).acos(), DFix64(FIXED_PI));
    assert_eq!(DFix64(32_768).acos(), DFix64(68_631));
    assert_eq!(DFix64(-32_768).acos(), DFix64(137_257));
}
