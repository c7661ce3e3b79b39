//! Laws of the fixed-point backend, stated over its operations.
use vstd::prelude::*;
use vstd::std_specs::ops::{DivSpec, MulSpec};
use crate::angle::RADIANS_PER_DEGREE_BITS;
use crate::scalar::dfix64::DFix64;
use crate::scalar::fixed::{fits_i64, lemma_mul_div_recovers, magnitude, recovery_loss};
use crate::scalar::float_bits::{
    bits_exponent, bits_fraction, fixed_round_trip, scaled_magnitude, lemma_round_trip_exact, lemma_round_trip_value,
    lemma_round_trip_within_quantum,
};
use crate::scalar::traits::Scalar;

verus! {

/// `1.0` times `1.0` is `1.0`, and `1.0` is a neutral factor on either side.
pub proof fn lemma_one_is_neutral(a: DFix64)
    ensures
        DFix64::one_value().mul_req(DFix64::one_value()),
        DFix64::one_value().mul_spec(DFix64::one_value()) == DFix64::one_value(),
        a.mul_req(DFix64::one_value()),
        a.mul_spec(DFix64::one_value()) == a,
        DFix64::one_value().mul_spec(a) == a,
{
    assert(a.0 * 65536 == 65536 * a.0) by (nonlinear_arith);
}

/// Dividing a product by its second factor recovers the first factor within
/// one quantum wherever the recovery loss of the two is at most one, which
/// holds for every second factor of magnitude `1.0` or more. The product
/// and the quotient must lie in the backend's domain.
pub proof fn lemma_product_quotient_recovers(a: DFix64, b: DFix64)
    requires
        a.mul_req(b),
        a.mul_spec(b).div_req(b),
        recovery_loss(a.0 as int, b.0 as int) <= 1,
    ensures
        -1 <= a.mul_spec(b).div_spec(b).0 - a.0 <= 1,
        magnitude(b.0 as int) >= 65536 ==> recovery_loss(a.0 as int, b.0 as int) <= 1,
{
    lemma_mul_div_recovers(a.0 as int, b.0 as int);
}

/// A quotient by a second factor of magnitude `1.0` or more recovers the
/// first factor of a product within one quantum.
pub proof fn lemma_product_quotient_recovers_wide(a: DFix64, b: DFix64)
    requires
        a.mul_req(b),
        a.mul_spec(b).div_req(b),
        b.0 >= 65536 || b.0 <= -65536,
    ensures
        -1 <= a.mul_spec(b).div_spec(b).0 - a.0 <= 1,
{
    lemma_mul_div_recovers(a.0 as int, b.0 as int);
}

/// Converting a value to a bit pattern and back rounds it to 24 significant
/// bits. The value comes back unchanged where it has at most 24 significant
/// bits, and within one quantum exactly where the rounding moves it by at
/// most one quantum, which holds for every value below `2^25` in magnitude.
pub proof fn lemma_bits_round_trip(a: DFix64)
    ensures
        DFix64::from_f32_bits_value(a.to_f32_bits_value()).0 == fixed_round_trip(a.0 as int),
        -0x100_0000 < a.0 < 0x100_0000 ==> DFix64::from_f32_bits_value(a.to_f32_bits_value())
            == a,
        -0x200_0000 < a.0 < 0x200_0000 ==> -1 <= DFix64::from_f32_bits_value(
            a.to_f32_bits_value(),
        ).0 - a.0 <= 1,
{
    lemma_round_trip_value(a.0 as int);
    if -0x200_0000 < a.0 < 0x200_0000 {
        lemma_round_trip_within_quantum(a.0 as int);
    }
    if -0x100_0000 < a.0 < 0x100_0000 {
        lemma_round_trip_exact(a.0 as int);
    }
}

/// The fixed-point value of `pi / 180` is `1143` quanta, so an angle in
/// degrees becomes radians by the raw product with `1143`.
pub proof fn lemma_radians_per_degree(degrees: DFix64)
    ensures
        DFix64::from_f32_bits_value(RADIANS_PER_DEGREE_BITS) == DFix64(1143),
        degrees.mul_req(DFix64::from_f32_bits_value(RADIANS_PER_DEGREE_BITS)) <==> fits_i64(
            (degrees.0 * 1143) / 65536,
        ),
        degrees.mul_spec(DFix64::from_f32_bits_value(RADIANS_PER_DEGREE_BITS)).0 == ((degrees.0
            * 1143) / 65536) as i64,
{
    vstd::arithmetic::power2::lemma2_to64();
    let bits = RADIANS_PER_DEGREE_BITS;
    assert(bits_exponent(bits) == 121);
    assert(bits_fraction(bits) == 0x0e_fa35);
    assert(scaled_magnitude(bits) == 0x8e_fa35int / 8192);
}

} // verus!
