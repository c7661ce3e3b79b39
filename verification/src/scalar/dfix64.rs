//! Deterministic fixed-point backend with 16 fractional bits.
use vstd::prelude::*;
use core::ops::{Add, Div, Mul, Neg, Sub};
use vstd::std_specs::ops::{AddSpecImpl, DivSpecImpl, MulSpecImpl, NegSpecImpl, SubSpecImpl};
use vstd::std_specs::cmp::PartialEqSpecImpl;
use vstd::std_specs::convert::FromSpecImpl;
use crate::scalar::fixed::{
    acos_raw, asin_raw, atan2_raw, cos_raw, div_raw, fits_i64, fixed_acos, fixed_asin, fixed_atan2,
    fixed_cos, fixed_div, fixed_mul, fixed_rsqrt, fixed_sin, fixed_sqrt, fixed_tan, is_floor_sqrt,
    mul_raw, rsqrt_raw, sin_raw, sqrt_raw, tan_raw, FIXED_HALF_PI, FIXED_PI, FIXED_POINT_ONE,
};
use crate::scalar::float_bits::{fixed_from_bits, fixed_to_bits, from_bits_raw, to_bits_raw};
use crate::scalar::sealed::Sealed;
use crate::scalar::traits::{RealScalar, Scalar, TrigScalar};

verus! {

/// A signed 64-bit integer read with 16 fractional bits: the raw value `r`
/// stands for `r / 65536`, and `1.0` is `65536`.
#[derive(Debug, Copy, Clone, Eq, PartialOrd, Ord)]
pub struct DFix64(pub i64);

impl PartialEq for DFix64 {
    /// Two values are equal where their raw integers are.
    fn eq(&self, other: &DFix64) -> (r: bool) {
        self.0 == other.0
    }
}

impl PartialEqSpecImpl for DFix64 {
    open spec fn obeys_eq_spec() -> bool {
        true
    }

    open spec fn eq_spec(&self, other: &DFix64) -> bool {
        self.0 == other.0
    }
}

impl Sealed for DFix64 {

}

impl Default for DFix64 {
    fn default() -> (r: DFix64)
        ensures
            r.0 == 0,
    {
        DFix64(0)
    }
}

impl From<i64> for DFix64 {
    /// Wraps a raw value.
    fn from(value: i64) -> (r: DFix64) {
        DFix64(value)
    }
}

impl FromSpecImpl<i64> for DFix64 {
    open spec fn obeys_from_spec() -> bool {
        true
    }

    open spec fn from_spec(value: i64) -> DFix64 {
        DFix64(value)
    }
}

impl Add for DFix64 {
    type Output = DFix64;

    fn add(self, rhs: DFix64) -> DFix64 {
        DFix64(self.0 + rhs.0)
    }
}

impl AddSpecImpl for DFix64 {
    open spec fn obeys_add_spec() -> bool {
        true
    }

    open spec fn add_req(self, rhs: DFix64) -> bool {
        fits_i64(self.0 + rhs.0)
    }

    open spec fn add_spec(self, rhs: DFix64) -> DFix64 {
        DFix64((self.0 + rhs.0) as i64)
    }
}

impl Sub for DFix64 {
    type Output = DFix64;

    fn sub(self, rhs: DFix64) -> DFix64 {
        DFix64(self.0 - rhs.0)
    }
}

impl SubSpecImpl for DFix64 {
    open spec fn obeys_sub_spec() -> bool {
        true
    }

    open spec fn sub_req(self, rhs: DFix64) -> bool {
        fits_i64(self.0 - rhs.0)
    }

    open spec fn sub_spec(self, rhs: DFix64) -> DFix64 {
        DFix64((self.0 - rhs.0) as i64)
    }
}

impl Mul for DFix64 {
    type Output = DFix64;

    /// The exact product with its 16 lowest bits dropped.
    fn mul(self, rhs: DFix64) -> DFix64 {
        DFix64(mul_raw(self.0, rhs.0))
    }
}

impl MulSpecImpl for DFix64 {
    open spec fn obeys_mul_spec() -> bool {
        true
    }

    open spec fn mul_req(self, rhs: DFix64) -> bool {
        fits_i64(fixed_mul(self.0 as int, rhs.0 as int))
    }

    open spec fn mul_spec(self, rhs: DFix64) -> DFix64 {
        DFix64(fixed_mul(self.0 as int, rhs.0 as int) as i64)
    }
}

impl Div for DFix64 {
    type Output = DFix64;

    /// The dividend scaled by `2^16`, divided with rounding toward zero.
    fn div(self, rhs: DFix64) -> DFix64 {
        DFix64(div_raw(self.0, rhs.0))
    }
}

impl DivSpecImpl for DFix64 {
    open spec fn obeys_div_spec() -> bool {
        true
    }

    open spec fn div_req(self, rhs: DFix64) -> bool {
        rhs.0 != 0 && fits_i64(fixed_div(self.0 as int, rhs.0 as int))
    }

    open spec fn div_spec(self, rhs: DFix64) -> DFix64 {
        DFix64(fixed_div(self.0 as int, rhs.0 as int) as i64)
    }
}

impl Neg for DFix64 {
    type Output = DFix64;

    fn neg(self) -> DFix64 {
        DFix64(-self.0)
    }
}

impl NegSpecImpl for DFix64 {
    open spec fn obeys_neg_spec() -> bool {
        true
    }

    open spec fn neg_req(self) -> bool {
        self.0 != i64::MIN
    }

    open spec fn neg_spec(self) -> DFix64 {
        DFix64((-self.0) as i64)
    }
}

impl Scalar for DFix64 {
    open spec fn zero_value() -> DFix64 {
        DFix64(0)
    }

    open spec fn one_value() -> DFix64 {
        DFix64(FIXED_POINT_ONE)
    }

    open spec fn epsilon_value() -> DFix64 {
        DFix64(1)
    }

    open spec fn from_f32_bits_value(bits: u32) -> DFix64 {
        DFix64(fixed_from_bits(bits) as i64)
    }

    open spec fn to_f32_bits_value(self) -> u32 {
        fixed_to_bits(self.0 as int) as u32
    }

    proof fn lemma_operators_obey() {
    }

    fn zero() -> DFix64 {
        DFix64(0)
    }

    fn one() -> DFix64 {
        DFix64(FIXED_POINT_ONE)
    }

    /// One quantum, `1 / 65536`.
    fn epsilon() -> DFix64 {
        DFix64(1)
    }

    /// The pattern's value times `2^16`, rounded toward zero and limited to
    /// the range of the raw integer; zero for a NaN.
    fn from_f32_bits(bits: u32) -> DFix64 {
        DFix64(from_bits_raw(bits))
    }

    /// The pattern of the binary32 value nearest to the value, ties to even.
    fn to_f32_bits(self) -> u32 {
        to_bits_raw(self.0)
    }
}

impl RealScalar for DFix64 {
    open spec fn abs_req(self) -> bool {
        self.0 != i64::MIN
    }

    open spec fn abs_value(self) -> DFix64 {
        if self.0 < 0 {
            DFix64((-self.0) as i64)
        } else {
            self
        }
    }

    open spec fn sqrt_value(self) -> DFix64 {
        DFix64(fixed_sqrt(self.0 as int) as i64)
    }

    open spec fn rsqrt_value(self) -> DFix64 {
        DFix64(fixed_rsqrt(self.0 as int) as i64)
    }

    open spec fn min_value(self, other: DFix64) -> DFix64 {
        if other.0 < self.0 {
            other
        } else {
            self
        }
    }

    open spec fn max_value(self, other: DFix64) -> DFix64 {
        if other.0 > self.0 {
            other
        } else {
            self
        }
    }

    open spec fn clamp_req(min: DFix64, max: DFix64) -> bool {
        min.0 <= max.0
    }

    open spec fn clamp_value(self, min: DFix64, max: DFix64) -> DFix64 {
        if self.0 < min.0 {
            min
        } else if self.0 > max.0 {
            max
        } else {
            self
        }
    }

    fn abs(self) -> DFix64 {
        if self.0 < 0 {
            DFix64(-self.0)
        } else {
            self
        }
    }

    /// The square root of the value, rounded down to a quantum; zero for a
    /// negative value.
    fn sqrt(self) -> (r: DFix64)
        ensures
            r.0 >= 0,
            self.0 <= 0 ==> r.0 == 0,
            self.0 > 0 ==> is_floor_sqrt(self.0 * 65536, r.0 as int),
    {
        DFix64(sqrt_raw(self.0))
    }

    /// `1.0` divided by the square root; zero where the value is not
    /// positive.
    fn rsqrt(self) -> (r: DFix64)
        ensures
            0 <= r.0 <= 0x100_0000,
    {
        DFix64(rsqrt_raw(self.0))
    }

    fn min(self, other: DFix64) -> DFix64 {
        if other.0 < self.0 {
            other
        } else {
            self
        }
    }

    fn max(self, other: DFix64) -> DFix64 {
        if other.0 > self.0 {
            other
        } else {
            self
        }
    }

    fn clamp(self, min: DFix64, max: DFix64) -> DFix64 {
        if self.0 < min.0 {
            min
        } else if self.0 > max.0 {
            max
        } else {
            self
        }
    }
}

impl TrigScalar for DFix64 {
    open spec fn sin_value(self) -> DFix64 {
        DFix64(fixed_sin(self.0 as int) as i64)
    }

    open spec fn cos_value(self) -> DFix64 {
        DFix64(fixed_cos(self.0 as int) as i64)
    }

    open spec fn tan_value(self) -> DFix64 {
        DFix64(fixed_tan(self.0 as int) as i64)
    }

    open spec fn atan2_value(self, other: DFix64) -> DFix64 {
        DFix64(fixed_atan2(self.0 as int, other.0 as int) as i64)
    }

    open spec fn asin_value(self) -> DFix64 {
        DFix64(fixed_asin(self.0 as int) as i64)
    }

    open spec fn acos_value(self) -> DFix64 {
        DFix64(fixed_acos(self.0 as int) as i64)
    }

    /// Sine by the Taylor polynomials of sine and cosine on each eighth of
    /// a turn; exact at the quarter turns.
    fn sin(self) -> (r: DFix64)
        ensures
            -FIXED_POINT_ONE <= r.0 <= FIXED_POINT_ONE,
    {
        DFix64(sin_raw(self.0))
    }

    /// Cosine: the sine a quarter turn ahead.
    fn cos(self) -> (r: DFix64)
        ensures
            -FIXED_POINT_ONE <= r.0 <= FIXED_POINT_ONE,
    {
        DFix64(cos_raw(self.0))
    }

    /// Sine divided by cosine; the largest value with the sine's sign
    /// where the cosine is zero.
    fn tan(self) -> DFix64 {
        DFix64(tan_raw(self.0))
    }

    /// The angle of the point `(other, self)`, in `[-pi, pi]`; zero at the
    /// origin.
    fn atan2(self, other: DFix64) -> (r: DFix64)
        ensures
            -FIXED_PI <= r.0 <= FIXED_PI,
    {
        DFix64(atan2_raw(self.0, other.0))
    }

    /// Arcsine of the value limited to `[-1.0, 1.0]`, in `[-pi / 2, pi / 2]`.
    fn asin(self) -> (r: DFix64)
        ensures
            -FIXED_HALF_PI <= r.0 <= FIXED_HALF_PI,
    {
        DFix64(asin_raw(self.0))
    }

    /// Arccosine of the value limited to `[-1.0, 1.0]`, in `[0, pi]`.
    fn acos(self) -> (r: DFix64)
        ensures
            0 <= r.0 <= FIXED_PI,
    {
        DFix64(acos_raw(self.0))
    }
}

} // verus!
