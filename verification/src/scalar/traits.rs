//! The three layered scalar contracts.
//!
//! Each operation comes with a specification function of the backend that
//! gives its result, so an operation is a pure function of its arguments. A
//! few operations hold a precondition of the backend (`abs_req`, `clamp_req`
//! and those of the arithmetic operators), which marks out the backend's
//! valid domain.
use vstd::prelude::*;
use core::ops::{Add, Div, Mul, Neg, Sub};
use vstd::std_specs::ops::{AddSpec, DivSpec, MulSpec, NegSpec, SubSpec};
use vstd::std_specs::cmp::PartialEqSpec;
use crate::scalar::sealed::Sealed;

verus! {

/// Arithmetic contract: the four operations and negation through the
/// operator traits, the identities, the smallest step, and the conversions
/// from and to the binary32 interchange format, carried as its bit pattern.
pub trait Scalar: Copy + PartialEq + PartialOrd + Add<Output = Self> + Sub<Output = Self> + Mul<
    Output = Self,
> + Div<Output = Self> + Neg<Output = Self> + Sized + Sealed {
    /// The additive identity.
    spec fn zero_value() -> Self;

    /// The multiplicative identity.
    spec fn one_value() -> Self;

    /// The smallest distinguishable step.
    spec fn epsilon_value() -> Self;

    /// The backend's value for a binary32 bit pattern.
    spec fn from_f32_bits_value(bits: u32) -> Self;

    /// The binary32 bit pattern for a value of the backend.
    spec fn to_f32_bits_value(self) -> u32;

    /// The operators of the backend return what their specifications state,
    /// and `==` holds of equal values only.
    proof fn lemma_operators_obey()
        ensures
            Self::obeys_eq_spec(),
            forall|a: Self, b: Self| #[trigger] a.eq_spec(&b) <==> a == b,
            Self::obeys_add_spec(),
            Self::obeys_sub_spec(),
            Self::obeys_mul_spec(),
            Self::obeys_div_spec(),
            Self::obeys_neg_spec(),
    ;

    fn zero() -> (r: Self)
        ensures
            r == Self::zero_value(),
    ;

    fn one() -> (r: Self)
        ensures
            r == Self::one_value(),
    ;

    fn epsilon() -> (r: Self)
        ensures
            r == Self::epsilon_value(),
    ;

    /// Converts a binary32 bit pattern into the backend, by the backend's
    /// rounding policy.
    fn from_f32_bits(bits: u32) -> (r: Self)
        ensures
            r == Self::from_f32_bits_value(bits),
    ;

    /// Converts a value of the backend into a binary32 bit pattern.
    fn to_f32_bits(self) -> (bits: u32)
        ensures
            bits == self.to_f32_bits_value(),
    ;
}

/// Real-valued contract: magnitude, roots, and order selection.
pub trait RealScalar: Scalar {
    /// Whether the magnitude of the value lies in the backend's domain.
    spec fn abs_req(self) -> bool;

    spec fn abs_value(self) -> Self;

    spec fn sqrt_value(self) -> Self;

    spec fn rsqrt_value(self) -> Self;

    spec fn min_value(self, other: Self) -> Self;

    spec fn max_value(self, other: Self) -> Self;

    /// Whether the limits are ordered: `min <= max`.
    spec fn clamp_req(min: Self, max: Self) -> bool;

    spec fn clamp_value(self, min: Self, max: Self) -> Self;

    fn abs(self) -> (r: Self)
        requires
            self.abs_req(),
        ensures
            r == self.abs_value(),
    ;

    fn sqrt(self) -> (r: Self)
        ensures
            r == self.sqrt_value(),
    ;

    /// Reciprocal square root.
    fn rsqrt(self) -> (r: Self)
        ensures
            r == self.rsqrt_value(),
    ;

    fn min(self, other: Self) -> (r: Self)
        ensures
            r == self.min_value(other),
    ;

    fn max(self, other: Self) -> (r: Self)
        ensures
            r == self.max_value(other),
    ;

    /// Limits the value to `[min, max]`. The limits must be ordered.
    fn clamp(self, min: Self, max: Self) -> (r: Self)
        requires
            Self::clamp_req(min, max),
        ensures
            r == self.clamp_value(min, max),
    ;
}

/// Transcendental contract, on angles in radians.
pub trait TrigScalar: RealScalar {
    spec fn sin_value(self) -> Self;

    spec fn cos_value(self) -> Self;

    spec fn tan_value(self) -> Self;

    spec fn atan2_value(self, other: Self) -> Self;

    spec fn asin_value(self) -> Self;

    spec fn acos_value(self) -> Self;

    fn sin(self) -> (r: Self)
        ensures
            r == self.sin_value(),
    ;

    fn cos(self) -> (r: Self)
        ensures
            r == self.cos_value(),
    ;

    fn tan(self) -> (r: Self)
        ensures
            r == self.tan_value(),
    ;

    /// The angle of the point whose ordinate is `self` and whose abscissa is
    /// `other`.
    fn atan2(self, other: Self) -> (r: Self)
        ensures
            r == self.atan2_value(other),
    ;

    fn asin(self) -> (r: Self)
        ensures
            r == self.asin_value(),
    ;

    fn acos(self) -> (r: Self)
        ensures
            r == self.acos_value(),
    ;

    /// Sine and cosine of the same angle. A backend may share the range
    /// reduction between the two.
    fn sin_cos(self) -> (r: (Self, Self))
        ensures
            r.0 == self.sin_value(),
            r.1 == self.cos_value(),
    {
        (self.sin(), self.cos())
    }
}

} // verus!
