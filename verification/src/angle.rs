//! Angles tagged with their unit, over any backend with transcendental
//! operations.
use vstd::prelude::*;
use core::marker::PhantomData;
use vstd::std_specs::ops::MulSpec;
use crate::scalar::traits::TrigScalar;

verus! {

/// Unit tag: radians. Only the type is used; its one value carries nothing.
pub enum Rad {
    Radians,
}

/// Unit tag: degrees. Only the type is used; its one value carries nothing.
pub enum Deg {
    Degrees,
}

/// Binary32 bit pattern of `pi / 180`, the number of radians in a degree.
pub const RADIANS_PER_DEGREE_BITS: u32 = 0x3c8e_fa35;

/// A scalar that measures an angle in the unit `U`.
pub struct Angle<T: TrigScalar, U> {
    value: T,
    _unit: PhantomData<U>,
}

pub type RadAngle<T> = Angle<T, Rad>;

pub type DegAngle<T> = Angle<T, Deg>;

impl<T: TrigScalar, U> Angle<T, U> {
    /// The measure of the angle in its unit.
    pub closed spec fn measure(self) -> T {
        self.value
    }
}

impl<T: TrigScalar> RadAngle<T> {
    pub fn from_radians(r: T) -> (a: Self)
        ensures
            a.measure() == r,
    {
        Angle { value: r, _unit: PhantomData }
    }

    pub fn to_radians(self) -> (r: T)
        ensures
            r == self.measure(),
    {
        self.value
    }

    pub fn sin(self) -> (r: T)
        ensures
            r == self.measure().sin_value(),
    {
        self.value.sin()
    }

    pub fn cos(self) -> (r: T)
        ensures
            r == self.measure().cos_value(),
    {
        self.value.cos()
    }

    pub fn tan(self) -> (r: T)
        ensures
            r == self.measure().tan_value(),
    {
        self.value.tan()
    }
}

impl<T: TrigScalar> DegAngle<T> {
    pub fn from_degrees(d: T) -> (a: Self)
        ensures
            a.measure() == d,
    {
        Angle { value: d, _unit: PhantomData }
    }

    pub fn to_degrees(self) -> (d: T)
        ensures
            d == self.measure(),
    {
        self.value
    }

    /// The same angle in radians: the measure in degrees times the backend's
    /// value for `pi / 180`. The product must lie in the backend's domain.
    pub fn to_radians(self) -> (a: RadAngle<T>)
        requires
            self.measure().mul_req(T::from_f32_bits_value(RADIANS_PER_DEGREE_BITS)),
        ensures
            a.measure() == self.measure().mul_spec(T::from_f32_bits_value(RADIANS_PER_DEGREE_BITS)),
    {
        proof {
            T::lemma_operators_obey();
        }
        let k = T::from_f32_bits(RADIANS_PER_DEGREE_BITS);
        RadAngle::from_radians(self.value * k)
    }
}

} // verus!
