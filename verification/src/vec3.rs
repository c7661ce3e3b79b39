//! Three-component vectors over any scalar backend.
use vstd::prelude::*;
use core::ops::{Add, Mul, Sub};
use vstd::std_specs::ops::{
    AddSpec, AddSpecImpl, DivSpec, MulSpec, MulSpecImpl, SubSpec, SubSpecImpl,
};
use crate::scalar::traits::{RealScalar, Scalar};

verus! {

#[derive(Copy, Clone, Debug, PartialEq)]
pub struct Vec3<T: Scalar> {
    pub x: T,
    pub y: T,
    pub z: T,
}

impl<T: Scalar> Vec3<T> {
    /// Whether the products and sums of the dot product with `other` lie in
    /// the backend's domain.
    pub open spec fn dot_req(self, other: Self) -> bool {
        &&& self.x.mul_req(other.x)
        &&& self.y.mul_req(other.y)
        &&& self.z.mul_req(other.z)
        &&& self.x.mul_spec(other.x).add_req(self.y.mul_spec(other.y))
        &&& self.x.mul_spec(other.x).add_spec(self.y.mul_spec(other.y)).add_req(
            self.z.mul_spec(other.z),
        )
    }

    /// The dot product: the three products of components, added from left
    /// to right.
    pub open spec fn dot_value(self, other: Self) -> T {
        self.x.mul_spec(other.x).add_spec(self.y.mul_spec(other.y)).add_spec(
            self.z.mul_spec(other.z),
        )
    }

    /// Whether each component times `k` lies in the backend's domain.
    pub open spec fn scale_req(self, k: T) -> bool {
        self.x.mul_req(k) && self.y.mul_req(k) && self.z.mul_req(k)
    }

    /// The vector with each component multiplied by `k`.
    pub open spec fn scaled(self, k: T) -> Self {
        Vec3 { x: self.x.mul_spec(k), y: self.y.mul_spec(k), z: self.z.mul_spec(k) }
    }

    pub fn new(x: T, y: T, z: T) -> (v: Self)
        ensures
            v.x == x,
            v.y == y,
            v.z == z,
    {
        Self { x, y, z }
    }

    /// The vector whose three components are `v`.
    pub fn splat(v: T) -> (r: Self)
        ensures
            r.x == v,
            r.y == v,
            r.z == v,
    {
        Self { x: v, y: v, z: v }
    }

    pub fn dot(&self, other: &Self) -> (r: T)
        requires
            self.dot_req(*other),
        ensures
            r == self.dot_value(*other),
    {
        proof {
            T::lemma_operators_obey();
        }
        self.x * other.x + self.y * other.y + self.z * other.z
    }
}

impl<T: Scalar> Add for Vec3<T> {
    type Output = Vec3<T>;

    fn add(self, rhs: Vec3<T>) -> Vec3<T> {
        proof {
            T::lemma_operators_obey();
        }
        Vec3::new(self.x + rhs.x, self.y + rhs.y, self.z + rhs.z)
    }
}

impl<T: Scalar> AddSpecImpl for Vec3<T> {
    open spec fn obeys_add_spec() -> bool {
        true
    }

    open spec fn add_req(self, rhs: Vec3<T>) -> bool {
        self.x.add_req(rhs.x) && self.y.add_req(rhs.y) && self.z.add_req(rhs.z)
    }

    open spec fn add_spec(self, rhs: Vec3<T>) -> Vec3<T> {
        Vec3 { x: self.x.add_spec(rhs.x), y: self.y.add_spec(rhs.y), z: self.z.add_spec(rhs.z) }
    }
}

impl<T: Scalar> Sub for Vec3<T> {
    type Output = Vec3<T>;

    fn sub(self, rhs: Vec3<T>) -> Vec3<T> {
        proof {
            T::lemma_operators_obey();
        }
        Vec3::new(self.x - rhs.x, self.y - rhs.y, self.z - rhs.z)
    }
}

impl<T: Scalar> SubSpecImpl for Vec3<T> {
    open spec fn obeys_sub_spec() -> bool {
        true
    }

    open spec fn sub_req(self, rhs: Vec3<T>) -> bool {
        self.x.sub_req(rhs.x) && self.y.sub_req(rhs.y) && self.z.sub_req(rhs.z)
    }

    open spec fn sub_spec(self, rhs: Vec3<T>) -> Vec3<T> {
        Vec3 { x: self.x.sub_spec(rhs.x), y: self.y.sub_spec(rhs.y), z: self.z.sub_spec(rhs.z) }
    }
}

impl<T: Scalar> Mul<T> for Vec3<T> {
    type Output = Vec3<T>;

    /// Scales each component by `rhs`.
    fn mul(self, rhs: T) -> Vec3<T> {
        proof {
            T::lemma_operators_obey();
        }
        Vec3::new(self.x * rhs, self.y * rhs, self.z * rhs)
    }
}

impl<T: Scalar> MulSpecImpl<T> for Vec3<T> {
    open spec fn obeys_mul_spec() -> bool {
        true
    }

    open spec fn mul_req(self, rhs: T) -> bool {
        self.scale_req(rhs)
    }

    open spec fn mul_spec(self, rhs: T) -> Vec3<T> {
        self.scaled(rhs)
    }
}

impl<T: RealScalar> Vec3<T> {
    /// The squared length: the dot product of the vector with itself.
    pub fn length_sq(&self) -> (r: T)
        requires
            self.dot_req(*self),
        ensures
            r == self.dot_value(*self),
    {
        self.dot(self)
    }

    /// The length: the backend's square root of the squared length.
    pub fn length(&self) -> (r: T)
        requires
            self.dot_req(*self),
        ensures
            r == self.dot_value(*self).sqrt_value(),
    {
        self.length_sq().sqrt()
    }

    /// The vector scaled by the reciprocal of its length; the vector itself
    /// where its length is zero.
    pub fn normalize(&self) -> (r: Self)
        requires
            self.dot_req(*self),
            self.dot_value(*self).sqrt_value() != T::zero_value() ==> T::one_value().div_req(
                self.dot_value(*self).sqrt_value(),
            ) && self.scale_req(T::one_value().div_spec(self.dot_value(*self).sqrt_value())),
        ensures
            r == if self.dot_value(*self).sqrt_value() == T::zero_value() {
                *self
            } else {
                self.scaled(T::one_value().div_spec(self.dot_value(*self).sqrt_value()))
            },
    {
        proof {
            T::lemma_operators_obey();
        }
        let len = self.length();
        if len == T::zero() {
            *self
        } else {
            *self * (T::one() / len)
        }
    }
}

} // verus!
