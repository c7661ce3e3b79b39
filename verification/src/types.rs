//! Points and directions, kept apart by type: a point moves by a direction,
//! two points differ by a direction, and a direction scales.
use vstd::prelude::*;
use core::ops::{Add, Mul, Sub};
use vstd::std_specs::ops::{AddSpec, AddSpecImpl, MulSpec, MulSpecImpl, SubSpec, SubSpecImpl};
use crate::scalar::traits::Scalar;
use crate::vec3::Vec3;

verus! {

/// A position in space.
#[derive(Copy, Clone, Debug, PartialEq)]
pub struct Point3<T: Scalar>(pub Vec3<T>);

/// A displacement in space.
#[derive(Copy, Clone, Debug, PartialEq)]
pub struct Direction3<T: Scalar>(pub Vec3<T>);

impl<T: Scalar> Point3<T> {
    pub fn new(x: T, y: T, z: T) -> (p: Self)
        ensures
            p.0.x == x,
            p.0.y == y,
            p.0.z == z,
    {
        Point3(Vec3::new(x, y, z))
    }
}

impl<T: Scalar> Direction3<T> {
    pub fn new(x: T, y: T, z: T) -> (d: Self)
        ensures
            d.0.x == x,
            d.0.y == y,
            d.0.z == z,
    {
        Direction3(Vec3::new(x, y, z))
    }
}

impl<T: Scalar> Add<Direction3<T>> for Point3<T> {
    type Output = Point3<T>;

    /// The point moved by the direction.
    fn add(self, dir: Direction3<T>) -> Point3<T> {
        proof {
            T::lemma_operators_obey();
        }
        Point3(Vec3 { x: self.0.x + dir.0.x, y: self.0.y + dir.0.y, z: self.0.z + dir.0.z })
    }
}

impl<T: Scalar> AddSpecImpl<Direction3<T>> for Point3<T> {
    open spec fn obeys_add_spec() -> bool {
        true
    }

    open spec fn add_req(self, dir: Direction3<T>) -> bool {
        self.0.x.add_req(dir.0.x) && self.0.y.add_req(dir.0.y) && self.0.z.add_req(dir.0.z)
    }

    open spec fn add_spec(self, dir: Direction3<T>) -> Point3<T> {
        Point3(
            Vec3 {
                x: self.0.x.add_spec(dir.0.x),
                y: self.0.y.add_spec(dir.0.y),
                z: self.0.z.add_spec(dir.0.z),
            },
        )
    }
}

impl<T: Scalar> Sub for Point3<T> {
    type Output = Direction3<T>;

    /// The direction that leads from `rhs` to the point.
    fn sub(self, rhs: Point3<T>) -> Direction3<T> {
        proof {
            T::lemma_operators_obey();
        }
        Direction3(Vec3 { x: self.0.x - rhs.0.x, y: self.0.y - rhs.0.y, z: self.0.z - rhs.0.z })
    }
}

impl<T: Scalar> SubSpecImpl for Point3<T> {
    open spec fn obeys_sub_spec() -> bool {
        true
    }

    open spec fn sub_req(self, rhs: Point3<T>) -> bool {
        self.0.x.sub_req(rhs.0.x) && self.0.y.sub_req(rhs.0.y) && self.0.z.sub_req(rhs.0.z)
    }

    open spec fn sub_spec(self, rhs: Point3<T>) -> Direction3<T> {
        Direction3(
            Vec3 {
                x: self.0.x.sub_spec(rhs.0.x),
                y: self.0.y.sub_spec(rhs.0.y),
                z: self.0.z.sub_spec(rhs.0.z),
            },
        )
    }
}

impl<T: Scalar> Mul<T> for Direction3<T> {
    type Output = Direction3<T>;

    /// The direction scaled by `rhs`.
    fn mul(self, rhs: T) -> Direction3<T> {
        Direction3(self.0 * rhs)
    }
}

impl<T: Scalar> MulSpecImpl<T> for Direction3<T> {
    open spec fn obeys_mul_spec() -> bool {
        true
    }

    open spec fn mul_req(self, rhs: T) -> bool {
        self.0.scale_req(rhs)
    }

    open spec fn mul_spec(self, rhs: T) -> Direction3<T> {
        Direction3(self.0.scaled(rhs))
    }
}

} // verus!
