//! The names that most users of the crate need.
pub use crate::angle::{Angle, DegAngle, RadAngle};
pub use crate::prng::Prng;
pub use crate::scalar::dfix64::DFix64;
pub use crate::scalar::kinds::{DeterministicScalar, NondetScalar};
pub use crate::scalar::traits::{RealScalar, Scalar, TrigScalar};
pub use crate::types::{Direction3, Point3};
pub use crate::vec3::Vec3;
