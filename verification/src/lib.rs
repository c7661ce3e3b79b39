//! Deterministic numeric core for simulation code that must replay bit for
//! bit on every machine.
//!
//! The crate holds a pseudo-random generator whose output sequence is a
//! function of its seed alone, and a scalar abstraction with an
//! integer-backed fixed-point backend on which geometry code is written
//! once. Every operation is stated by a specification function and proved
//! against it. Floating-point values cross the boundary of the crate as
//! binary32 bit patterns.
pub mod angle;
pub mod prelude;
pub mod prng;
pub mod scalar;
pub mod types;
pub mod vec3;

pub use prng::Prng;
pub use prng::PRNG_ALGO_VERSION;
pub use scalar::{DeterministicScalar, NondetScalar, RealScalar, Scalar, TrigScalar};
pub use types::{Direction3, Point3};
pub use vec3::Vec3;
