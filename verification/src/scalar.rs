//! Scalar arithmetic behind interchangeable numeric backends.
//!
//! Three layered contracts (arithmetic, real-valued and transcendental
//! operations) and two classification markers say what a backend offers.
//! Every operation of a backend is a pure function of its arguments, stated
//! by a specification function of the backend.
pub mod dfix64;
pub mod fixed;
pub mod float_bits;
pub mod kinds;
pub mod laws;
pub(crate) mod sealed;
pub mod traits;

pub use dfix64::DFix64;
pub use kinds::{DeterministicScalar, NondetScalar};
pub use traits::{RealScalar, Scalar, TrigScalar};
