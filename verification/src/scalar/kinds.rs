//! Classification of backends by reproducibility.
//!
//! The two markers carry no data and no method. Code that must replay
//! bit for bit on every machine is bound by `DeterministicScalar`; a backend
//! that carries only `NondetScalar` does not satisfy that bound.
use vstd::prelude::*;
use crate::scalar::traits::TrigScalar;
use crate::scalar::dfix64::DFix64;

verus! {

/// Marks a backend whose results are identical, bit for bit, on every
/// platform and toolchain.
pub trait DeterministicScalar: TrigScalar {

}

/// Marks a backend whose results may differ between platforms.
pub trait NondetScalar: TrigScalar {

}

impl DeterministicScalar for DFix64 {

}

} // verus!
