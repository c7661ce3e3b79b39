//! Closes the scalar contracts to the backends of this crate.
use vstd::prelude::*;

verus! {

/// Implemented by the backends of this crate only, so that no other type can
/// claim a scalar contract or a classification.
pub trait Sealed {

}

} // verus!
