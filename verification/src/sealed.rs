//! The seal of the traits that name the supported vectors and masks.
use vstd::prelude::*;

verus! {

/// Keeps a trait to the types of this crate, and names their number of lanes.
pub trait Sealed {
    /// The number of lanes.
    spec fn lanes() -> nat;
}

} // verus!
