//! A supertrait that closes a trait to other crates' types.
use vstd::prelude::*;

verus! {

/// Marks the types that a closed trait is for.
pub trait Sealed {

}

} // verus!
