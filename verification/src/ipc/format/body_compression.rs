//! Slots of the body compression table.
use vstd::prelude::*;

verus! {

/// Codec.
pub const CODEC: usize = 0;

/// Method.
pub const METHOD: usize = 1;

} // verus!
