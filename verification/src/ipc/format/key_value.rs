//! Slots of the key-value table.
use vstd::prelude::*;

verus! {

/// The key.
pub const KEY: usize = 0;

/// The value.
pub const VALUE: usize = 1;

} // verus!
