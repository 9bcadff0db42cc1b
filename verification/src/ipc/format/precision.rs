//! Floating-point precisions.
use vstd::prelude::*;

verus! {

/// binary16, the default.
pub const HALF: i16 = 0;

/// binary32.
pub const SINGLE: i16 = 1;

/// binary64.
pub const DOUBLE: i16 = 2;

} // verus!
