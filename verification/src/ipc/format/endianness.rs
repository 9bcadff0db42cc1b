//! Byte orders a schema may declare. Only little-endian is written or read.
use vstd::prelude::*;

verus! {

/// Little-endian, the default.
pub const LITTLE: i16 = 0;

/// Big-endian; refused.
pub const BIG: i16 = 1;

} // verus!
