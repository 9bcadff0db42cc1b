//! Slots of the type tables.
use vstd::prelude::*;

verus! {

/// Bit width, an int.
pub const INT_BIT_WIDTH: usize = 0;

/// Signedness, false by default.
pub const INT_IS_SIGNED: usize = 1;

/// Precision, a short.
pub const FLOAT_PRECISION: usize = 0;

/// Byte width, an int.
pub const FIXED_SIZE_BINARY_BYTE_WIDTH: usize = 0;

/// List size, an int.
pub const FIXED_SIZE_LIST_LIST_SIZE: usize = 0;

/// Unit, a short, seconds by default.
pub const TIMESTAMP_UNIT: usize = 0;

/// Time zone.
pub const TIMESTAMP_TIMEZONE: usize = 1;

/// Unit, a short, milliseconds by default.
pub const DURATION_UNIT: usize = 0;

} // verus!
