//! Slots of the message table.
use vstd::prelude::*;

verus! {

/// Metadata version, a short.
pub const VERSION: usize = 0;

/// Discriminant of the header.
pub const HEADER_TYPE: usize = 1;

/// The header.
pub const HEADER: usize = 2;

/// Body length, a long.
pub const BODY_LENGTH: usize = 3;

/// Key-value pairs.
pub const CUSTOM_METADATA: usize = 4;

} // verus!
