//! Slots of the schema table.
use vstd::prelude::*;

verus! {

/// Byte order, a short.
pub const ENDIANNESS: usize = 0;

/// The fields.
pub const FIELDS: usize = 1;

/// Key-value pairs.
pub const CUSTOM_METADATA: usize = 2;

/// Optional features.
pub const FEATURES: usize = 3;

} // verus!
