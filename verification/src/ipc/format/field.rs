//! Slots of the field table.
use vstd::prelude::*;

verus! {

/// The name.
pub const NAME: usize = 0;

/// Nullability, false by default.
pub const NULLABLE: usize = 1;

/// Discriminant of the type.
pub const TYPE_TYPE: usize = 2;

/// The type.
pub const TYPE: usize = 3;

/// Dictionary encoding.
pub const DICTIONARY: usize = 4;

/// Child fields.
pub const CHILDREN: usize = 5;

/// Key-value pairs.
pub const CUSTOM_METADATA: usize = 6;

} // verus!
