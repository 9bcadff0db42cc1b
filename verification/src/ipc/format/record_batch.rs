//! Slots of the record batch table.
use vstd::prelude::*;

verus! {

/// Row count, a long.
pub const LENGTH: usize = 0;

/// One pair of length and null count per array.
pub const NODES: usize = 1;

/// One pair of offset and length per buffer.
pub const BUFFERS: usize = 2;

/// Body compression.
pub const COMPRESSION: usize = 3;

/// Buffer counts of view types.
pub const VARIADIC_BUFFER_COUNTS: usize = 4;

} // verus!
