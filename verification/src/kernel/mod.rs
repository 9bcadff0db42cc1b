//! Whole-column operations.
pub mod cast;
pub mod cast_laws;
pub mod concat;
pub mod concat_laws;
pub mod filter;
pub mod gather;
pub mod halves;
pub mod integers;
pub mod joined;
pub mod numbers;
pub mod row_laws;
pub mod slice;
pub mod take;

pub use crate::kernel::cast::{cast, OverflowPolicy};
pub use crate::kernel::concat::{concat, concat_batches};
pub use crate::kernel::filter::{filter, filter_batch};
pub use crate::kernel::slice::{slice_columns, try_slice_columns};
pub use crate::kernel::take::{take, take_batch};
