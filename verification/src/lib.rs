//! A columnar payload format, wire-compatible with the Arrow IPC streaming format.
//!
//! Every payload is a self-describing stream: one schema message, one record
//! batch message per batch, an end marker. The crate holds the array model,
//! the FlatBuffers codec the message headers are written in, the stream
//! encoder and decoder, and the compute kernels over arrays.
//!
//! Layers, top down:
//!
//! ```text
//!   ipc           streams, payloads, messages, headers, FlatBuffers
//!   kernel        slice, concat, take, filter, cast
//!   interop       exchange of columns and batches with arrow
//!   tensor        N-dimensional views over a flat column
//!   record_batch  a schema and one column per field
//!   array         columns: type, length, validity, buffers, children
//!   buffer        byte windows and bitmaps
//!   datatype      types, fields, schemas
//! ```
use vstd::prelude::*;

pub mod access_laws;
pub mod array;
pub mod batch_laws;
pub mod buffer;
pub mod call_laws;
pub mod datatype;
pub mod error;
pub mod flat;
pub mod float;
pub mod float_laws;
pub mod interop;
pub mod ipc;
pub mod kernel;
pub mod le;
pub mod lex;
pub mod message;
pub mod message_laws;
pub mod metadata_laws;
pub mod prelude;
pub mod record_batch;
pub mod refusal_laws;
pub mod schema;
pub mod sealed;
pub mod tensor;
pub mod text;
pub mod text_laws;

pub use crate::array::column::{Array, ArrayRef};
pub use crate::array::native::{ArrowNativeType, F16, F32, F64};
pub use crate::buffer::{Bitmap, Buffer};
pub use crate::datatype::{DataType, Field};
pub use crate::error::DataError;
pub use crate::message::AstrsMessage;
pub use crate::record_batch::{ColumnTypeCheck, RecordBatch, RecordBatchOptions};
pub use crate::schema::Schema;

verus! {

/// The single top-level column name of a payload batch.
pub const DATA_COLUMN: &'static str = "data";

/// Hard cap on the encoded size of one payload, in bytes.
pub const MAX_PAYLOAD_BYTES: usize = 268_435_456;

/// The boundary buffers are placed on.
pub const ALIGNMENT: usize = 64;

/// A count cut to the largest `usize`.
pub open spec fn capped(n: int) -> int {
    if n > usize::MAX {
        usize::MAX as int
    } else {
        n
    }
}

/// A sum cut to the largest `usize`.
pub fn sum_capped(a: usize, b: usize) -> (r: usize)
    ensures
        r == capped(a + b),
{
    match a.checked_add(b) {
        Some(n) => n,
        None => usize::MAX,
    }
}

/// A product cut to the largest `usize`.
pub fn product_capped(a: usize, b: usize) -> (r: usize)
    ensures
        r == capped(a * b),
{
    match a.checked_mul(b) {
        Some(n) => n,
        None => usize::MAX,
    }
}

} // verus!
