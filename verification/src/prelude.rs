//! What code that makes and reads payloads needs.
pub use crate::array::{
    Array, ArrayRef, BinaryArray, BooleanArray, FixedSizeBinaryArray, FixedSizeListArray, Float16Array, Float32Array,
    Float64Array, Int16Array, Int32Array, Int64Array, Int8Array, LargeBinaryArray, LargeStringArray, ListArray,
    NullArray, PrimitiveArray, StringArray, StructArray, TimestampArray, UInt16Array, UInt32Array, UInt64Array,
    UInt8Array,
};
pub use crate::buffer::{Bitmap, Buffer};
pub use crate::datatype::{DataType, Field};
pub use crate::error::DataError;
pub use crate::ipc::{decode_payload, encode_payload, IpcError};
pub use crate::kernel::{cast, concat, filter, take, OverflowPolicy};
pub use crate::message::AstrsMessage;
pub use crate::record_batch::RecordBatch;
pub use crate::schema::Schema;
pub use crate::tensor::{ImageView, TensorView};
pub use crate::{DATA_COLUMN, MAX_PAYLOAD_BYTES};
