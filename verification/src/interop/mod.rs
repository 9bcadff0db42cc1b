//! Exchange of types, columns and batches with arrow.
//!
//! Types, fields, schemas and columns go to arrow's own and come back from them.
//! Every type here has a counterpart there; what comes from there may have a
//! type outside the closed set. A batch goes as a schema, its columns and a number
//! of rows.
pub mod array;
pub mod buffer;
pub mod datatype;
pub mod error;
pub mod kind_laws;
pub mod laws;
pub mod outside;
pub mod record_batch;
pub mod sound;
pub mod value_laws;

pub use crate::interop::array::{from_arrow_array, to_array_data};
pub use crate::interop::buffer::{
    from_arrow_boolean_buffer, from_arrow_buffer, from_arrow_nulls, to_arrow_boolean_buffer, to_arrow_buffer,
    to_arrow_nulls,
};
pub use crate::interop::datatype::{
    from_arrow_data_type, from_arrow_field, from_arrow_fields, from_arrow_schema, to_arrow_data_type, to_arrow_field,
    to_arrow_fields, to_arrow_schema,
};
pub use crate::interop::error::InteropError;
pub use crate::interop::record_batch::{from_arrow_record_batch, to_arrow_record_batch, ArrowBatch};
