//! A FlatBuffers codec, sized to the tables of the stream's message headers.
pub mod builder;
pub mod content;
pub mod field_laws;
pub mod reader;
pub mod table_laws;

pub use crate::ipc::fb::builder::{FbBuilder, TableStart, WipOffset};
pub use crate::ipc::fb::reader::{deref, read_i16, read_i32, read_i64, read_i8, read_string, read_u16, read_u32, read_u8, root_table, Table, VectorSpan, SIZE_UOFFSET, SIZE_VOFFSET};
