//! Streams: headers, messages, payloads.
pub mod body_laws;
pub mod column_laws;
pub mod cut_laws;
pub mod decode;
pub mod encode;
pub mod error;
pub mod fb;
pub mod format;
pub mod format_laws;
pub mod frame_laws;
pub mod layout;
pub mod layout_laws;
pub mod message;
pub mod message_laws;
pub mod payload;
pub mod reader;
pub mod schema;
pub mod schema_laws;
pub mod stream_laws;
pub mod wire;
pub mod writer;

pub use crate::ipc::decode::BatchDecoder;
pub use crate::ipc::encode::BatchLayout;
pub use crate::ipc::error::IpcError;
pub use crate::ipc::layout::{BufferRole, MAX_NESTING_DEPTH};
pub use crate::ipc::message::MessageLimits;
pub use crate::ipc::payload::{
    decode_payload, decode_payload_buffer, encode_payload, encode_payload_with, PAYLOAD_ALIGNMENT,
};
pub use crate::ipc::reader::{
    read_ipc_stream, read_ipc_stream_from, IpcStreamReader, ReadOptions, DEFAULT_MAX_STREAM_BYTES,
};
pub use crate::ipc::schema::{decode_schema_bytes, encode_schema_bytes};
pub use crate::ipc::writer::{
    to_ipc_bytes, to_ipc_bytes_with, write_ipc_stream, write_ipc_stream_with, IpcStreamWriter, WriteOptions,
};
