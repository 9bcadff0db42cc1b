//! Constants of the stream format: enum values and vtable slots.
//!
//! A union takes two slots: its discriminant, then its value.
use vstd::prelude::*;

pub mod body_compression;
pub mod endianness;
pub mod field;
pub mod key_value;
pub mod message;
pub mod message_header;
pub mod precision;
pub mod record_batch;
pub mod schema;
pub mod time_unit;
pub mod type_code;
pub mod type_table;

verus! {

/// The metadata versions read. The newer one is written.
#[derive(Debug, Clone, Copy, PartialEq, Eq, PartialOrd, Ord, Hash)]
#[non_exhaustive]
pub enum MetadataVersion {
    /// Before the 1.0 union layout.
    V4,
    /// What is written.
    V5,
}

/// The version a raw value stands for.
pub open spec fn version_of(value: i16) -> Option<MetadataVersion> {
    if value == 3 {
        Some(MetadataVersion::V4)
    } else if value == 4 {
        Some(MetadataVersion::V5)
    } else {
        None
    }
}

impl MetadataVersion {
    /// The version a raw value stands for.
    #[must_use]
    pub fn from_raw(value: i16) -> (r: Option<MetadataVersion>)
        ensures
            r == version_of(value),
    {
        match value {
            3 => Some(MetadataVersion::V4),
            4 => Some(MetadataVersion::V5),
            _ => None,
        }
    }

    /// The raw value.
    #[must_use]
    pub fn as_raw(self) -> (r: i16)
        ensures
            version_of(r) == Some(self),
            r == (match self {
                MetadataVersion::V4 => 3i16,
                MetadataVersion::V5 => 4i16,
            }),
    {
        match self {
            MetadataVersion::V4 => 3,
            MetadataVersion::V5 => 4,
        }
    }
}

/// The word that introduces every current message.
pub const CONTINUATION_MARKER: u32 = 0xFFFF_FFFF;

/// The least boundary messages may be placed on.
pub const MIN_MESSAGE_ALIGNMENT: usize = 8;

/// The boundary messages and body buffers are placed on when written.
pub const DEFAULT_MESSAGE_ALIGNMENT: usize = 64;

} // verus!
