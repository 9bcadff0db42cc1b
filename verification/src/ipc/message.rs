//! Messages: the envelope, and the message table inside it.
//!
//! ```text
//! [0xFFFFFFFF][metadata length: i32][message table, padding][body]
//! ```
//!
//! The metadata length counts the padding, chosen so that the body starts on
//! the alignment boundary. A length of zero ends the stream; so does the end of
//! the bytes at a message boundary. Older streams leave the marker out: both
//! forms are read, the marker is always written.
//!
//! Where a message lies is never told by its prefix alone: the body length is
//! read out of the message table.
use vstd::prelude::*;
use vstd::slice::slice_subrange;
use vstd::bytes::u32_to_le_bytes;
use std::ops::Range;
use crate::datatype::SchemaModel;
use crate::ipc::error::{IpcError, IpcErrorModel};
use crate::ipc::fb::builder::{FbBuilder, FbModel, WipOffset};
use crate::ipc::fb::reader::{bad, i32_at, read_i32, read_u32, root_at, root_table, u32_at, Table, TableModel};
use crate::ipc::format::{message, message_header, version_of, MetadataVersion, CONTINUATION_MARKER};
use crate::ipc::layout::{depth_of_all, MAX_NESTING_DEPTH};
use crate::ipc::schema::{closed_table, encode_schema, ready, too_deep, write_schema};
use crate::le::{copy_bytes, extend, extend_zeros, le_i32, le_u32, padded, zeros};
use crate::schema::Schema;

verus! {

/// Size of the continuation marker and the metadata length.
pub const PREFIX_LEN: usize = 8;

/// Size of the metadata length alone.
pub const LEGACY_PREFIX_LEN: usize = 4;

/// The default cap on metadata: headers are kilobytes.
pub const MAX_METADATA_BYTES: usize = 67_108_864;

/// Caps applied before anything is allocated or indexed.
#[derive(Debug, Clone, Copy, PartialEq, Eq)]
#[non_exhaustive]
pub struct MessageLimits {
    /// Largest metadata length accepted.
    pub max_metadata_bytes: usize,
    /// Largest body length accepted.
    pub max_body_bytes: usize,
}

impl Default for MessageLimits {
    fn default() -> (r: Self)
        ensures
            r.max_metadata_bytes == MAX_METADATA_BYTES,
            r.max_body_bytes == crate::MAX_PAYLOAD_BYTES,
    {
        MessageLimits { max_metadata_bytes: MAX_METADATA_BYTES, max_body_bytes: crate::MAX_PAYLOAD_BYTES }
    }
}

impl MessageLimits {
    /// The defaults.
    #[must_use]
    pub fn new() -> (r: Self)
        ensures
            r.max_metadata_bytes == MAX_METADATA_BYTES,
            r.max_body_bytes == crate::MAX_PAYLOAD_BYTES,
    {
        MessageLimits::default()
    }

    /// Sets the body cap.
    #[must_use]
    pub fn with_max_body_bytes(self, bytes: usize) -> (r: Self)
        ensures
            r == (MessageLimits { max_body_bytes: bytes, ..self }),
    {
        MessageLimits { max_body_bytes: bytes, max_metadata_bytes: self.max_metadata_bytes }
    }

    /// Sets the metadata cap.
    #[must_use]
    pub fn with_max_metadata_bytes(self, bytes: usize) -> (r: Self)
        ensures
            r == (MessageLimits { max_metadata_bytes: bytes, ..self }),
    {
        MessageLimits { max_metadata_bytes: bytes, max_body_bytes: self.max_body_bytes }
    }
}

/// Where a message lies in a stream.
#[derive(Debug, PartialEq, Eq)]
pub struct RawMessage {
    /// The message table and its padding.
    pub metadata: Range<usize>,
    /// The body.
    pub body: Range<usize>,
    /// Where the next message starts.
    pub next: usize,
    /// Whether the continuation marker was there.
    pub continued: bool,
}

/// Where a message lies in a stream: metadata up to the body, the body up to
/// the next message.
pub struct RawModel {
    pub metadata: int,
    pub body: int,
    pub next: int,
    pub continued: bool,
}

impl View for RawMessage {
    type V = RawModel;

    open spec fn view(&self) -> RawModel {
        RawModel {
            metadata: self.metadata.start as int,
            body: self.body.start as int,
            next: self.next as int,
            continued: self.continued,
        }
    }
}

impl Clone for RawMessage {
    fn clone(&self) -> (r: Self)
        ensures
            r == *self,
    {
        RawMessage {
            metadata: Range { start: self.metadata.start, end: self.metadata.end },
            body: Range { start: self.body.start, end: self.body.end },
            next: self.next,
            continued: self.continued,
        }
    }
}

impl RawMessage {
    /// The ranges follow one another.
    pub open spec fn wf(&self) -> bool {
        &&& self.metadata.start <= self.metadata.end
        &&& self.metadata.end == self.body.start
        &&& self.body.start <= self.body.end
        &&& self.body.end == self.next
    }
}

/// The decoded message table.
#[derive(Debug, Clone, Copy)]
pub struct MessageInfo<'a> {
    /// The metadata version.
    pub version: MetadataVersion,
    /// What the header is.
    pub header_type: u8,
    /// The header.
    pub header: Table<'a>,
    /// The body length.
    pub body_length: i64,
}

/// What a message table says.
pub struct InfoModel {
    pub version: MetadataVersion,
    pub header_type: u8,
    pub header: TableModel,
    pub body_length: i64,
}

impl<'a> View for MessageInfo<'a> {
    type V = InfoModel;

    open spec fn view(&self) -> InfoModel {
        InfoModel {
            version: self.version,
            header_type: self.header_type,
            header: self.header@,
            body_length: self.body_length,
        }
    }
}

/// The stream ends inside what is being read.
pub open spec fn cut_short(context: Seq<char>, available: int, expected: int) -> IpcErrorModel {
    IpcErrorModel::UnexpectedEndOfStream {
        context,
        available: available as usize,
        expected: expected as usize,
    }
}

/// A length is over its cap.
pub open spec fn over_cap(what: Seq<char>, length: int, cap: int) -> IpcErrorModel {
    IpcErrorModel::TooLarge { what, length: length as u64, cap: cap as u64 }
}

/// The prefix at `pos`: where the metadata starts, its declared length, and
/// whether there was a marker.
pub open spec fn prefix_at(bytes: Seq<u8>, pos: int) -> Result<(int, i32, bool), IpcErrorModel> {
    let available = bytes.len() - pos;
    if available < LEGACY_PREFIX_LEN {
        Err(cut_short("message length prefix"@, available, LEGACY_PREFIX_LEN as int))
    } else {
        match u32_at(bytes, pos, "message prefix"@) {
            Err(e) => Err(e),
            Ok(first) => if first == CONTINUATION_MARKER {
                if available < PREFIX_LEN {
                    Err(
                        cut_short(
                            "metadata length after the continuation marker"@,
                            available,
                            PREFIX_LEN as int,
                        ),
                    )
                } else {
                    match i32_at(bytes, pos + 4, "metadata length"@) {
                        Err(e) => Err(e),
                        Ok(length) => Ok((pos + 8, length, true)),
                    }
                }
            } else if first > i32::MAX {
                Err(IpcErrorModel::InvalidContinuation { marker: first, position: pos as usize })
            } else {
                Ok((pos + 4, first as i32, false))
            },
        }
    }
}

/// The body length a metadata block declares.
pub open spec fn body_length_of(metadata: Seq<u8>) -> Result<i64, IpcErrorModel> {
    match root_at(metadata) {
        Err(e) => Err(e),
        Ok(t) => t.i64_field(message::BODY_LENGTH as int, 0),
    }
}

/// The message whose metadata is `length` bytes at `start`.
pub open spec fn body_at(
    bytes: Seq<u8>,
    start: int,
    length: int,
    continued: bool,
    limits: MessageLimits,
) -> Result<Option<RawModel>, IpcErrorModel> {
    let end = start + length;
    match body_length_of(bytes.subrange(start, end)) {
        Err(e) => Err(e),
        Ok(body) => if body < 0 || body > usize::MAX {
            Err(bad("Message.bodyLength"@, start))
        } else if body > limits.max_body_bytes {
            Err(over_cap("body"@, body as int, limits.max_body_bytes as int))
        } else if end + body > usize::MAX {
            Err(bad("Message.bodyLength"@, start))
        } else if end + body > bytes.len() {
            Err(cut_short("message body"@, bytes.len() - end, body as int))
        } else {
            Ok(Some(RawModel { metadata: start, body: end, next: end + body, continued }))
        },
    }
}

/// The message at `pos`, or nothing where the stream ends.
pub open spec fn message_at(bytes: Seq<u8>, pos: int, limits: MessageLimits) -> Result<
    Option<RawModel>,
    IpcErrorModel,
> {
    if pos >= bytes.len() {
        Ok(None)
    } else {
        match prefix_at(bytes, pos) {
            Err(e) => Err(e),
            Ok((start, length, continued)) => if length == 0 {
                Ok(None)
            } else if length < 0 {
                Err(IpcErrorModel::NegativeMetadataLength { length, position: pos as usize })
            } else if length > limits.max_metadata_bytes {
                Err(over_cap("metadata"@, length as int, limits.max_metadata_bytes as int))
            } else if start + length > usize::MAX {
                Err(bad("metadata length"@, pos))
            } else if start + length > bytes.len() {
                Err(cut_short("message metadata"@, bytes.len() - start, length as int))
            } else {
                body_at(bytes, start, length as int, continued, limits)
            },
        }
    }
}

/// Reads the prefix at `pos`.
fn read_prefix(bytes: &[u8], pos: usize) -> (r: Result<(usize, i32, bool), IpcError>)
    requires
        pos < bytes@.len(),
    ensures
        match r {
            Ok((start, length, continued)) => prefix_at(bytes@, pos as int) == Ok::<
                (int, i32, bool),
                IpcErrorModel,
            >((start as int, length, continued)) && start <= bytes@.len(),
            Err(e) => prefix_at(bytes@, pos as int) == Err::<(int, i32, bool), IpcErrorModel>(e@),
        },
{
    let available: usize = bytes.len() - pos;
    if available < LEGACY_PREFIX_LEN {
        return Err(
            IpcError::UnexpectedEndOfStream {
                context: "message length prefix",
                available,
                expected: LEGACY_PREFIX_LEN,
            },
        );
    }
    let first: u32 = match read_u32(bytes, pos, "message prefix") {
        Ok(v) => v,
        Err(e) => {
            return Err(e);
        },
    };
    if first == CONTINUATION_MARKER {
        if available < PREFIX_LEN {
            return Err(
                IpcError::UnexpectedEndOfStream {
                    context: "metadata length after the continuation marker",
                    available,
                    expected: PREFIX_LEN,
                },
            );
        }
        match read_i32(bytes, pos + LEGACY_PREFIX_LEN, "metadata length") {
            Ok(length) => Ok((pos + PREFIX_LEN, length, true)),
            Err(e) => Err(e),
        }
    } else {
        if first > 0x7FFF_FFFF {
            return Err(IpcError::InvalidContinuation { marker: first, position: pos });
        }
        Ok((pos + LEGACY_PREFIX_LEN, first as i32, false))
    }
}

/// Locates the message at `pos`. `Ok(None)` is the end of the stream: its
/// marker, or the end of the bytes at a message boundary.
pub fn scan_message(bytes: &[u8], pos: usize, limits: &MessageLimits) -> (r: Result<
    Option<RawMessage>,
    IpcError,
>)
    ensures
        match r {
            Ok(Some(m)) => message_at(bytes@, pos as int, *limits) == Ok::<Option<RawModel>, IpcErrorModel>(
                Some(m@),
            ) && m.wf() && m.next <= bytes@.len() && pos < m.metadata.start,
            Ok(None) => message_at(bytes@, pos as int, *limits) == Ok::<Option<RawModel>, IpcErrorModel>(None),
            Err(e) => message_at(bytes@, pos as int, *limits) == Err::<Option<RawModel>, IpcErrorModel>(e@),
        },
{
    if pos >= bytes.len() {
        return Ok(None);
    }
    let (start, raw_len, continued): (usize, i32, bool) = match read_prefix(bytes, pos) {
        Ok(prefix) => prefix,
        Err(e) => {
            return Err(e);
        },
    };
    if raw_len == 0 {
        return Ok(None);
    }
    if raw_len < 0 {
        return Err(IpcError::NegativeMetadataLength { length: raw_len, position: pos });
    }
    let metadata_len: usize = raw_len as usize;
    if metadata_len > limits.max_metadata_bytes {
        return Err(
            IpcError::TooLarge {
                what: "metadata",
                length: metadata_len as u64,
                cap: limits.max_metadata_bytes as u64,
            },
        );
    }
    let end: usize = match start.checked_add(metadata_len) {
        Some(end) => end,
        None => {
            return Err(IpcError::malformed("metadata length", pos));
        },
    };
    if end > bytes.len() {
        return Err(
            IpcError::UnexpectedEndOfStream {
                context: "message metadata",
                available: bytes.len() - start,
                expected: metadata_len,
            },
        );
    }
    let body_length: i64 = match message_body_length(slice_subrange(bytes, start, end)) {
        Ok(v) => v,
        Err(e) => {
            return Err(e);
        },
    };
    if body_length < 0 || body_length as u64 > usize::MAX as u64 {
        return Err(IpcError::malformed("Message.bodyLength", start));
    }
    let body_len: usize = body_length as usize;
    if body_len > limits.max_body_bytes {
        return Err(
            IpcError::TooLarge {
                what: "body",
                length: body_len as u64,
                cap: limits.max_body_bytes as u64,
            },
        );
    }
    let body_end: usize = match end.checked_add(body_len) {
        Some(body_end) => body_end,
        None => {
            return Err(IpcError::malformed("Message.bodyLength", start));
        },
    };
    if body_end > bytes.len() {
        return Err(
            IpcError::UnexpectedEndOfStream {
                context: "message body",
                available: bytes.len() - end,
                expected: body_len,
            },
        );
    }
    Ok(
        Some(
            RawMessage {
                metadata: Range { start, end },
                body: Range { start: end, end: body_end },
                next: body_end,
                continued,
            },
        ),
    )
}

/// Reads the body length out of a metadata block.
fn message_body_length(metadata: &[u8]) -> (r: Result<i64, IpcError>)
    ensures
        match r {
            Ok(v) => body_length_of(metadata@) == Ok::<i64, IpcErrorModel>(v),
            Err(e) => body_length_of(metadata@) == Err::<i64, IpcErrorModel>(e@),
        },
{
    match root_table(metadata) {
        Ok(table) => table.i64(message::BODY_LENGTH, 0),
        Err(e) => Err(e),
    }
}

/// What a metadata block says.
pub open spec fn info_of(metadata: Seq<u8>) -> Result<InfoModel, IpcErrorModel> {
    match root_at(metadata) {
        Err(e) => Err(e),
        Ok(t) => match t.i16_field(message::VERSION as int, 0) {
            Err(e) => Err(e),
            Ok(raw) => match version_of(raw) {
                None => Err(IpcErrorModel::UnsupportedMetadataVersion { version: raw }),
                Some(version) => match t.u8_field(message::HEADER_TYPE as int, message_header::NONE) {
                    Err(e) => Err(e),
                    Ok(header_type) => match t.table_field(message::HEADER as int) {
                        Err(e) => Err(e),
                        Ok(None) => Err(
                            IpcErrorModel::MissingField { table: "Message"@, field: "header"@ },
                        ),
                        Ok(Some(header)) => match t.i64_field(message::BODY_LENGTH as int, 0) {
                            Err(e) => Err(e),
                            Ok(body_length) => Ok(InfoModel { version, header_type, header, body_length }),
                        },
                    },
                },
            },
        },
    }
}

/// Decodes the message table of a metadata block.
pub fn decode_message(metadata: &[u8]) -> (r: Result<MessageInfo<'_>, IpcError>)
    ensures
        match r {
            Ok(info) => info_of(metadata@) == Ok::<InfoModel, IpcErrorModel>(info@),
            Err(e) => info_of(metadata@) == Err::<InfoModel, IpcErrorModel>(e@),
        },
{
    let table = match root_table(metadata) {
        Ok(table) => table,
        Err(e) => {
            return Err(e);
        },
    };
    let raw: i16 = match table.i16(message::VERSION, 0) {
        Ok(v) => v,
        Err(e) => {
            return Err(e);
        },
    };
    let version = match MetadataVersion::from_raw(raw) {
        Some(version) => version,
        None => {
            return Err(IpcError::UnsupportedMetadataVersion { version: raw });
        },
    };
    let header_type: u8 = match table.u8(message::HEADER_TYPE, message_header::NONE) {
        Ok(v) => v,
        Err(e) => {
            return Err(e);
        },
    };
    let header = match table.table(message::HEADER) {
        Ok(Some(header)) => header,
        Ok(None) => {
            return Err(IpcError::missing("Message", "header"));
        },
        Err(e) => {
            return Err(e);
        },
    };
    let body_length: i64 = match table.i64(message::BODY_LENGTH, 0) {
        Ok(v) => v,
        Err(e) => {
            return Err(e);
        },
    };
    Ok(MessageInfo { version, header_type, header, body_length })
}

/// The fields of a message table.
pub open spec fn message_slots(m: FbModel, header_type: u8, header: nat, body_length: i64) -> FbModel {
    m.slot_i16(message::VERSION as nat, 4, 0).slot_u8(
        message::HEADER_TYPE as nat,
        header_type,
        message_header::NONE,
    ).slot_offset(message::HEADER as nat, header).slot_i64(message::BODY_LENGTH as nat, body_length, 0)
}

/// The state with a message table written, and its distance.
pub open spec fn write_header(m: FbModel, header_type: u8, header: nat, body_length: i64) -> (FbModel, nat) {
    closed_table(message_slots(m.start_table(), header_type, header, body_length), m.bytes.len())
}

/// Wraps a header in a message table of the current version.
pub fn build_message(builder: &mut FbBuilder, header_type: u8, header: WipOffset, body_length: i64) -> (r:
    WipOffset)
    requires
        ready(*old(builder)),
        header@ <= old(builder)@.bytes.len(),
    ensures
        ready(*final(builder)),
        (final(builder)@, r@) == write_header(old(builder)@, header_type, header@, body_length),
        r@ <= final(builder)@.bytes.len(),
{
    reveal(closed_table);
    let table = builder.start_table();
    builder.push_slot_i16(message::VERSION, MetadataVersion::V5.as_raw(), 0);
    builder.push_slot_u8(message::HEADER_TYPE, header_type, message_header::NONE);
    builder.push_slot_offset(message::HEADER, header);
    builder.push_slot_i64(message::BODY_LENGTH, body_length, 0);
    builder.end_table(table)
}

/// The finished message of a schema.
pub open spec fn schema_message_state(s: SchemaModel) -> FbModel {
    let (m, header) = write_schema(FbModel::empty(), s);
    let (wrapped, root) = write_header(m, message_header::SCHEMA, header, 0);
    wrapped.finish(root)
}

/// The message table of a schema, as bytes.
pub open spec fn schema_message(s: SchemaModel) -> Seq<u8> {
    schema_message_state(s).bytes
}

/// Builds the message table of a schema.
pub fn build_schema_message(builder: &mut FbBuilder, schema: &Schema) -> (r: Result<(), IpcError>)
    requires
        old(builder).wf(),
    ensures
        final(builder).wf(),
        match r {
            Ok(_) => depth_of_all(schema@.fields) <= MAX_NESTING_DEPTH && final(builder)@
                == schema_message_state(schema@),
            Err(e) => depth_of_all(schema@.fields) > MAX_NESTING_DEPTH && e@ == too_deep(1),
        },
{
    builder.reset();
    let header = match encode_schema(builder, schema) {
        Ok(header) => header,
        Err(e) => {
            return Err(e);
        },
    };
    let root = build_message(builder, message_header::SCHEMA, header, 0);
    builder.finish(root);
    Ok(())
}

/// Encodes the message table of a schema, envelope left out.
pub fn encode_schema_message(schema: &Schema) -> (r: Result<Vec<u8>, IpcError>)
    ensures
        match r {
            Ok(bytes) => depth_of_all(schema@.fields) <= MAX_NESTING_DEPTH && bytes@ == schema_message(schema@),
            Err(e) => depth_of_all(schema@.fields) > MAX_NESTING_DEPTH && e@ == too_deep(1),
        },
{
    let mut builder = FbBuilder::new();
    match build_schema_message(&mut builder, schema) {
        Ok(_) => Ok(copy_bytes(builder.finished_bytes())),
        Err(e) => Err(e),
    }
}

/// The alignment used for one asked for: the smallest multiple of it that is no
/// less than eight.
pub open spec fn used_alignment(alignment: int) -> int {
    if alignment <= 0 {
        8
    } else if alignment < 8 {
        padded(8, alignment)
    } else {
        alignment
    }
}

/// The alignment used is a multiple of the one asked for, and stays as it is.
pub proof fn lemma_used_alignment(alignment: int)
    ensures
        used_alignment(alignment) >= 8,
        alignment > 0 ==> used_alignment(alignment) % alignment == 0,
        used_alignment(used_alignment(alignment)) == used_alignment(alignment),
        used_alignment(alignment) <= 14 || used_alignment(alignment) == alignment,
{
    if 0 < alignment < 8 {
        crate::le::lemma_padded(8, alignment);
    }
}

/// A multiple of the alignment used is one of the alignment asked for.
pub proof fn lemma_multiple(n: int, alignment: int)
    requires
        alignment > 0,
        n % used_alignment(alignment) == 0,
    ensures
        n % alignment == 0,
{
    lemma_used_alignment(alignment);
    let used = used_alignment(alignment);
    let q = n / used;
    let m = used / alignment;
    vstd::arithmetic::div_mod::lemma_fundamental_div_mod(n, used);
    vstd::arithmetic::div_mod::lemma_fundamental_div_mod(used, alignment);
    assert(n == (q * m) * alignment) by (nonlinear_arith)
        requires
            n == used * q,
            used == alignment * m,
    ;
    vstd::arithmetic::div_mod::lemma_mod_multiples_basic(q * m, alignment);
}

/// The alignment used for one asked for.
pub fn boundary_of(alignment: usize) -> (r: usize)
    ensures
        r == used_alignment(alignment as int),
        r >= 8,
{
    proof {
        lemma_used_alignment(alignment as int);
    }
    if alignment == 0 {
        8
    } else if alignment < 8 {
        let over: usize = 8 % alignment;
        if over == 0 {
            8
        } else {
            8 + (alignment - over)
        }
    } else {
        alignment
    }
}

/// The length of an envelope.
pub open spec fn envelope_len(metadata_len: int, alignment: int) -> int {
    padded(PREFIX_LEN + metadata_len, used_alignment(alignment))
}

/// The envelope: marker, length, metadata, padding.
pub open spec fn envelope(metadata: Seq<u8>, alignment: int) -> Seq<u8> {
    let total = envelope_len(metadata.len() as int, alignment);
    le_u32(CONTINUATION_MARKER) + le_i32((total - PREFIX_LEN) as i32) + metadata + zeros(
        (total - PREFIX_LEN - metadata.len()) as nat,
    )
}

/// What writing an envelope does: append it, or refuse a length that no `i32`
/// holds.
pub open spec fn envelope_written(
    before: Seq<u8>,
    after: Seq<u8>,
    r: Result<usize, IpcError>,
    metadata: Seq<u8>,
    alignment: int,
) -> bool {
    let total = envelope_len(metadata.len() as int, alignment);
    match r {
        Ok(n) => total - PREFIX_LEN <= i32::MAX && n == total && after == before + envelope(
            metadata,
            alignment,
        ),
        Err(e) => total - PREFIX_LEN > i32::MAX && after == before && e@ == over_cap(
            "metadata"@,
            total - PREFIX_LEN,
            i32::MAX as int,
        ),
    }
}

/// Writes a schema as a message of its own. Returns the bytes written.
pub fn write_schema_message(sink: &mut Vec<u8>, schema: &Schema, alignment: usize) -> (r: Result<
    usize,
    IpcError,
>)
    ensures
        if depth_of_all(schema@.fields) > MAX_NESTING_DEPTH {
            r matches Err(e) && e@ == too_deep(1) && final(sink)@ == old(sink)@
        } else {
            envelope_written(
                old(sink)@,
                final(sink)@,
                r,
                schema_message(schema@),
                alignment as int,
            )
        },
{
    match encode_schema_message(schema) {
        Ok(metadata) => write_message(sink, metadata.as_slice(), alignment),
        Err(e) => Err(e),
    }
}

/// Writes an envelope around `metadata`. Returns the bytes written: a multiple
/// of the alignment.
pub fn write_message(sink: &mut Vec<u8>, metadata: &[u8], alignment: usize) -> (r: Result<usize, IpcError>)
    ensures
        envelope_written(old(sink)@, final(sink)@, r, metadata@, alignment as int),
        r matches Ok(n) ==> n as int % used_alignment(alignment as int) == 0,
        r matches Ok(n) ==> (alignment > 0 ==> n as int % alignment as int == 0),
{
    broadcast use crate::le::group_le;
    let ghost asked = alignment as int;
    let alignment: usize = boundary_of(alignment);
    proof {
        lemma_used_alignment(asked);
        crate::le::lemma_padded(PREFIX_LEN + metadata@.len(), alignment as int);
        if asked > 0 {
            lemma_multiple(padded(PREFIX_LEN + metadata@.len(), alignment as int), asked);
        }
    }
    let n: u128 = PREFIX_LEN as u128 + metadata.len() as u128;
    let over: u128 = n % (alignment as u128);
    let whole: u128 = if over == 0 {
        n
    } else {
        n + (alignment as u128 - over)
    };
    let declared_length: u128 = whole - PREFIX_LEN as u128;
    if declared_length > 0x7FFF_FFFF {
        return Err(
            IpcError::TooLarge {
                what: "metadata",
                length: #[verifier::truncate] (declared_length as u64),
                cap: 0x7FFF_FFFF,
            },
        );
    }
    let total: usize = whole as usize;
    let metadata_length: usize = declared_length as usize;
    let padding: usize = metadata_length - metadata.len();
    let marker = u32_to_le_bytes(CONTINUATION_MARKER);
    let declared = u32_to_le_bytes(metadata_length as u32);
    proof {
        let len = metadata_length as i32;
        assert(len as u32 == metadata_length as u32);
    }
    let _w1 = write_all(sink, marker.as_slice(), "message marker");
    let _w2 = write_all(sink, declared.as_slice(), "metadata length");
    let _w3 = write_all(sink, metadata, "message metadata");
    let _w4 = write_padding(sink, padding, "metadata padding");
    assert(sink@ =~= old(sink)@ + envelope(metadata@, asked));
    Ok(total)
}

/// The end of a stream.
pub open spec fn end_of_stream() -> Seq<u8> {
    le_u32(CONTINUATION_MARKER) + le_i32(0)
}

/// Writes the end of a stream.
pub fn write_end_of_stream(sink: &mut Vec<u8>) -> (r: Result<usize, IpcError>)
    ensures
        final(sink)@ == old(sink)@ + end_of_stream(),
        r matches Ok(n) && n == PREFIX_LEN,
{
    let marker = u32_to_le_bytes(CONTINUATION_MARKER);
    let zero = u32_to_le_bytes(0);
    let _w1 = write_all(sink, marker.as_slice(), "stream terminator");
    let _w2 = write_all(sink, zero.as_slice(), "stream terminator");
    assert(0i32 as u32 == 0u32);
    assert(sink@ =~= old(sink)@ + end_of_stream());
    Ok(PREFIX_LEN)
}

/// Appends bytes. Appending to a vector does not fail; `context` names the step
/// for sinks that can.
pub fn write_all(sink: &mut Vec<u8>, bytes: &[u8], context: &'static str) -> (r: Result<(), IpcError>)
    ensures
        final(sink)@ == old(sink)@ + bytes@,
        r is Ok,
{
    let _step = context;
    extend(sink, bytes);
    Ok(())
}

/// Appends `count` zero bytes.
pub fn write_padding(sink: &mut Vec<u8>, count: usize, context: &'static str) -> (r: Result<(), IpcError>)
    ensures
        final(sink)@ == old(sink)@ + zeros(count as nat),
        r is Ok,
{
    let _step = context;
    extend_zeros(sink, count);
    Ok(())
}

} // verus!
