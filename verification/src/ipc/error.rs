//! What can go wrong encoding or decoding a stream.
//!
//! A malformed stream and an invalid array are different failures: errors of
//! the columnar layer are carried in [`IpcError::Data`].
use vstd::prelude::*;
use vstd::string::StringExecFns;
use crate::error::{data_message, DataError, DataErrorModel};
use crate::text::{append_hex_word, append_int, decimal, hex_word, quote, quoted};

verus! {

/// A failure encoding or decoding a stream.
#[derive(Debug, PartialEq, Eq)]
#[non_exhaustive]
pub enum IpcError {
    /// The underlying reader or writer failed.
    Io {
        /// What was being done.
        context: &'static str,
        /// The failure, as text.
        source: String,
    },
    /// An array could not be rebuilt from its decoded buffers.
    Data(DataError),
    /// The stream ended in the middle of a message.
    UnexpectedEndOfStream {
        /// What was being read.
        context: &'static str,
        /// Bytes still available.
        available: usize,
        /// Bytes needed.
        expected: usize,
    },
    /// The word introducing a message is neither the continuation marker nor a plausible length.
    InvalidContinuation {
        /// The word.
        marker: u32,
        /// Its byte offset within the stream.
        position: usize,
    },
    /// The metadata length is negative.
    NegativeMetadataLength {
        /// The declared length.
        length: i32,
        /// Byte offset of the message.
        position: usize,
    },
    /// A declared length exceeds its cap.
    TooLarge {
        /// Which length.
        what: &'static str,
        /// The declared length.
        length: u64,
        /// The cap.
        cap: u64,
    },
    /// The flatbuffer metadata is structurally invalid.
    MalformedFlatbuffer {
        /// What was being read.
        context: &'static str,
        /// Byte offset within the metadata block.
        position: usize,
    },
    /// A required flatbuffer field is absent.
    MissingField {
        /// The table.
        table: &'static str,
        /// The absent field.
        field: &'static str,
    },
    /// The metadata version is not one that is read.
    UnsupportedMetadataVersion {
        /// The raw value.
        version: i16,
    },
    /// The stream is not little-endian.
    UnsupportedEndianness {
        /// The raw value.
        endianness: i16,
    },
    /// The message is of a kind that is not implemented.
    UnsupportedMessageHeader {
        /// The raw union discriminant.
        header: u8,
        /// Its name.
        name: &'static str,
    },
    /// A message of the wrong kind turned up.
    UnexpectedMessage {
        /// The kind needed.
        expected: &'static str,
        /// The kind found.
        found: &'static str,
    },
    /// The stream carries no schema message.
    EmptyStream,
    /// A field's type is outside the closed type set.
    UnsupportedType {
        /// The raw union discriminant.
        code: u8,
        /// Its name.
        name: &'static str,
        /// The field.
        field: String,
    },
    /// A supported type family carries an unsupported parameter.
    UnsupportedTypeParameters {
        /// The type family.
        family: &'static str,
        /// The field.
        field: String,
        /// What is unsupported.
        detail: String,
    },
    /// A nested type declares the wrong number of children.
    ChildCountMismatch {
        /// The field.
        field: String,
        /// The type family.
        family: &'static str,
        /// Children required.
        expected: usize,
        /// Children declared.
        actual: usize,
    },
    /// The record batch declares fewer or more field nodes or buffers than the schema needs.
    LayoutCountMismatch {
        /// Which of the two.
        what: &'static str,
        /// What the schema implies.
        expected: usize,
        /// What the message declares.
        actual: usize,
    },
    /// A buffer entry leaves the message body.
    BufferOutOfBounds {
        /// Position of the entry.
        index: usize,
        /// Declared offset.
        offset: i64,
        /// Declared length.
        length: i64,
        /// Length of the body.
        body_len: usize,
    },
    /// A buffer is shorter than its rows require.
    BufferTooShort {
        /// Position of the entry.
        index: usize,
        /// What the buffer holds.
        role: &'static str,
        /// Bytes held.
        actual: usize,
        /// Bytes required.
        required: usize,
        /// Rows of the field node.
        rows: usize,
    },
    /// A field node declares an impossible length or null count.
    InvalidFieldNode {
        /// Position of the node.
        index: usize,
        /// Declared length.
        length: i64,
        /// Declared null count.
        null_count: i64,
    },
    /// A column disagrees with the declared row count.
    RowCountMismatch {
        /// Rows declared.
        declared: usize,
        /// Position of the column.
        column: usize,
        /// Rows held.
        actual: usize,
    },
    /// The body is compressed.
    UnsupportedCompression {
        /// The raw codec.
        codec: i8,
    },
    /// A dictionary-encoded field or batch turned up.
    UnsupportedDictionary,
    /// A payload does not hold exactly one record batch.
    NotASinglePayload {
        /// Batches found.
        count: usize,
    },
    /// A type nests deeper than the codec's limit.
    NestingTooDeep {
        /// The depth reached.
        depth: usize,
        /// The limit.
        limit: usize,
    },
    /// No batches were given, so there is no schema to open a stream with.
    MissingSchema,
    /// A batch's schema differs from the one the stream opened with.
    SchemaMismatch {
        /// Position of the batch.
        index: usize,
    },
}

/// What an [`IpcError`] says.
pub enum IpcErrorModel {
    Io { context: Seq<char>, source: Seq<char> },
    Data(DataErrorModel),
    UnexpectedEndOfStream { context: Seq<char>, available: usize, expected: usize },
    InvalidContinuation { marker: u32, position: usize },
    NegativeMetadataLength { length: i32, position: usize },
    TooLarge { what: Seq<char>, length: u64, cap: u64 },
    MalformedFlatbuffer { context: Seq<char>, position: usize },
    MissingField { table: Seq<char>, field: Seq<char> },
    UnsupportedMetadataVersion { version: i16 },
    UnsupportedEndianness { endianness: i16 },
    UnsupportedMessageHeader { header: u8, name: Seq<char> },
    UnexpectedMessage { expected: Seq<char>, found: Seq<char> },
    EmptyStream,
    UnsupportedType { code: u8, name: Seq<char>, field: Seq<char> },
    UnsupportedTypeParameters { family: Seq<char>, field: Seq<char>, detail: Seq<char> },
    ChildCountMismatch { field: Seq<char>, family: Seq<char>, expected: usize, actual: usize },
    LayoutCountMismatch { what: Seq<char>, expected: usize, actual: usize },
    BufferOutOfBounds { index: usize, offset: i64, length: i64, body_len: usize },
    BufferTooShort { index: usize, role: Seq<char>, actual: usize, required: usize, rows: usize },
    InvalidFieldNode { index: usize, length: i64, null_count: i64 },
    RowCountMismatch { declared: usize, column: usize, actual: usize },
    UnsupportedCompression { codec: i8 },
    UnsupportedDictionary,
    NotASinglePayload { count: usize },
    NestingTooDeep { depth: usize, limit: usize },
    MissingSchema,
    SchemaMismatch { index: usize },
}

impl View for IpcError {
    type V = IpcErrorModel;

    open spec fn view(&self) -> IpcErrorModel {
        match *self {
            IpcError::Io { context, source } => IpcErrorModel::Io { context: context@, source: source@ },
            IpcError::Data(e) => IpcErrorModel::Data(e@),
            IpcError::UnexpectedEndOfStream { context, available, expected } => IpcErrorModel::UnexpectedEndOfStream { context: context@, available, expected },
            IpcError::InvalidContinuation { marker, position } => IpcErrorModel::InvalidContinuation { marker, position },
            IpcError::NegativeMetadataLength { length, position } => IpcErrorModel::NegativeMetadataLength { length, position },
            IpcError::TooLarge { what, length, cap } => IpcErrorModel::TooLarge { what: what@, length, cap },
            IpcError::MalformedFlatbuffer { context, position } => IpcErrorModel::MalformedFlatbuffer { context: context@, position },
            IpcError::MissingField { table, field } => IpcErrorModel::MissingField { table: table@, field: field@ },
            IpcError::UnsupportedMetadataVersion { version } => IpcErrorModel::UnsupportedMetadataVersion { version },
            IpcError::UnsupportedEndianness { endianness } => IpcErrorModel::UnsupportedEndianness { endianness },
            IpcError::UnsupportedMessageHeader { header, name } => IpcErrorModel::UnsupportedMessageHeader { header, name: name@ },
            IpcError::UnexpectedMessage { expected, found } => IpcErrorModel::UnexpectedMessage { expected: expected@, found: found@ },
            IpcError::EmptyStream => IpcErrorModel::EmptyStream,
            IpcError::UnsupportedType { code, name, field } => IpcErrorModel::UnsupportedType { code, name: name@, field: field@ },
            IpcError::UnsupportedTypeParameters { family, field, detail } => IpcErrorModel::UnsupportedTypeParameters { family: family@, field: field@, detail: detail@ },
            IpcError::ChildCountMismatch { field, family, expected, actual } => IpcErrorModel::ChildCountMismatch { field: field@, family: family@, expected, actual },
            IpcError::LayoutCountMismatch { what, expected, actual } => IpcErrorModel::LayoutCountMismatch { what: what@, expected, actual },
            IpcError::BufferOutOfBounds { index, offset, length, body_len } => IpcErrorModel::BufferOutOfBounds { index, offset, length, body_len },
            IpcError::BufferTooShort { index, role, actual, required, rows } => IpcErrorModel::BufferTooShort { index, role: role@, actual, required, rows },
            IpcError::InvalidFieldNode { index, length, null_count } => IpcErrorModel::InvalidFieldNode { index, length, null_count },
            IpcError::RowCountMismatch { declared, column, actual } => IpcErrorModel::RowCountMismatch { declared, column, actual },
            IpcError::UnsupportedCompression { codec } => IpcErrorModel::UnsupportedCompression { codec },
            IpcError::UnsupportedDictionary => IpcErrorModel::UnsupportedDictionary,
            IpcError::NotASinglePayload { count } => IpcErrorModel::NotASinglePayload { count },
            IpcError::NestingTooDeep { depth, limit } => IpcErrorModel::NestingTooDeep { depth, limit },
            IpcError::MissingSchema => IpcErrorModel::MissingSchema,
            IpcError::SchemaMismatch { index } => IpcErrorModel::SchemaMismatch { index },
        }
    }
}

/// The errors that mean "these bytes are not a valid stream".
pub open spec fn malformed_model(e: IpcErrorModel) -> bool {
    ||| e is UnexpectedEndOfStream
    ||| e is InvalidContinuation
    ||| e is NegativeMetadataLength
    ||| e is MalformedFlatbuffer
    ||| e is MissingField
    ||| e is LayoutCountMismatch
    ||| e is BufferOutOfBounds
    ||| e is BufferTooShort
    ||| e is InvalidFieldNode
    ||| e is RowCountMismatch
    ||| e is ChildCountMismatch
    ||| e is NestingTooDeep
}

/// The errors that mean "a valid stream with a feature outside the set".
pub open spec fn unsupported_model(e: IpcErrorModel) -> bool {
    ||| e is UnsupportedMetadataVersion
    ||| e is UnsupportedEndianness
    ||| e is UnsupportedMessageHeader
    ||| e is UnsupportedType
    ||| e is UnsupportedTypeParameters
    ||| e is UnsupportedCompression
    ||| e is UnsupportedDictionary
}

/// No error is both malformed and unsupported.
pub proof fn law_classification_is_exclusive(e: IpcErrorModel)
    ensures
        !(malformed_model(e) && unsupported_model(e)),
{
}

/// The text of an error.
pub open spec fn ipc_message(e: IpcErrorModel) -> Seq<char> {
    match e {
        IpcErrorModel::Io { context, source } => "io error while "@ + context + ": "@ + source,
        IpcErrorModel::Data(e) => data_message(e),
        IpcErrorModel::UnexpectedEndOfStream { context, available, expected } => "stream ended after "@ + decimal(available as int) + " byte(s) while "@ + decimal(expected as int) + " more were required ("@ + context + ")"@,
        IpcErrorModel::InvalidContinuation { marker, position } => "invalid message prefix "@ + hex_word(marker) + " at byte "@ + decimal(position as int),
        IpcErrorModel::NegativeMetadataLength { length, position } => "negative metadata length "@ + decimal(length as int) + " at byte "@ + decimal(position as int),
        IpcErrorModel::TooLarge { what, length, cap } => what + " of "@ + byte_count_text(length) + " exceeds the "@ + byte_count_text(cap) + " cap"@,
        IpcErrorModel::MalformedFlatbuffer { context, position } => "malformed flatbuffer at byte "@ + decimal(position as int) + ": "@ + context,
        IpcErrorModel::MissingField { table, field } => "missing required field "@ + field + " of table "@ + table,
        IpcErrorModel::UnsupportedMetadataVersion { version } => "unsupported Arrow metadata version "@ + decimal(version as int) + " (V4 and V5 are supported)"@,
        IpcErrorModel::UnsupportedEndianness { endianness } => "unsupported endianness "@ + decimal(endianness as int) + " (only little-endian streams are read)"@,
        IpcErrorModel::UnsupportedMessageHeader { header, name } => "unsupported message header "@ + decimal(header as int) + " ("@ + name + ")"@,
        IpcErrorModel::UnexpectedMessage { expected, found } => "expected a "@ + expected + " message, found "@ + found,
        IpcErrorModel::EmptyStream => "stream is empty: no schema message"@,
        IpcErrorModel::UnsupportedType { code, name, field } => "unsupported Arrow type "@ + decimal(code as int) + " ("@ + name + ") for field "@ + quoted(field),
        IpcErrorModel::UnsupportedTypeParameters { family, field, detail } => "unsupported "@ + family + " parameters for field "@ + quoted(field) + ": "@ + detail,
        IpcErrorModel::ChildCountMismatch { field, family, expected, actual } => "field "@ + quoted(field) + " of type "@ + family + " declares "@ + decimal(actual as int) + " child field(s), "@ + decimal(expected as int) + " expected"@,
        IpcErrorModel::LayoutCountMismatch { what, expected, actual } => "record batch declares "@ + decimal(actual as int) + " "@ + what + ", the schema needs "@ + decimal(expected as int),
        IpcErrorModel::BufferOutOfBounds { index, offset, length, body_len } => "buffer "@ + decimal(index as int) + " at ("@ + decimal(offset as int) + ", "@ + decimal(length as int) + ") leaves the "@ + decimal(body_len as int) + "-byte body"@,
        IpcErrorModel::BufferTooShort { index, role, actual, required, rows } => "buffer "@ + decimal(index as int) + " ("@ + role + ") holds "@ + decimal(actual as int) + " byte(s), "@ + decimal(required as int) + " required for "@ + decimal(rows as int) + " row(s)"@,
        IpcErrorModel::InvalidFieldNode { index, length, null_count } => "field node "@ + decimal(index as int) + " declares length "@ + decimal(length as int) + " and null count "@ + decimal(null_count as int),
        IpcErrorModel::RowCountMismatch { declared, column, actual } => "record batch declares "@ + decimal(declared as int) + " row(s) but column "@ + decimal(column as int) + " holds "@ + decimal(actual as int),
        IpcErrorModel::UnsupportedCompression { codec } => "body compression (codec "@ + decimal(codec as int) + ") is not supported in AstRS payloads"@,
        IpcErrorModel::UnsupportedDictionary => "dictionary encoding is not part of the AstRS 0.1.0 type set"@,
        IpcErrorModel::NotASinglePayload { count } => "payload holds "@ + decimal(count as int) + " record batch(es), exactly one is required"@,
        IpcErrorModel::NestingTooDeep { depth, limit } => "type nests "@ + decimal(depth as int) + " level(s) deep, the limit is "@ + decimal(limit as int),
        IpcErrorModel::MissingSchema => "cannot write a stream without a schema: no record batches were given"@,
        IpcErrorModel::SchemaMismatch { index } => "record batch "@ + decimal(index as int) + " does not match the schema the stream opened with"@,
    }
}

impl IpcError {
    /// The error's text.
    pub fn to_string(&self) -> (r: String)
        ensures
            r@ == ipc_message(self@),
    {
        let mut out = String::new();
        match self {
            IpcError::Io { context, source } => {
                out.append("io error while ");
                out.append(context);
                out.append(": ");
                out.append(source.as_str());
            },
            IpcError::Data(e) => {
                let inner = e.to_string();
                out.append(inner.as_str());
            },
            IpcError::UnexpectedEndOfStream { context, available, expected } => {
                out.append("stream ended after ");
                append_int(&mut out, *available as i128);
                out.append(" byte(s) while ");
                append_int(&mut out, *expected as i128);
                out.append(" more were required (");
                out.append(context);
                out.append(")");
            },
            IpcError::InvalidContinuation { marker, position } => {
                out.append("invalid message prefix ");
                append_hex_word(&mut out, *marker);
                out.append(" at byte ");
                append_int(&mut out, *position as i128);
            },
            IpcError::NegativeMetadataLength { length, position } => {
                out.append("negative metadata length ");
                append_int(&mut out, *length as i128);
                out.append(" at byte ");
                append_int(&mut out, *position as i128);
            },
            IpcError::TooLarge { what, length, cap } => {
                out.append(what);
                out.append(" of ");
                let q = ByteCount(*length).to_string();
                out.append(q.as_str());
                out.append(" exceeds the ");
                let q = ByteCount(*cap).to_string();
                out.append(q.as_str());
                out.append(" cap");
            },
            IpcError::MalformedFlatbuffer { context, position } => {
                out.append("malformed flatbuffer at byte ");
                append_int(&mut out, *position as i128);
                out.append(": ");
                out.append(context);
            },
            IpcError::MissingField { table, field } => {
                out.append("missing required field ");
                out.append(field);
                out.append(" of table ");
                out.append(table);
            },
            IpcError::UnsupportedMetadataVersion { version } => {
                out.append("unsupported Arrow metadata version ");
                append_int(&mut out, *version as i128);
                out.append(" (V4 and V5 are supported)");
            },
            IpcError::UnsupportedEndianness { endianness } => {
                out.append("unsupported endianness ");
                append_int(&mut out, *endianness as i128);
                out.append(" (only little-endian streams are read)");
            },
            IpcError::UnsupportedMessageHeader { header, name } => {
                out.append("unsupported message header ");
                append_int(&mut out, *header as i128);
                out.append(" (");
                out.append(name);
                out.append(")");
            },
            IpcError::UnexpectedMessage { expected, found } => {
                out.append("expected a ");
                out.append(expected);
                out.append(" message, found ");
                out.append(found);
            },
            IpcError::EmptyStream => {
                out.append("stream is empty: no schema message");
            },
            IpcError::UnsupportedType { code, name, field } => {
                out.append("unsupported Arrow type ");
                append_int(&mut out, *code as i128);
                out.append(" (");
                out.append(name);
                out.append(") for field ");
                let q = quote(field.as_str());
                out.append(q.as_str());
            },
            IpcError::UnsupportedTypeParameters { family, field, detail } => {
                out.append("unsupported ");
                out.append(family);
                out.append(" parameters for field ");
                let q = quote(field.as_str());
                out.append(q.as_str());
                out.append(": ");
                out.append(detail.as_str());
            },
            IpcError::ChildCountMismatch { field, family, expected, actual } => {
                out.append("field ");
                let q = quote(field.as_str());
                out.append(q.as_str());
                out.append(" of type ");
                out.append(family);
                out.append(" declares ");
                append_int(&mut out, *actual as i128);
                out.append(" child field(s), ");
                append_int(&mut out, *expected as i128);
                out.append(" expected");
            },
            IpcError::LayoutCountMismatch { what, expected, actual } => {
                out.append("record batch declares ");
                append_int(&mut out, *actual as i128);
                out.append(" ");
                out.append(what);
                out.append(", the schema needs ");
                append_int(&mut out, *expected as i128);
            },
            IpcError::BufferOutOfBounds { index, offset, length, body_len } => {
                out.append("buffer ");
                append_int(&mut out, *index as i128);
                out.append(" at (");
                append_int(&mut out, *offset as i128);
                out.append(", ");
                append_int(&mut out, *length as i128);
                out.append(") leaves the ");
                append_int(&mut out, *body_len as i128);
                out.append("-byte body");
            },
            IpcError::BufferTooShort { index, role, actual, required, rows } => {
                out.append("buffer ");
                append_int(&mut out, *index as i128);
                out.append(" (");
                out.append(role);
                out.append(") holds ");
                append_int(&mut out, *actual as i128);
                out.append(" byte(s), ");
                append_int(&mut out, *required as i128);
                out.append(" required for ");
                append_int(&mut out, *rows as i128);
                out.append(" row(s)");
            },
            IpcError::InvalidFieldNode { index, length, null_count } => {
                out.append("field node ");
                append_int(&mut out, *index as i128);
                out.append(" declares length ");
                append_int(&mut out, *length as i128);
                out.append(" and null count ");
                append_int(&mut out, *null_count as i128);
            },
            IpcError::RowCountMismatch { declared, column, actual } => {
                out.append("record batch declares ");
                append_int(&mut out, *declared as i128);
                out.append(" row(s) but column ");
                append_int(&mut out, *column as i128);
                out.append(" holds ");
                append_int(&mut out, *actual as i128);
            },
            IpcError::UnsupportedCompression { codec } => {
                out.append("body compression (codec ");
                append_int(&mut out, *codec as i128);
                out.append(") is not supported in AstRS payloads");
            },
            IpcError::UnsupportedDictionary => {
                out.append("dictionary encoding is not part of the AstRS 0.1.0 type set");
            },
            IpcError::NotASinglePayload { count } => {
                out.append("payload holds ");
                append_int(&mut out, *count as i128);
                out.append(" record batch(es), exactly one is required");
            },
            IpcError::NestingTooDeep { depth, limit } => {
                out.append("type nests ");
                append_int(&mut out, *depth as i128);
                out.append(" level(s) deep, the limit is ");
                append_int(&mut out, *limit as i128);
            },
            IpcError::MissingSchema => {
                out.append("cannot write a stream without a schema: no record batches were given");
            },
            IpcError::SchemaMismatch { index } => {
                out.append("record batch ");
                append_int(&mut out, *index as i128);
                out.append(" does not match the schema the stream opened with");
            },
        }
        assert(out@ =~= ipc_message(self@));
        out
    }

    /// Wraps the text of an I/O failure with the operation that produced it.
    pub fn io(context: &'static str, source: String) -> (r: IpcError)
        ensures
            r@ == (IpcErrorModel::Io { context: context@, source: source@ }),
    {
        IpcError::Io { context, source }
    }

    /// An [`IpcError::MalformedFlatbuffer`].
    pub fn malformed(context: &'static str, position: usize) -> (r: IpcError)
        ensures
            r@ == (IpcErrorModel::MalformedFlatbuffer { context: context@, position }),
    {
        IpcError::MalformedFlatbuffer { context, position }
    }

    /// An [`IpcError::MissingField`].
    pub fn missing(table: &'static str, field: &'static str) -> (r: IpcError)
        ensures
            r@ == (IpcErrorModel::MissingField { table: table@, field: field@ }),
    {
        IpcError::MissingField { table, field }
    }

    /// Whether the error means "these bytes are not a valid stream".
    pub fn is_malformed(&self) -> (r: bool)
        ensures
            r == malformed_model(self@),
    {
        match self {
            IpcError::UnexpectedEndOfStream { .. }
            | IpcError::InvalidContinuation { .. }
            | IpcError::NegativeMetadataLength { .. }
            | IpcError::MalformedFlatbuffer { .. }
            | IpcError::MissingField { .. }
            | IpcError::LayoutCountMismatch { .. }
            | IpcError::BufferOutOfBounds { .. }
            | IpcError::BufferTooShort { .. }
            | IpcError::InvalidFieldNode { .. }
            | IpcError::RowCountMismatch { .. }
            | IpcError::ChildCountMismatch { .. }
            | IpcError::NestingTooDeep { .. } => true,
            _ => false,
        }
    }

    /// Whether the error means "a valid stream with a feature outside the set".
    pub fn is_unsupported(&self) -> (r: bool)
        ensures
            r == unsupported_model(self@),
    {
        match self {
            IpcError::UnsupportedMetadataVersion { .. }
            | IpcError::UnsupportedEndianness { .. }
            | IpcError::UnsupportedMessageHeader { .. }
            | IpcError::UnsupportedType { .. }
            | IpcError::UnsupportedTypeParameters { .. }
            | IpcError::UnsupportedCompression { .. }
            | IpcError::UnsupportedDictionary => true,
            _ => false,
        }
    }
}

impl From<DataError> for IpcError {
    fn from(error: DataError) -> (r: IpcError) {
        IpcError::Data(error)
    }
}

impl vstd::std_specs::convert::FromSpecImpl<DataError> for IpcError {
    open spec fn obeys_from_spec() -> bool {
        true
    }

    open spec fn from_spec(error: DataError) -> IpcError {
        IpcError::Data(error)
    }
}

/// `a / b` rounded to the nearest integer, halves to the even one.
pub open spec fn round_half_even(a: nat, b: nat) -> nat {
    let q = a / b;
    let r = a % b;
    if 2 * r > b || (2 * r == b && q % 2 == 1) {
        q + 1
    } else {
        q
    }
}

/// The step between the doubles around a count.
pub open spec fn double_step(n: nat) -> nat
    decreases n,
{
    if n < 0x20_0000_0000_0000 {
        1
    } else {
        2 * double_step(n / 2)
    }
}

/// The double nearest to a count, halves to the even one.
pub open spec fn nearest_double(n: nat) -> nat {
    round_half_even(n, double_step(n)) * double_step(n)
}

/// A byte count with its largest fitting unit and, above bytes, one decimal. The
/// largest counts are rounded to a double first.
pub open spec fn byte_count_text(n: u64) -> Seq<char> {
    if n < 1024 {
        decimal(n as int) + " B"@
    } else if n < 1_048_576 {
        tenths_text(round_half_even(10 * n as nat, 1024)) + " KiB"@
    } else if n < 1_073_741_824 {
        tenths_text(round_half_even(10 * n as nat, 1_048_576)) + " MiB"@
    } else if n < 1_099_511_627_776 {
        tenths_text(round_half_even(10 * n as nat, 1_073_741_824)) + " GiB"@
    } else {
        tenths_text(round_half_even(10 * nearest_double(n as nat), 1_099_511_627_776)) + " TiB"@
    }
}

/// A number of tenths with its decimal point.
pub open spec fn tenths_text(tenths: nat) -> Seq<char> {
    decimal((tenths / 10) as int) + "."@ + decimal((tenths % 10) as int)
}

/// A byte count, rendered with a unit in the size-cap messages.
pub struct ByteCount(pub u64);

fn rounded(a: u128, b: u128) -> (r: u128)
    requires
        0 < b < 0x1_0000_0000_0000,
        a < 0x1_0000_0000_0000_0000_0000,
    ensures
        r == round_half_even(a as nat, b as nat),
        r <= a + 1,
{
    let q: u128 = a / b;
    let rest: u128 = a % b;
    proof {
        assert(q <= a) by (nonlinear_arith)
            requires
                b > 0,
                q == a / b,
        ;
    }
    if 2 * rest > b || (2 * rest == b && q % 2 == 1) {
        q + 1
    } else {
        q
    }
}

/// The double nearest to a count.
fn as_double(n: u64) -> (r: u128)
    ensures
        r == nearest_double(n as nat),
        r <= 0x1_0000_0000_0000_0000,
{
    let mut step: u128 = 1;
    let mut rest: u64 = n;
    while rest >= 0x20_0000_0000_0000
        invariant
            1 <= step <= 0x800,
            step * rest <= n,
            step * double_step(rest as nat) == double_step(n as nat),
            step == 1 || step == 2 || step == 4 || step == 8 || step == 16 || step == 32 || step == 64 || step == 128
                || step == 256 || step == 512 || step == 1024 || step == 2048,
        decreases rest,
    {
        proof {
            let half = rest / 2;
            assert(step * 2 * half <= step * rest) by (nonlinear_arith)
                requires
                    half == rest / 2,
                    step >= 1,
            ;
            let d = double_step(half as nat);
            assert((step * 2) * d == step * (2 * d)) by (nonlinear_arith);
            assert(step < 0x800) by (nonlinear_arith)
                requires
                    step * rest <= 0xFFFF_FFFF_FFFF_FFFF,
                    rest >= 0x20_0000_0000_0000,
                    step >= 1,
            ;
        }
        rest = rest / 2;
        step = step * 2;
    }
    assert(double_step(rest as nat) == 1);
    let q: u128 = rounded(n as u128, step);
    proof {
        let a = n as nat;
        let b = step as nat;
        assert(q * b <= 0x1_0000_0000_0000_0000) by {
            vstd::arithmetic::div_mod::lemma_fundamental_div_mod(a as int, b as int);
            let k = 0x1_0000_0000_0000_0000int / b as int;
            assert(a / b < k) by (nonlinear_arith)
                requires
                    a < 0x1_0000_0000_0000_0000,
                    b * k == 0x1_0000_0000_0000_0000,
                    b >= 1,
            ;
            assert(q * b <= k * b) by (nonlinear_arith)
                requires
                    q <= k,
                    b >= 1,
            ;
            assert(k * b == b * k) by (nonlinear_arith);
        }
    }
    q * step
}

fn append_tenths(out: &mut String, tenths: u128)
    requires
        tenths < 0x1_0000_0000_0000_0000_0001,
    ensures
        final(out)@ == old(out)@ + tenths_text(tenths as nat),
{
    append_int(out, (tenths / 10) as i128);
    out.append(".");
    append_int(out, (tenths % 10) as i128);
    assert(out@ =~= old(out)@ + tenths_text(tenths as nat));
}

impl ByteCount {
    /// The rendered count.
    pub fn to_string(&self) -> (r: String)
        ensures
            r@ == byte_count_text(self.0),
    {
        let n: u64 = self.0;
        let mut out = String::new();
        if n < 1024 {
            append_int(&mut out, n as i128);
            out.append(" B");
        } else if n < 1_048_576 {
            append_tenths(&mut out, rounded(10 * (n as u128), 1024));
            out.append(" KiB");
        } else if n < 1_073_741_824 {
            append_tenths(&mut out, rounded(10 * (n as u128), 1_048_576));
            out.append(" MiB");
        } else if n < 1_099_511_627_776 {
            append_tenths(&mut out, rounded(10 * (n as u128), 1_073_741_824));
            out.append(" GiB");
        } else {
            append_tenths(&mut out, rounded(10 * as_double(n), 1_099_511_627_776));
            out.append(" TiB");
        }
        assert(out@ =~= byte_count_text(self.0));
        out
    }
}

} // verus!
