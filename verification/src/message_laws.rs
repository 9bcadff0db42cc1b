//! What the texts of errors say.
use vstd::prelude::*;
use crate::error::{DataError, DataErrorModel};
use crate::interop::error::InteropError;
use crate::interop::outside::type_text;
use crate::ipc::error::{byte_count_text, IpcError, IpcErrorModel};
use crate::text::{decimal, hex_word, quoted};

verus! {

/// Whether a phrase stands in a text at a place.
pub open spec fn stands(text: Seq<char>, phrase: Seq<char>, at: int) -> bool {
    &&& 0 <= at
    &&& at + phrase.len() <= text.len()
    &&& text.subrange(at, at + phrase.len()) == phrase
}

/// Whether a phrase stands in a text.
#[verifier::opaque]
pub open spec fn says(text: Seq<char>, phrase: Seq<char>) -> bool {
    exists|at: int| stands(text, phrase, at)
}

/// A text says itself.
broadcast proof fn lemma_whole(text: Seq<char>)
    ensures
        #[trigger] says(text, text),
{
    reveal(says);
    assert(text.subrange(0, text.len() as int) =~= text);
    assert(stands(text, text, 0));
}

/// A text says what it ends with.
broadcast proof fn lemma_end(before: Seq<char>, words: Seq<char>, value: Seq<char>)
    ensures
        #[trigger] says(before + words + value, words + value),
{
    reveal(says);
    let text = before + words + value;
    let at = before.len() as int;
    assert(text.subrange(at, at + (words + value).len()) =~= words + value);
    assert(stands(text, words + value, at));
}

/// A text says what its start says.
broadcast proof fn lemma_more(start: Seq<char>, rest: Seq<char>, phrase: Seq<char>)
    requires
        says(start, phrase),
    ensures
        #[trigger] says(start + rest, phrase),
{
    reveal(says);
    let at = choose|at: int| stands(start, phrase, at);
    assert((start + rest).subrange(at, at + phrase.len()) =~= start.subrange(at, at + phrase.len()));
    assert(stands(start + rest, phrase, at));
}

/// The text of an error says each thing that the error holds, after the words
/// that tell what it is.
pub proof fn law_data_errors_say_what_they_hold(e: DataError, r: String)
    requires
        call_ensures(DataError::to_string, (&e,), r),
    ensures
        match e@ {
            DataErrorModel::ColumnCountMismatch { fields, columns } => {
                &&& says(r@, "the schema declares "@ + decimal(fields as int))
                &&& says(r@, " field(s) but "@ + decimal(columns as int))
            },
            DataErrorModel::ColumnLengthMismatch { index, name, expected, actual } => {
                &&& says(r@, "column "@ + decimal(index as int))
                &&& says(r@, " ("@ + quoted(name))
                &&& says(r@, ") has "@ + decimal(actual as int))
                &&& says(r@, " row(s), expected "@ + decimal(expected as int))
            },
            DataErrorModel::NullsInNonNullableColumn { index, name, null_count } => {
                &&& says(r@, "column "@ + decimal(index as int))
                &&& says(r@, " ("@ + quoted(name))
                &&& says(r@, ") is not nullable but holds "@ + decimal(null_count as int))
            },
            DataErrorModel::InvalidFixedSize { size } => {
                &&& says(r@, "fixed size "@ + decimal(size as int))
            },
            DataErrorModel::IndexOutOfBounds { index, len } => {
                &&& says(r@, "index "@ + decimal(index as int))
                &&& says(r@, " is out of bounds for length "@ + decimal(len as int))
            },
            DataErrorModel::FieldNotFound { name } => {
                &&& says(r@, "no field named "@ + quoted(name))
            },
            DataErrorModel::DuplicateField { name } => {
                &&& says(r@, "two fields named "@ + quoted(name))
            },
            DataErrorModel::SliceOutOfBounds { offset, len, available } => {
                &&& says(r@, "slice ["@ + decimal(offset as int))
                &&& says(r@, "; "@ + decimal(len as int))
                &&& says(r@, "] leaves the available length "@ + decimal(available as int))
            },
            DataErrorModel::MessageRowCount { actual } => {
                &&& says(r@, "expected exactly one message row but the batch has "@ + decimal(actual as int))
            },
            DataErrorModel::MessageFixedArrayLength { field, expected, actual } => {
                &&& says(r@, "fixed-size field "@ + quoted(field))
                &&& says(r@, " decoded "@ + decimal(actual as int))
                &&& says(r@, " element(s), expected "@ + decimal(expected as int))
            },
            DataErrorModel::RequiredFieldIsNull { field, row } => {
                &&& says(r@, "required field "@ + quoted(field))
                &&& says(r@, " is null in row "@ + decimal(row as int))
            },
            DataErrorModel::OffsetWidthOverflow { total, max } => {
                &&& says(r@, "offset "@ + decimal(total as int))
                &&& says(r@, " exceeds the largest representable offset "@ + decimal(max as int))
            },
            DataErrorModel::DowncastFailed { expected, .. } => {
                &&& says(r@, "the array is not a "@ + expected)
            },
            DataErrorModel::TakeIndexInvalid { position, len } => {
                &&& says(r@, "take index at position "@ + decimal(position as int))
                &&& says(r@, " does not name one of "@ + decimal(len as int))
            },
            DataErrorModel::MaskLengthMismatch { array_len, mask_len } => {
                &&& says(r@, "the mask has "@ + decimal(mask_len as int))
                &&& says(r@, " entries for "@ + decimal(array_len as int))
            },
            DataErrorModel::CastOverflow { index, .. } => {
                &&& says(r@, "the value in row "@ + decimal(index as int))
            },
            DataErrorModel::InvalidUtf8 { index } => {
                &&& says(r@, "the value in row "@ + decimal(index as int))
            },
            DataErrorModel::TensorShapeMismatch { expected, actual } => {
                &&& says(r@, "the shape has "@ + decimal(expected as int))
                &&& says(r@, " element(s) but "@ + decimal(actual as int))
            },
            DataErrorModel::TensorRankMismatch { expected, actual } => {
                &&& says(r@, "the index has "@ + decimal(actual as int))
                &&& says(r@, " component(s) for "@ + decimal(expected as int))
            },
            DataErrorModel::TensorIndexOutOfBounds { axis, index, dim } => {
                &&& says(r@, "index "@ + decimal(index as int))
                &&& says(r@, " on axis "@ + decimal(axis as int))
                &&& says(r@, " is out of bounds for extent "@ + decimal(dim as int))
            },
            DataErrorModel::TensorAxisOutOfBounds { axis, ndim } => {
                &&& says(r@, "axis "@ + decimal(axis as int))
                &&& says(r@, " is out of bounds for "@ + decimal(ndim as int))
            },
            DataErrorModel::ValidityLengthMismatch { expected, actual } => {
                &&& says(r@, "the validity bitmap has "@ + decimal(actual as int))
                &&& says(r@, " bit(s) for "@ + decimal(expected as int))
            },
            DataErrorModel::InvalidOffset { index } => {
                &&& says(r@, "offset "@ + decimal(index as int))
            },
            DataErrorModel::ValueLengthMismatch { expected, actual } => {
                &&& says(r@, "the values have length "@ + decimal(actual as int))
                &&& says(r@, ", expected "@ + decimal(expected as int))
            },
            DataErrorModel::BitmapOutOfBounds { offset, len, available } => {
                &&& says(r@, "bitmap window ["@ + decimal(offset as int))
                &&& says(r@, "; "@ + decimal(len as int))
                &&& says(r@, "] leaves "@ + decimal(available as int))
            },
            _ => true,
        },
{
    broadcast use {lemma_whole, lemma_end, lemma_more};

}

/// The same of an error of streams.
pub proof fn law_ipc_errors_say_what_they_hold(e: IpcError, r: String)
    requires
        call_ensures(IpcError::to_string, (&e,), r),
    ensures
        match e@ {
            IpcErrorModel::Io { context, source } => {
                &&& says(r@, "io error while "@ + context)
                &&& says(r@, ": "@ + source)
            },
            IpcErrorModel::UnexpectedEndOfStream { context, available, expected } => {
                &&& says(r@, "stream ended after "@ + decimal(available as int))
                &&& says(r@, " byte(s) while "@ + decimal(expected as int))
                &&& says(r@, " more were required ("@ + context)
            },
            IpcErrorModel::InvalidContinuation { marker, position } => {
                &&& says(r@, "invalid message prefix "@ + hex_word(marker))
                &&& says(r@, " at byte "@ + decimal(position as int))
            },
            IpcErrorModel::NegativeMetadataLength { length, position } => {
                &&& says(r@, "negative metadata length "@ + decimal(length as int))
                &&& says(r@, " at byte "@ + decimal(position as int))
            },
            IpcErrorModel::TooLarge { what, length, cap } => {
                &&& says(r@, what + " of "@)
                &&& says(r@, " of "@ + byte_count_text(length))
                &&& says(r@, " exceeds the "@ + byte_count_text(cap))
            },
            IpcErrorModel::MalformedFlatbuffer { context, position } => {
                &&& says(r@, "malformed flatbuffer at byte "@ + decimal(position as int))
                &&& says(r@, ": "@ + context)
            },
            IpcErrorModel::MissingField { table, field } => {
                &&& says(r@, "missing required field "@ + field)
                &&& says(r@, " of table "@ + table)
            },
            IpcErrorModel::UnsupportedMetadataVersion { version } => {
                &&& says(r@, "unsupported Arrow metadata version "@ + decimal(version as int))
            },
            IpcErrorModel::UnsupportedEndianness { endianness } => {
                &&& says(r@, "unsupported endianness "@ + decimal(endianness as int))
            },
            IpcErrorModel::UnsupportedMessageHeader { header, name } => {
                &&& says(r@, "unsupported message header "@ + decimal(header as int))
                &&& says(r@, " ("@ + name)
            },
            IpcErrorModel::UnexpectedMessage { expected, found } => {
                &&& says(r@, "expected a "@ + expected)
                &&& says(r@, " message, found "@ + found)
            },
            IpcErrorModel::UnsupportedType { code, name, field } => {
                &&& says(r@, "unsupported Arrow type "@ + decimal(code as int))
                &&& says(r@, " ("@ + name)
                &&& says(r@, ") for field "@ + quoted(field))
            },
            IpcErrorModel::UnsupportedTypeParameters { family, field, detail } => {
                &&& says(r@, "unsupported "@ + family)
                &&& says(r@, " parameters for field "@ + quoted(field))
                &&& says(r@, ": "@ + detail)
            },
            IpcErrorModel::ChildCountMismatch { field, family, expected, actual } => {
                &&& says(r@, "field "@ + quoted(field))
                &&& says(r@, " of type "@ + family)
                &&& says(r@, " declares "@ + decimal(actual as int))
                &&& says(r@, " child field(s), "@ + decimal(expected as int))
            },
            IpcErrorModel::LayoutCountMismatch { what, expected, actual } => {
                &&& says(r@, "record batch declares "@ + decimal(actual as int))
                &&& says(r@, " "@ + what)
                &&& says(r@, ", the schema needs "@ + decimal(expected as int))
            },
            IpcErrorModel::BufferOutOfBounds { index, offset, length, body_len } => {
                &&& says(r@, "buffer "@ + decimal(index as int))
                &&& says(r@, " at ("@ + decimal(offset as int))
                &&& says(r@, ", "@ + decimal(length as int))
                &&& says(r@, ") leaves the "@ + decimal(body_len as int))
            },
            IpcErrorModel::BufferTooShort { index, role, actual, required, rows } => {
                &&& says(r@, "buffer "@ + decimal(index as int))
                &&& says(r@, " ("@ + role)
                &&& says(r@, ") holds "@ + decimal(actual as int))
                &&& says(r@, " byte(s), "@ + decimal(required as int))
                &&& says(r@, " required for "@ + decimal(rows as int))
            },
            IpcErrorModel::InvalidFieldNode { index, length, null_count } => {
                &&& says(r@, "field node "@ + decimal(index as int))
                &&& says(r@, " declares length "@ + decimal(length as int))
                &&& says(r@, " and null count "@ + decimal(null_count as int))
            },
            IpcErrorModel::RowCountMismatch { declared, column, actual } => {
                &&& says(r@, "record batch declares "@ + decimal(declared as int))
                &&& says(r@, " row(s) but column "@ + decimal(column as int))
                &&& says(r@, " holds "@ + decimal(actual as int))
            },
            IpcErrorModel::UnsupportedCompression { codec } => {
                &&& says(r@, "body compression (codec "@ + decimal(codec as int))
            },
            IpcErrorModel::NotASinglePayload { count } => {
                &&& says(r@, "payload holds "@ + decimal(count as int))
            },
            IpcErrorModel::NestingTooDeep { depth, limit } => {
                &&& says(r@, "type nests "@ + decimal(depth as int))
                &&& says(r@, " level(s) deep, the limit is "@ + decimal(limit as int))
            },
            IpcErrorModel::SchemaMismatch { index } => {
                &&& says(r@, "record batch "@ + decimal(index as int))
            },
            _ => true,
        },
{
    broadcast use {lemma_whole, lemma_end, lemma_more};

}

/// The same of an error of exchanging columns with arrow.
pub proof fn law_interop_errors_say_what_they_hold(e: InteropError, r: String)
    requires
        call_ensures(InteropError::to_string, (&e,), r),
    ensures
        match e {
            InteropError::UnmappableArrowType { arrow_type } => {
                &&& says(r@, "arrow DataType `"@ + arrow_type@)
            },
            InteropError::UnsupportedTemporalUnit { kind, arrow_type } => {
                &&& says(r@, "arrow "@ + kind@)
                &&& says(r@, " is not the nanosecond, timezone-less parameterisation astrs-data requires: "@ + arrow_type@)
            },
            InteropError::ArrowTypeMismatch { expected, actual } => {
                &&& says(r@, "expected an arrow array of type "@ + type_text(expected))
                &&& says(r@, ", found "@ + type_text(actual))
            },
            InteropError::ArrowDowncastFailed { data_type } => {
                &&& says(r@, "arrow array reports type "@ + type_text(data_type))
            },
            InteropError::Arrow(e) => {
                &&& says(r@, "arrow-rs rejected the conversion: "@ + e@)
            },
            InteropError::ColumnCountMismatch { expected, actual } => {
                &&& says(r@, "schema declares "@ + decimal(expected as int))
                &&& says(r@, " field(s) but the record batch has "@ + decimal(actual as int))
            },
            _ => true,
        },
{
    broadcast use {lemma_whole, lemma_end, lemma_more};

}

} // verus!
