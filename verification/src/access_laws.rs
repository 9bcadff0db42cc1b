//! What is put in comes out again, call by call.
use vstd::prelude::*;
use vstd::utf8::{encode_utf8_decode_utf8, encode_utf8_valid_utf8};
use crate::array::build_laws::law_strings_are_held;
use crate::array::flats::BooleanArray;
use crate::array::native::ArrowNativeType;
use crate::array::primitive::PrimitiveArray;
use crate::array::strings::{
    slices_model, slot_lists, strings_fit, texts_model, BinaryArray, LargeStringArray, StringArray,
};
use crate::batch_laws::law_the_first_index_past_is_found;
use crate::datatype::{DataType, TypeModel};
use crate::error::{DataError, DataErrorModel};
use crate::flat::flat;
use crate::ipc::error::{IpcError, IpcErrorModel};
use crate::ipc::format::DEFAULT_MESSAGE_ALIGNMENT;
use crate::ipc::layout_laws::law_payloads_are_padded_streams;
use crate::ipc::payload::{check_payload_size, encode_payload};
use crate::ipc::reader::ReadOptions;
use crate::record_batch::RecordBatch;
use crate::schema::Schema;

verus! {

/// A column of optional texts gives back each text, and nothing where there was
/// none or past the end.
pub proof fn law_texts_are_read_back(
    slots: Vec<Option<&str>>,
    column: StringArray,
    index: usize,
    r: Option<&str>,
)
    requires
        call_ensures(StringArray::from_opt_iter, (slots,), column),
        call_ensures(StringArray::get, (&column, index), r),
        strings_fit(TypeModel::Utf8, texts_model(slots@)),
    ensures
        index >= slots@.len() ==> r is None,
        index < slots@.len() ==> match slots@[index as int] {
            Some(text) => r matches Some(read) && read@ == text@,
            None => r is None,
        },
{
    let held = texts_model(slots@);
    assert(slots.len() == slots@.len());
    if index < slots@.len() {
        assert forall|i: int| #![trigger held[i]] 0 <= i < held.len() && held[i] is Some implies vstd::utf8::valid_utf8(
            held[i]->0,
        ) by {
            encode_utf8_valid_utf8(slots@[i]->0@);
        }
        law_strings_are_held(TypeModel::Utf8, held, index as int);
        if let Some(text) = slots@[index as int] {
            encode_utf8_decode_utf8(text@);
            if let Some(read) = r {
                encode_utf8_decode_utf8(read@);
            }
        }
    }
}

/// The same of a column of optional texts with wide offsets.
pub proof fn law_wide_texts_are_read_back(
    slots: Vec<Option<&str>>,
    column: LargeStringArray,
    index: usize,
    r: Option<&str>,
)
    requires
        call_ensures(LargeStringArray::from_opt_iter, (slots,), column),
        call_ensures(LargeStringArray::get, (&column, index), r),
        strings_fit(TypeModel::LargeUtf8, texts_model(slots@)),
        flat(slot_lists(texts_model(slots@))).len() <= usize::MAX,
    ensures
        index >= slots@.len() ==> r is None,
        index < slots@.len() ==> match slots@[index as int] {
            Some(text) => r matches Some(read) && read@ == text@,
            None => r is None,
        },
{
    let held = texts_model(slots@);
    assert(slots.len() == slots@.len());
    if index < slots@.len() {
        assert forall|i: int| #![trigger held[i]] 0 <= i < held.len() && held[i] is Some implies vstd::utf8::valid_utf8(
            held[i]->0,
        ) by {
            encode_utf8_valid_utf8(slots@[i]->0@);
        }
        law_strings_are_held(TypeModel::LargeUtf8, held, index as int);
        if let Some(text) = slots@[index as int] {
            encode_utf8_decode_utf8(text@);
            if let Some(read) = r {
                encode_utf8_decode_utf8(read@);
            }
        }
    }
}

/// The same of a column of optional byte strings.
pub proof fn law_byte_strings_are_read_back(
    slots: Vec<Option<&[u8]>>,
    column: BinaryArray,
    index: usize,
    r: Option<&[u8]>,
)
    requires
        call_ensures(BinaryArray::from_opt_iter, (slots,), column),
        call_ensures(BinaryArray::get, (&column, index), r),
        strings_fit(TypeModel::Binary, slices_model(slots@)),
    ensures
        index >= slots@.len() ==> r is None,
        index < slots@.len() ==> match slots@[index as int] {
            Some(bytes) => r matches Some(read) && read@ == bytes@,
            None => r is None,
        },
{
    assert(slots.len() == slots@.len());
    if index < slots@.len() {
        law_strings_are_held(TypeModel::Binary, slices_model(slots@), index as int);
    }
}

/// The same of a column of optional bits.
pub proof fn law_bits_are_read_back(
    slots: Vec<Option<bool>>,
    column: BooleanArray,
    index: usize,
    r: Option<bool>,
)
    requires
        call_ensures(BooleanArray::from_opt_iter, (slots,), column),
        call_ensures(BooleanArray::get, (&column, index), r),
    ensures
        r == (if index < slots@.len() {
            slots@[index as int]
        } else {
            None
        }),
{
}

/// The same of a column of optional values.
pub proof fn law_values_are_read_back<T: ArrowNativeType>(
    slots: Vec<Option<T>>,
    column: PrimitiveArray<T>,
    index: usize,
    r: Option<T>,
)
    requires
        call_ensures(PrimitiveArray::<T>::from_opt_iter, (slots,), column),
        call_ensures(PrimitiveArray::<T>::get, (&column, index), r),
    ensures
        r == (if index < slots@.len() {
            slots@[index as int]
        } else {
            None
        }),
{
    if index < slots@.len() {
        if let Some(v) = slots@[index as int] {
            T::lemma_native(v);
        }
    }
}

/// A schema is projected exactly where every index names a field: field by field
/// to the fields that the indices name, with its metadata. Else the first index that
/// names none is told.
pub proof fn law_schemas_are_projected(schema: Schema, indices: &[usize], r: Result<Schema, DataError>)
    requires
        call_ensures(Schema::project, (&schema, indices), r),
    ensures
        r is Ok <==> forall|i: int| #![trigger indices@[i]] 0 <= i < indices@.len() ==> indices@[i] < schema@.fields.len(),
        r matches Ok(s) ==> {
            &&& s@.metadata == schema@.metadata
            &&& s@.fields.len() == indices@.len()
            &&& forall|i: int|
                #![trigger indices@[i]]
                0 <= i < indices@.len() ==> s@.fields[i] == schema@.fields[indices@[i] as int]
        },
        r matches Err(e) ==> exists|i: int|
            #![trigger indices@[i]]
            {
                &&& 0 <= i < indices@.len() && indices@[i] >= schema@.fields.len()
                &&& forall|j: int| #![trigger indices@[j]] 0 <= j < i ==> indices@[j] < schema@.fields.len()
                &&& e@ == (DataErrorModel::IndexOutOfBounds {
                    index: indices@[i],
                    len: schema@.fields.len() as usize,
                })
            },
{
    law_the_first_index_past_is_found(indices@, schema@.fields.len());
}

/// A batch is projected with its schema: column by column to those that the indices
/// name, with as many rows.
pub proof fn law_batches_are_projected(batch: RecordBatch, indices: &[usize], r: Result<RecordBatch, DataError>)
    requires
        call_ensures(RecordBatch::project, (&batch, indices), r),
    ensures
        r is Ok <==> forall|i: int| #![trigger indices@[i]] 0 <= i < indices@.len() ==> indices@[i] < batch@.columns.len(),
        r matches Ok(b) ==> {
            &&& b@.rows == batch@.rows
            &&& b@.schema.metadata == batch@.schema.metadata
            &&& b@.columns.len() == indices@.len() == b@.schema.fields.len()
            &&& forall|i: int|
                #![trigger indices@[i]]
                0 <= i < indices@.len() ==> b@.columns[i] == batch@.columns[indices@[i] as int] && b@.schema.fields[i]
                    == batch@.schema.fields[indices@[i] as int]
        },
{
    law_the_first_index_past_is_found(indices@, batch@.columns.len());
}

/// An error speaks of malformed bytes or of an unsupported feature, never of both;
/// and of neither exactly where the bytes are not what is wrong: the source, the
/// data, a size, the order or number of messages, or what was given to write.
pub proof fn law_errors_are_of_one_class(error: IpcError, malformed: bool, unsupported: bool)
    requires
        call_ensures(IpcError::is_malformed, (&error,), malformed),
        call_ensures(IpcError::is_unsupported, (&error,), unsupported),
    ensures
        !(malformed && unsupported),
        !malformed && !unsupported <==> (error is Io || error is Data || error is TooLarge || error is UnexpectedMessage
            || error is EmptyStream || error is NotASinglePayload || error is MissingSchema || error is SchemaMismatch),
        unsupported <==> (error is UnsupportedMetadataVersion || error is UnsupportedEndianness
            || error is UnsupportedMessageHeader || error is UnsupportedType || error is UnsupportedTypeParameters
            || error is UnsupportedCompression || error is UnsupportedDictionary),
{
}

/// A type is nested exactly where it is none of those that hold no other type.
pub proof fn law_types_that_hold_types_are_nested(t: DataType, r: bool)
    requires
        call_ensures(DataType::is_nested, (&t,), r),
    ensures
        !r <==> match t@ {
            TypeModel::Null | TypeModel::Bool => true,
            TypeModel::Int8 | TypeModel::Int16 | TypeModel::Int32 | TypeModel::Int64 => true,
            TypeModel::UInt8 | TypeModel::UInt16 | TypeModel::UInt32 | TypeModel::UInt64 => true,
            TypeModel::Float16 | TypeModel::Float32 | TypeModel::Float64 => true,
            TypeModel::Timestamp | TypeModel::Duration => true,
            TypeModel::Binary | TypeModel::LargeBinary | TypeModel::FixedSizeBinary(_) => true,
            TypeModel::Utf8 | TypeModel::LargeUtf8 => true,
            TypeModel::List(_) | TypeModel::FixedSizeList(_, _) | TypeModel::Struct(_) => false,
        },
{
}

/// A payload that is made fills whole runs of 128 bytes, and is no longer than
/// 2^28 bytes.
pub proof fn law_payloads_are_whole_runs(batch: RecordBatch, r: Result<Vec<u8>, IpcError>)
    requires
        call_ensures(encode_payload, (&batch,), r),
    ensures
        r matches Ok(bytes) ==> bytes@.len() % 128 == 0 && bytes@.len() <= 268_435_456,
{
    if let Ok(bytes) = r {
        law_payloads_are_padded_streams(batch@, DEFAULT_MESSAGE_ALIGNMENT as int);
    }
}

/// A payload of more than 2^28 bytes is too large, and none of fewer is.
pub proof fn law_payload_sizes_are_capped(len: usize, r: Result<(), IpcError>)
    requires
        call_ensures(check_payload_size, (len,), r),
    ensures
        r is Ok <==> len <= 268_435_456,
        r matches Err(e) ==> (e@ matches IpcErrorModel::TooLarge { length, cap, .. } && length == len && cap
            == 268_435_456),
{
}

/// Unless told otherwise, a reader takes messages with up to 2^26 bytes of metadata
/// and 2^28 bytes of body, and streams of up to 2^30 bytes.
pub proof fn law_readers_have_caps(r: ReadOptions)
    requires
        call_ensures(ReadOptions::new, (), r),
    ensures
        r.limits.max_metadata_bytes == 67_108_864,
        r.limits.max_body_bytes == 268_435_456,
        r.max_stream_bytes == 1_073_741_824,
{
}

} // verus!
