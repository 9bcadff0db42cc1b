//! What the library's operations give, said of their arguments and their results.
use vstd::prelude::*;
use arrow_data::ArrayData;
use arrow_schema::DataType as ArrowDataType;
use std::sync::Arc;
use crate::array::column::ArrayRef;
use crate::array::flats::BooleanArray;
use crate::array::native::F64;
use crate::datatype::DataType;
use crate::error::{DataError, DataErrorModel};
use crate::float::FloatKind;
use crate::float_laws::{has_sign, is_endless, is_finite, worth};
use crate::interop::array::{data_parts, from_arrow_array, to_array_data};
use crate::interop::datatype::{from_arrow_data_type, to_arrow_data_type};
use crate::interop::error::InteropError;
use crate::interop::kind_laws::{
    alike, law_converted_types_are_of_one_kind, law_read_types_are_of_one_kind, same_kind,
};
use crate::interop::laws::has_fields;
use crate::interop::value_laws::{
    arrow_cell, counted, law_arrow_columns_keep_their_values, law_columns_keep_their_values,
};
use crate::ipc::error::IpcError;
use crate::ipc::format_laws::{
    law_schemas_are_read_by_the_format, law_schemas_are_written_by_the_format, referred, says_schema,
};
use crate::ipc::frame_laws::{
    batches_said_at, framed, law_streams_are_read_by_the_format, law_streams_are_written_by_the_format, says_opening,
    stream_said,
};
use crate::ipc::message::{envelope_len, schema_message, MessageLimits};
use crate::ipc::payload::{decode_payload, payload_limits};
use crate::ipc::reader::{batches_of, read_ipc_stream};
use crate::ipc::schema::{decode_schema_bytes, encode_schema_bytes};
use crate::ipc::schema_laws::{encodable, schema_reachable};
use crate::ipc::stream_laws::all_carriable;
use crate::ipc::writer::{batches_model, to_ipc_bytes_with, WriteOptions};
use crate::kernel::cast::{cast, OverflowPolicy};
use crate::kernel::cast_laws::{
    bounds, counts, float_format, floats, law_floats_fit_integers_or_fail, law_floats_saturate_to_integers,
    law_integers_fit_or_fail, law_integers_saturate, law_numbers_saturate_to_floats, is_double_of, narrows_to,
    nearest_in, null_alike, stored_bits, truncated, truncates_to, truncates_within,
};
use crate::kernel::filter::{filter, filter_batch};
use crate::kernel::row_laws::{
    all_name, law_filter_batch_gives_the_set_rows, law_filter_gives_the_set_rows, law_named_rows_are_taken,
    law_take_batch_gives_the_named_rows, law_take_gives_the_named_rows, marked_null, rows_kept, rows_named, stored,
    stores_integers,
};
use crate::kernel::take::{take, take_batch};
use crate::record_batch::{same_batch, BatchV, RecordBatch};
use crate::schema::Schema;
use crate::tensor::image::{ImageV, ImageView};
use crate::tensor::image_laws::{inside, law_indices_inside_are_accepted, law_samples_are_kept};
use vstd::arithmetic::power2::pow2;

verus! {

/// Casting integers with saturation gives in each slot the integer of the type
/// nearest to the one there: the least where it is below the range, the greatest
/// where it is above, otherwise itself. Nulls stay null.
pub proof fn law_cast_saturates_integers(array: ArrayRef, to: DataType, r: Result<ArrayRef, DataError>)
    requires
        array@.wf(),
        counts(array@.ty),
        counts(to@),
        call_ensures(cast, (&array, &to, OverflowPolicy::Saturate), r),
    ensures
        r matches Ok(b) && {
            &&& b@.ty == to@
            &&& null_alike(array@, b@)
            &&& forall|i: int|
                #![trigger stored(b@, i)]
                0 <= i < array@.len && !marked_null(array@, i) ==> nearest_in(
                    stored(b@, i),
                    stored(array@, i),
                    bounds(to@),
                )
        },
{
    law_integers_saturate(r, array@, to@);
}

/// Casting integers that must fit gives each as it is, or names the first that
/// lies outside the type's range.
pub proof fn law_cast_checks_integers(array: ArrayRef, to: DataType, r: Result<ArrayRef, DataError>)
    requires
        array@.wf(),
        array@.len <= usize::MAX,
        counts(array@.ty),
        counts(to@),
        call_ensures(cast, (&array, &to, OverflowPolicy::Error), r),
    ensures
        match r {
            Ok(b) => {
                &&& b@.ty == to@
                &&& null_alike(array@, b@)
                &&& forall|i: int|
                    #![trigger stored(b@, i)]
                    0 <= i < array@.len && !marked_null(array@, i) ==> stored(b@, i) == stored(array@, i)
            },
            Err(e) => e@ matches DataErrorModel::CastOverflow { from, to: wanted, index } && {
                &&& from == array@.ty && wanted == to@ && index < array@.len
                &&& !marked_null(array@, index as int)
                &&& !(bounds(to@).0 <= stored(array@, index as int) <= bounds(to@).1)
                &&& forall|j: int|
                    #![trigger stored(array@, j)]
                    0 <= j < index && !marked_null(array@, j) ==> bounds(to@).0 <= stored(array@, j) <= bounds(to@).1
            },
        },
{
    law_integers_fit_or_fail(r, array@, to@);
}

/// Casting floating-point numbers to integers with saturation drops their
/// fractions and moves them into the type's range; no number becomes zero.
pub proof fn law_cast_truncates_floats(array: ArrayRef, to: DataType, r: Result<ArrayRef, DataError>)
    requires
        array@.wf(),
        floats(array@.ty),
        counts(to@),
        call_ensures(cast, (&array, &to, OverflowPolicy::Saturate), r),
    ensures
        r matches Ok(b) && {
            &&& b@.ty == to@
            &&& null_alike(array@, b@)
            &&& forall|i: int|
                #![trigger stored(b@, i)]
                0 <= i < array@.len && !marked_null(array@, i) ==> truncates_to(
                    stored(b@, i),
                    stored_bits(array@, i),
                    float_format(array@.ty),
                    bounds(to@),
                )
        },
{
    law_floats_saturate_to_integers(r, array@, to@);
}

/// Casting floating-point numbers that must fit drops only their fractions, or
/// names the first whose integer part lies outside the type's range.
pub proof fn law_cast_checks_floats(array: ArrayRef, to: DataType, r: Result<ArrayRef, DataError>)
    requires
        array@.wf(),
        array@.len <= usize::MAX,
        floats(array@.ty),
        counts(to@),
        call_ensures(cast, (&array, &to, OverflowPolicy::Error), r),
    ensures
        match r {
            Ok(b) => {
                &&& b@.ty == to@
                &&& null_alike(array@, b@)
                &&& forall|i: int|
                    #![trigger marked_null(array@, i)]
                    0 <= i < array@.len && !marked_null(array@, i) ==> is_finite(
                        stored_bits(array@, i),
                        float_format(array@.ty),
                    ) && stored(b@, i) == truncated(stored_bits(array@, i), float_format(array@.ty))
            },
            Err(e) => e@ matches DataErrorModel::CastOverflow { from, to: wanted, index } && {
                &&& from == array@.ty && wanted == to@ && index < array@.len
                &&& !marked_null(array@, index as int)
                &&& !truncates_within(stored_bits(array@, index as int), float_format(array@.ty), bounds(to@))
            },
        },
{
    law_floats_fit_integers_or_fail(r, array@, to@);
}

/// Casting numbers to floating-point numbers with saturation gives nearest ones.
pub proof fn law_cast_rounds_to_floats(array: ArrayRef, to: DataType, r: Result<ArrayRef, DataError>)
    requires
        array@.wf(),
        counts(array@.ty) || floats(array@.ty),
        floats(to@),
        array@.ty != to@,
        call_ensures(cast, (&array, &to, OverflowPolicy::Saturate), r),
    ensures
        r matches Ok(b) && {
            &&& b@.ty == to@
            &&& null_alike(array@, b@)
            &&& forall|i: int|
                #![trigger marked_null(array@, i)]
                0 <= i < array@.len && !marked_null(array@, i) ==> exists|d: int|
                    #![trigger is_double_of(d, array@, i)]
                    is_double_of(d, array@, i) && narrows_to(stored_bits(b@, i), float_format(to@), d)
        },
{
    law_numbers_saturate_to_floats(r, array@, to@);
}

/// Taking rows gives in each slot the source's cell at exactly the integer that
/// the index stores, or null where the index is null; it succeeds only where every
/// index names a row, and always there for values of one width.
pub proof fn law_take_takes_the_named_rows(array: ArrayRef, indices: ArrayRef, r: Result<ArrayRef, DataError>)
    requires
        array@.wf(),
        indices@.wf(),
        stores_integers(indices@),
        call_ensures(take, (&array, &indices), r),
    ensures
        r matches Ok(b) ==> all_name(indices@, array@.len) && b@.ty == array@.ty && rows_named(
            b@.cells(),
            array@.cells(),
            indices@,
        ),
        array@.body is Fixed || array@.body is Bits || array@.body is Null ==> (r is Ok <==> all_name(
            indices@,
            array@.len,
        )),
{
    if r is Ok {
        law_take_gives_the_named_rows(r, array@, indices@);
    }
    if array@.body is Fixed || array@.body is Bits || array@.body is Null {
        law_named_rows_are_taken(r, array@, indices@);
    }
}

/// Taking rows of a batch gives in every column the rows that the indices name.
pub proof fn law_take_batch_takes_the_named_rows(batch: RecordBatch, indices: ArrayRef, r: Result<RecordBatch, DataError>)
    requires
        batch@.wf(),
        batch@.columns.len() > 0,
        indices@.wf(),
        stores_integers(indices@),
        call_ensures(take_batch, (&batch, &indices), r),
    ensures
        r matches Ok(b) ==> {
            &&& all_name(indices@, batch@.rows)
            &&& b@.schema == batch@.schema
            &&& b@.rows == indices@.len
            &&& b@.columns.len() == batch@.columns.len()
            &&& forall|c: int|
                #![trigger b@.columns[c]]
                0 <= c < b@.columns.len() ==> b@.columns[c].ty == batch@.columns[c].ty && rows_named(
                    b@.columns[c].cells(),
                    batch@.columns[c].cells(),
                    indices@,
                )
        },
{
    if r is Ok {
        law_take_batch_gives_the_named_rows(r, batch@, indices@);
    }
}

/// Filtering gives exactly the cells of the rows whose mask bit is set and not
/// null, in order; a mask of another length is refused.
pub proof fn law_filter_keeps_the_set_rows(array: ArrayRef, mask: BooleanArray, r: Result<ArrayRef, DataError>)
    requires
        array@.wf(),
        mask@.wf(),
        mask@.ty is Bool,
        call_ensures(filter, (&array, &mask), r),
    ensures
        array@.len != mask@.len ==> r is Err,
        r matches Ok(b) ==> b@.ty == array@.ty && exists|rows: Seq<int>|
            #![trigger rows_kept(rows, mask@)]
            rows_kept(rows, mask@) && b@.cells() == rows.map_values(|i: int| array@.cells()[i]),
{
    if r is Ok {
        let rows = law_filter_gives_the_set_rows(r, array@, mask@);
        assert(rows_kept(rows, mask@));
    }
}

/// Filtering a batch gives in every column exactly the cells of the rows whose mask
/// bit is set and not null, in order.
pub proof fn law_filter_batch_keeps_the_set_rows(
    batch: RecordBatch,
    mask: BooleanArray,
    r: Result<RecordBatch, DataError>,
)
    requires
        batch@.wf(),
        mask@.wf(),
        mask@.ty is Bool,
        call_ensures(filter_batch, (&batch, &mask), r),
    ensures
        batch@.rows != mask@.len ==> r is Err,
        r matches Ok(b) ==> b@.schema == batch@.schema && b@.columns.len() == batch@.columns.len() && exists|
            rows: Seq<int>,
        |
            #![trigger rows_kept(rows, mask@)]
            rows_kept(rows, mask@) && b@.rows == rows.len() && forall|c: int|
                #![trigger b@.columns[c]]
                0 <= c < b@.columns.len() ==> b@.columns[c].cells() == rows.map_values(
                    |i: int| batch@.columns[c].cells()[i],
                ),
{
    if r is Ok {
        let rows = law_filter_batch_gives_the_set_rows(r, batch@, mask@);
        assert(rows_kept(rows, mask@));
    }
}

/// A type is converted to arrow's type of the same kind, always.
pub proof fn law_types_go_to_arrow(t: DataType, r: Result<ArrowDataType, InteropError>)
    requires
        call_ensures(to_arrow_data_type, (&t,), r),
    ensures
        r matches Ok(d) && same_kind(d, t),
{
    law_converted_types_are_of_one_kind(r->Ok_0, t);
}

/// An arrow type is converted to the type of the same kind, or to none.
pub proof fn law_types_come_from_arrow(d: ArrowDataType, r: Result<DataType, InteropError>)
    requires
        call_ensures(from_arrow_data_type, (&d,), r),
    ensures
        r matches Ok(t) ==> same_kind(d, t),
{
    if let Ok(t) = r {
        law_read_types_are_of_one_kind(d, t);
    }
}

/// A column that goes to arrow is there what it was here, slot by slot.
pub proof fn law_columns_go_to_arrow(array: ArrayRef, r: Result<ArrayData, InteropError>)
    requires
        array@.wf(),
        has_fields(array@.ty),
        call_ensures(to_array_data, (&array,), r),
        r matches Ok(d) ==> counted(data_parts(d)),
    ensures
        r matches Ok(d) ==> {
            let p = data_parts(d);
            &&& p.len == array@.len
            &&& alike(p.ty, array@.ty)
            &&& forall|i: int| #![trigger arrow_cell(p, i)] 0 <= i < p.len ==> arrow_cell(p, i) == array@.cell(i)
        },
{
    if let Ok(d) = r {
        law_columns_keep_their_values(data_parts(d), array@);
    }
}

/// A column that comes from arrow is here what it was there, slot by slot.
pub proof fn law_columns_come_from_arrow(data: ArrayData, r: Result<ArrayRef, InteropError>)
    requires
        counted(data_parts(data)),
        call_ensures(from_arrow_array, (&data,), r),
    ensures
        r matches Ok(a) ==> {
            let p = data_parts(data);
            &&& a@.len == p.len
            &&& alike(p.ty, a@.ty)
            &&& forall|i: int| #![trigger a@.cell(i)] 0 <= i < p.len ==> a@.cell(i) == arrow_cell(p, i)
        },
{
    if let Ok(a) = r {
        law_arrow_columns_keep_their_values(data_parts(data), a@);
    }
}

/// A sample of an image is read as the double of its own number, at every index
/// inside the image and at no other.
pub proof fn law_samples_are_read(image: ImageView, index: &[usize], r: Result<F64, DataError>)
    requires
        call_ensures(ImageView::get_f64, (&image, index), r),
    ensures
        r is Ok <==> inside(index@, image@.shape()),
        r matches Ok(v) ==> match image@ {
            ImageV::U8(t) => {
                &&& is_finite(v.bits as int, FloatKind::Double)
                &&& !has_sign(v.bits as int, FloatKind::Double)
                &&& worth(v.bits as int, FloatKind::Double) == t.at(index@) as nat * pow2(1074)
            },
            ImageV::U16(t) => {
                &&& is_finite(v.bits as int, FloatKind::Double)
                &&& !has_sign(v.bits as int, FloatKind::Double)
                &&& worth(v.bits as int, FloatKind::Double) == t.at(index@) as nat * pow2(1074)
            },
            ImageV::F32(t) => {
                let c = t.at(index@).bits as int;
                &&& has_sign(v.bits as int, FloatKind::Double) == has_sign(c, FloatKind::Single)
                &&& is_finite(v.bits as int, FloatKind::Double) == is_finite(c, FloatKind::Single)
                &&& is_endless(v.bits as int, FloatKind::Double) == is_endless(c, FloatKind::Single)
                &&& is_finite(c, FloatKind::Single) ==> worth(v.bits as int, FloatKind::Double) == worth(
                    c,
                    FloatKind::Single,
                )
            },
        },
{
    law_indices_inside_are_accepted(index@, image@.shape());
    if let Ok(v) = r {
        law_samples_are_kept(image@, index@, v);
    }
}

/// The bytes that a schema is encoded as say it by the layout of the format.
pub proof fn law_schemas_are_encoded_by_the_format(schema: Schema, r: Result<Vec<u8>, IpcError>)
    requires
        encodable(schema@),
        schema_reachable(schema@),
        call_ensures(encode_schema_bytes, (&schema,), r),
    ensures
        r matches Ok(bytes) ==> says_schema(bytes@, referred(bytes@, 0), schema@),
{
    law_schemas_are_written_by_the_format(schema@);
}

/// The schema that bytes are decoded as is the one that they say by the layout of
/// the format.
pub proof fn law_schemas_are_decoded_by_the_format(bytes: &[u8], r: Result<Schema, IpcError>)
    requires
        call_ensures(decode_schema_bytes, (bytes,), r),
    ensures
        r matches Ok(s) ==> says_schema(bytes@, referred(bytes@, 0), s@),
{
    if let Ok(s) = r {
        law_schemas_are_read_by_the_format(bytes@, s@);
    }
}

/// The stream that bytes are read as is the one that they say by the layout of the
/// format.
pub proof fn law_streams_are_decoded_by_the_format(
    bytes: &[u8],
    r: Result<(Arc<Schema>, Vec<RecordBatch>), IpcError>,
)
    requires
        bytes@.len() < usize::MAX,
        call_ensures(read_ipc_stream, (bytes,), r),
    ensures
        r matches Ok((s, batches)) ==> stream_said(bytes@, s@, batches_of(batches@)),
{
    if let Ok((s, batches)) = r {
        law_streams_are_read_by_the_format(
            bytes@,
            crate::ipc::reader::default_options().limits,
            s@,
            batches_of(batches@),
        );
    }
}

/// The bytes that batches are written as say them by the layout of the format.
pub proof fn law_streams_are_encoded_by_the_format(
    schema: Arc<Schema>,
    batches: &[RecordBatch],
    options: WriteOptions,
    limits: MessageLimits,
    r: Result<Vec<u8>, IpcError>,
)
    requires
        encodable(schema@),
        envelope_len(schema_message(schema@).len() as int, options@ as int) - 8 <= limits.max_metadata_bytes,
        all_carriable(schema@, batches_model(batches@), options@ as int, limits),
        call_ensures(to_ipc_bytes_with, (schema, batches, options), r),
    ensures
        r matches Ok(bytes) ==> bytes@.len() < usize::MAX ==> exists|kept: Seq<BatchV>|
            #![trigger stream_said(bytes@, schema@, kept)]
            kept.len() == batches@.len() && (forall|i: int|
                #![trigger kept[i]]
                0 <= i < kept.len() ==> same_batch(kept[i], batches@[i]@)) && stream_said(bytes@, schema@, kept),
{
    if let Ok(bytes) = r {
        if bytes@.len() < usize::MAX {
            let all = batches_model(batches@);
            law_streams_are_written_by_the_format(schema@, all, options@ as int, limits);
            let kept = choose|kept: Seq<BatchV>|
                #![trigger stream_said(bytes@, schema@, kept)]
                kept.len() == all.len() && (forall|i: int|
                    #![trigger kept[i]]
                    0 <= i < kept.len() ==> same_batch(kept[i], all[i])) && stream_said(bytes@, schema@, kept);
            assert forall|i: int| #![trigger kept[i]] 0 <= i < kept.len() implies same_batch(kept[i], batches@[i]@) by {
                assert(all[i] == batches@[i]@);
            }
        }
    }
}

/// A payload is decoded as the one batch that its bytes say by the layout of the
/// format.
pub proof fn law_payloads_are_decoded_by_the_format(bytes: &[u8], r: Result<RecordBatch, IpcError>)
    requires
        bytes@.len() < usize::MAX,
        call_ensures(decode_payload, (bytes,), r),
    ensures
        r matches Ok(b) ==> stream_said(bytes@, b@.schema, seq![b@]),
{
    if let Ok(b) = r {
        let (s, batches) = crate::ipc::reader::whole_stream(bytes@, payload_limits())->Ok_0;
        law_streams_are_read_by_the_format(bytes@, payload_limits(), s, batches);
        assert(batches =~= seq![b@]);
        let (metadata, body, next) = choose|metadata: int, body: int, next: int|
            #![trigger framed(bytes@, 0, metadata, body, next)]
            framed(bytes@, 0, metadata, body, next) && says_opening(bytes@.subrange(metadata, body), s)
                && batches_said_at(bytes@, next, s, batches);
        assert(batches_said_at(bytes@, next, s, batches));
        assert(b@.schema == s);
    }
}

} // verus!
