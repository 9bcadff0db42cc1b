//! What is said of arguments that are refused: the first thing that is wrong.
use vstd::prelude::*;
use crate::array::column::ArrayRef;
use crate::array::model::{ArrayV, Cell};
use crate::array::parts::{first_bad_offset, offset_fits, offsets_error};
use crate::batch_laws::{law_layouts_are_types_without_names, lemma_refusal, stands_under};
use crate::datatype::{FieldModel, SchemaModel};
use crate::error::{DataError, DataErrorModel};
use crate::kernel::gather::{first_total_over, picked, picked_bytes};
use crate::kernel::row_laws::{
    all_name, law_bad_indices_are_refused, lemma_rows_named, marked_null, rows_named, stored, stores_integers,
};
use crate::kernel::take::{positions_of, take};
use crate::record_batch::{columns_refusal, make_batch, rows_of, RecordBatchOptions};
use crate::tensor::image_laws::inside;
use crate::tensor::shape::{first_outside, index_refusal};

verus! {

/// Whether an error says what is wrong with column `k` under its field.
pub open spec fn tells(e: DataErrorModel, k: int, column: ArrayV, field: FieldModel, rows: nat) -> bool {
    match e {
        DataErrorModel::ColumnLengthMismatch { index, name, expected, actual } => {
            &&& index == k as usize && name == field.name
            &&& expected == rows as usize && actual == column.len as usize
            &&& column.len != rows
        },
        DataErrorModel::TypeMismatch { expected, actual } => {
            &&& expected == field.data_type && actual == column.ty
            &&& column.len == rows && column.ty != field.data_type
        },
        DataErrorModel::NullsInNonNullableColumn { index, name, null_count } => {
            &&& index == k as usize && name == field.name
            &&& null_count == column.nulls() as usize && column.nulls() > 0
            &&& column.len == rows && !field.nullable
        },
        _ => false,
    }
}

/// The first column that may not stand under its field is told of.
proof fn lemma_first_refusal(
    fields: Seq<FieldModel>,
    columns: Seq<ArrayV>,
    count: nat,
    rows: nat,
    options: RecordBatchOptions,
)
    requires
        count <= columns.len(),
    ensures
        columns_refusal(fields, columns, count, rows, options) matches Some(e) ==> exists|k: int|
            #![trigger columns[k]]
            0 <= k < count && tells(e, k, columns[k], fields[k], rows) && columns_refusal(
                fields,
                columns,
                k as nat,
                rows,
                options,
            ) is None,
    decreases count,
{
    if count > 0 {
        lemma_first_refusal(fields, columns, (count - 1) as nat, rows, options);
        let k = count - 1;
        law_layouts_are_types_without_names(fields[k].data_type, columns[k].ty);
        if columns_refusal(fields, columns, k as nat, rows, options) is None && columns_refusal(
            fields,
            columns,
            count,
            rows,
            options,
        ) is Some {
            assert(tells(
                columns_refusal(fields, columns, count, rows, options)->0,
                k,
                columns[k],
                fields[k],
                rows,
            ));
        }
    }
}

/// Columns that make no batch are refused for their number, or for the first of
/// them that may not stand under its field: its length, its type or its nulls.
pub proof fn law_batches_are_refused_for_the_first_column(
    schema: SchemaModel,
    columns: Seq<ArrayV>,
    options: RecordBatchOptions,
)
    requires
        forall|k: int| #![trigger columns[k]] 0 <= k < columns.len() ==> columns[k].wf(),
    ensures
        make_batch(schema, columns, options) matches Err(e) ==> {
            ||| columns.len() != schema.fields.len() && e == (DataErrorModel::ColumnCountMismatch {
                fields: schema.fields.len() as usize,
                columns: columns.len() as usize,
            })
            ||| columns.len() == schema.fields.len() && exists|k: int|
                #![trigger columns[k]]
                {
                    &&& 0 <= k < columns.len() && tells(e, k, columns[k], schema.fields[k], rows_of(columns, options))
                    &&& forall|j: int|
                        #![trigger columns[j]]
                        0 <= j < k ==> stands_under(columns[j], schema.fields[j], rows_of(columns, options), options)
                }
        },
{
    let rows = rows_of(columns, options);
    lemma_first_refusal(schema.fields, columns, columns.len(), rows, options);
    if let Some(e) = columns_refusal(schema.fields, columns, columns.len(), rows, options) {
        let k = choose|k: int|
            #![trigger columns[k]]
            0 <= k < columns.len() && tells(e, k, columns[k], schema.fields[k], rows) && columns_refusal(
                schema.fields,
                columns,
                k as nat,
                rows,
                options,
            ) is None;
        lemma_refusal(schema.fields, columns, k as nat, rows, options);
    }
}

/// An index into a shape is refused for its number of components, or for the first
/// of them that is not below its extent.
pub proof fn law_indices_are_refused_for_the_first_axis(index: Seq<usize>, shape: Seq<usize>)
    ensures
        index_refusal(index, shape) matches Some(e) ==> {
            ||| index.len() != shape.len() && e == (DataErrorModel::TensorRankMismatch {
                expected: shape.len() as usize,
                actual: index.len() as usize,
            })
            ||| index.len() == shape.len() && exists|k: int|
                #![trigger index[k]]
                0 <= k < index.len() && index[k] >= shape[k] && inside(index.take(k), shape.take(k)) && e == (
                DataErrorModel::TensorIndexOutOfBounds { axis: k as usize, index: index[k], dim: shape[k] })
        },
{
    if index.len() == shape.len() {
        lemma_outside(index, shape, shape.len());
        if let Some(k) = first_outside(index, shape, shape.len()) {
            assert(inside(index.take(k as int), shape.take(k as int)));
            assert(index[k as int] >= shape[k as int]);
        }
    }
}

proof fn lemma_outside(index: Seq<usize>, shape: Seq<usize>, count: nat)
    requires
        count <= index.len() == shape.len(),
    ensures
        match first_outside(index, shape, count) {
            Some(k) => k < count && index[k as int] >= shape[k as int] && forall|j: int|
                #![trigger index[j]]
                0 <= j < k ==> index[j] < shape[j],
            None => forall|j: int| #![trigger index[j]] 0 <= j < count ==> index[j] < shape[j],
        },
    decreases count,
{
    if count > 0 {
        lemma_outside(index, shape, (count - 1) as nat);
    }
}

/// Offsets are refused for the first that is negative, before the one in front of it
/// or past the end, or else for a last one that the width does not hold.
pub proof fn law_offsets_are_refused_for_the_first(offsets: Seq<i64>, limit: int, max: int)
    ensures
        offsets_error(offsets, limit, max) matches Some(e) ==> {
            ||| offsets.len() == 0 && e == (DataErrorModel::InvalidOffset { index: 0 })
            ||| exists|k: int|
                #![trigger offsets[k]]
                {
                    &&& 0 <= k < offsets.len() && e == (DataErrorModel::InvalidOffset { index: k as usize })
                    &&& offsets[k] < 0 || offsets[k] > limit || k > 0 && offsets[k] < offsets[k - 1]
                    &&& forall|i: int, j: int|
                        #![trigger offsets[i], offsets[j]]
                        0 <= i <= j < k ==> 0 <= offsets[i] <= offsets[j] <= limit
                }
            ||| offsets.len() > 0 && offsets[offsets.len() - 1] > max && e == (DataErrorModel::OffsetWidthOverflow {
                total: offsets[offsets.len() - 1] as usize,
                max: max as usize,
            })
        },
{
    lemma_bad_offset(offsets, offsets.len(), limit);
    if offsets.len() > 0 {
        if let Some(k) = first_bad_offset(offsets, offsets.len(), limit) {
            assert(!offset_fits(offsets, k as int, limit));
            assert(offsets[k as int] < 0 || offsets[k as int] > limit || k > 0 && offsets[k as int] < offsets[k as int
                - 1]);
        }
    }
}

/// The first offsets rise from nothing to at most a limit.
spec fn rising(offsets: Seq<i64>, count: int, limit: int) -> bool {
    forall|i: int, j: int|
        #![trigger offsets[i], offsets[j]]
        0 <= i <= j < count ==> 0 <= offsets[i] <= offsets[j] <= limit
}

proof fn lemma_bad_offset(offsets: Seq<i64>, count: nat, limit: int)
    ensures
        match first_bad_offset(offsets, count, limit) {
            Some(k) => k < count && !offset_fits(offsets, k as int, limit) && rising(offsets, k as int, limit),
            None => rising(offsets, count as int, limit),
        },
    decreases count,
{
    if count > 0 {
        lemma_bad_offset(offsets, (count - 1) as nat, limit);
        if first_bad_offset(offsets, count, limit) is None {
            assert forall|i: int, j: int|
                #![trigger offsets[i], offsets[j]]
                0 <= i <= j < count implies 0 <= offsets[i] <= offsets[j] <= limit by {
                if j == count - 1 && j > 0 {
                    assert(offsets[j - 1] <= offsets[j]);
                    assert(i < j ==> 0 <= offsets[i] <= offsets[j - 1]);
                    assert(0 <= offsets[j - 1]);
                }
            }
        }
    }
}

/// The bytes in cells together.
pub open spec fn bytes_in(cells: Seq<Cell>) -> nat
    decreases cells.len(),
{
    if cells.len() == 0 {
        0
    } else {
        bytes_in(cells.drop_last()) + match cells.last() {
            Cell::Bytes(b) => b.len(),
            _ => 0,
        }
    }
}

proof fn lemma_bytes(a: ArrayV, positions: Seq<Option<usize>>, count: nat)
    requires
        count <= positions.len(),
    ensures
        picked_bytes(a, positions, count) == bytes_in(picked(a, positions).take(count as int)),
        first_total_over(a, positions, count) is None <==> picked_bytes(a, positions, count)
            <= crate::array::model::max_offset(a.ty),
    decreases count,
{
    let cells = picked(a, positions);
    if count > 0 {
        lemma_bytes(a, positions, (count - 1) as nat);
        assert(cells.take(count as int).drop_last() =~= cells.take(count - 1));
        assert(cells.take(count as int).last() == cells[count - 1]);
    } else {
        assert(cells.take(0) =~= Seq::<Cell>::empty());
    }
}

/// Taking is refused for indices that are no integers; for the first index that
/// names no row; and, of byte strings, where the bytes of the named rows are more
/// than offsets of the type reach. Otherwise byte strings are taken.
pub proof fn law_take_is_refused_for_the_first_index(
    array: ArrayRef,
    indices: ArrayRef,
    r: Result<ArrayRef, DataError>,
    cells: Seq<Cell>,
)
    requires
        array@.wf(),
        indices@.wf(),
        call_ensures(take, (&array, &indices), r),
        all_name(indices@, array@.len) ==> rows_named(cells, array@.cells(), indices@),
    ensures
        !stores_integers(indices@) ==> (r matches Err(e) && e@ is DowncastFailed && e@->DowncastFailed_actual
            == indices@.ty),
        stores_integers(indices@) && !all_name(indices@, array@.len) ==> (r matches Err(e) && exists|k: int|
            #![trigger marked_null(indices@, k)]
            {
                &&& 0 <= k < indices@.len && !marked_null(indices@, k) && !(0 <= stored(indices@, k) < array@.len)
                &&& forall|j: int|
                    #![trigger marked_null(indices@, j)]
                    0 <= j < k && !marked_null(indices@, j) ==> 0 <= stored(indices@, j) < array@.len
                &&& e@ == (DataErrorModel::TakeIndexInvalid { position: k as usize, len: array@.len as usize })
            }),
        stores_integers(indices@) && all_name(indices@, array@.len) && (array@.ty is Binary || array@.ty is Utf8) ==> (
        r is Ok <==> bytes_in(cells) <= 0x7FFF_FFFF),
        stores_integers(indices@) && all_name(indices@, array@.len) && (array@.ty is LargeBinary || array@.ty is LargeUtf8)
            ==> (r is Ok <==> bytes_in(cells) <= 0x7FFF_FFFF_FFFF_FFFF),
{
    if stores_integers(indices@) {
        law_bad_indices_are_refused(indices@, array@.len);
        if all_name(indices@, array@.len) {
            lemma_rows_named(array@, indices@);
            let positions = positions_of(indices@);
            let taken = picked(array@, positions);
            assert(taken =~= cells);
            lemma_bytes(array@, positions, positions.len());
            assert(taken.take(positions.len() as int) =~= taken);
        } else {
            let e = r->Err_0@;
            let k = e->TakeIndexInvalid_position as int;
            assert(!marked_null(indices@, k));
        }
    }
}

} // verus!
