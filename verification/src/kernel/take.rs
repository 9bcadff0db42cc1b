//! Taking rows by index.
use vstd::prelude::*;
use crate::array::column::{arrays_model, ArrayRef};
use crate::array::model::{ArrayV, Cell};
use crate::buffer::unset;
use crate::datatype::clone_type;
use crate::error::{DataError, DataErrorModel};
use crate::kernel::gather::{gather, gather_error, gathered, names, pickable, picked};
use crate::kernel::integers::{integers, integers_of, is_integer, wide_model};
use crate::record_batch::{accepted, columns_refusal, make_batch, strict, BatchV, RecordBatch, RecordBatchOptions};

verus! {

/// Whether an index names no row of `len`.
pub open spec fn is_bad_index(index: Option<int>, len: nat) -> bool {
    index matches Some(x) && !(0 <= x < len)
}

/// The first of the first `count` indices that names no row of `len`.
pub open spec fn first_bad_index(indices: Seq<Option<int>>, len: nat, count: nat) -> Option<nat>
    decreases count,
{
    if count == 0 {
        None
    } else {
        match first_bad_index(indices, len, (count - 1) as nat) {
            Some(i) => Some(i),
            None => if is_bad_index(indices[count - 1], len) {
                Some((count - 1) as nat)
            } else {
                None
            },
        }
    }
}

/// Why a column holds no indices into `len` rows.
pub open spec fn index_error(indices: ArrayV, len: nat) -> Option<DataErrorModel> {
    if !is_integer(indices.ty) {
        Some(DataErrorModel::DowncastFailed { expected: "Int64Array"@, actual: indices.ty })
    } else {
        match first_bad_index(integers_of(indices), len, indices.len) {
            Some(i) => Some(DataErrorModel::TakeIndexInvalid { position: i as usize, len: len as usize }),
            None => None,
        }
    }
}

/// The rows that indices name, none where an index is null.
pub open spec fn positions_of(indices: ArrayV) -> Seq<Option<usize>> {
    Seq::new(
        indices.len,
        |i: int|
            match integers_of(indices)[i] {
                Some(x) => Some(x as usize),
                None => None,
            },
    )
}

proof fn lemma_bad_index_stays(indices: Seq<Option<int>>, len: nat, count: nat, all: nat)
    requires
        count <= all,
        first_bad_index(indices, len, count) is Some,
    ensures
        first_bad_index(indices, len, all) == first_bad_index(indices, len, count),
    decreases all,
{
    if count < all {
        lemma_bad_index_stays(indices, len, count, (all - 1) as nat);
    }
}

/// The rows that a column of indices names among `len`.
pub fn index_positions(indices: &ArrayRef, len: usize) -> (r: Result<Vec<Option<usize>>, DataError>)
    ensures
        match r {
            Ok(p) => index_error(indices@, len as nat) is None && p@ == positions_of(indices@),
            Err(e) => index_error(indices@, len as nat) == Some(e@),
        },
{
    let n: usize = indices.len();
    let ints = match integers(indices) {
        Some(v) => v,
        None => return Err(DataError::downcast_failed("Int64Array", clone_type(indices.data_type()))),
    };
    let ghost model = integers_of(indices@);
    let mut out: Vec<Option<usize>> = Vec::with_capacity(ints.len());
    let mut i: usize = 0;
    assert(wide_model(ints@).len() == model.len());
    while i < ints.len()
        invariant
            0 <= i <= ints@.len(),
            n == indices@.len,
            is_integer(indices@.ty),
            model == integers_of(indices@),
            wide_model(ints@) == model,
            ints@.len() == model.len(),
            first_bad_index(model, len as nat, i as nat) is None,
            out@.len() == i,
            forall|k: int| #![trigger out@[k]] 0 <= k < i ==> out@[k] == positions_of(indices@)[k],
        decreases ints@.len() - i,
    {
        assert(wide_model(ints@)[i as int] == model[i as int]);
        match ints[i] {
            Some(x) => {
                if x < 0 || x >= len as i128 {
                    proof {
                        assert(first_bad_index(model, len as nat, (i + 1) as nat) == Some(i as nat));
                        lemma_bad_index_stays(model, len as nat, (i + 1) as nat, model.len());
                    }
                    return Err(DataError::TakeIndexInvalid { position: i, len });
                }
                out.push(Some(x as usize));
            },
            None => {
                out.push(None);
            },
        }
        i = i + 1;
    }
    assert(out@ =~= positions_of(indices@));
    Ok(out)
}

/// Takes the rows that indices name, a null row where an index is null.
pub fn take(array: &ArrayRef, indices: &ArrayRef) -> (r: Result<ArrayRef, DataError>)
    requires
        index_error(indices@, array@.len) is None ==> pickable(array@, positions_of(indices@)),
    ensures
        match index_error(indices@, array@.len) {
            Some(e) => r matches Err(f) && f@ == e,
            None => gathered(r, array@, positions_of(indices@)),
        },
{
    match index_positions(indices, array.len()) {
        Ok(positions) => gather(array, positions.as_slice()),
        Err(e) => Err(e),
    }
}

/// Whether columns are the picked rows of others.
pub open spec fn all_picked(out: Seq<ArrayV>, columns: Seq<ArrayV>, positions: Seq<Option<usize>>) -> bool {
    &&& out.len() == columns.len()
    &&& forall|k: int|
        #![trigger out[k]]
        0 <= k < out.len() ==> out[k].wf() && out[k].ty == columns[k].ty && out[k].cells() == picked(
            columns[k],
            positions,
        )
}

/// The first error of picking rows of the first `count` columns.
pub open spec fn first_gather_error(columns: Seq<ArrayV>, positions: Seq<Option<usize>>, count: nat) -> Option<
    DataErrorModel,
>
    decreases count,
{
    if count == 0 {
        None
    } else {
        match first_gather_error(columns, positions, (count - 1) as nat) {
            Some(e) => Some(e),
            None => gather_error(columns[count - 1], positions),
        }
    }
}

/// How many of some cells are null.
pub open spec fn missing(cells: Seq<Cell>) -> nat
    decreases cells.len(),
{
    if cells.len() == 0 {
        0
    } else if cells.last() is Null {
        missing(cells.drop_last()) + 1
    } else {
        missing(cells.drop_last())
    }
}

/// Why the first of the first `count` picked columns does not stand under its
/// field: another type, or nulls where the field allows none.
pub open spec fn picked_refusal(b: BatchV, positions: Seq<Option<usize>>, count: nat) -> Option<DataErrorModel>
    decreases count,
{
    if count == 0 {
        None
    } else {
        let field = b.schema.fields[count - 1];
        let column = b.columns[count - 1];
        let nulls = missing(picked(column, positions));
        match picked_refusal(b, positions, (count - 1) as nat) {
            Some(e) => Some(e),
            None => if !accepted(strict().column_types, field.data_type, column.ty) {
                Some(DataErrorModel::TypeMismatch { expected: field.data_type, actual: column.ty })
            } else if !field.nullable && nulls > 0 {
                Some(
                    DataErrorModel::NullsInNonNullableColumn {
                        index: (count - 1) as usize,
                        name: field.name,
                        null_count: nulls as usize,
                    },
                )
            } else {
                None
            },
        }
    }
}

/// What a batch of picked rows is: the picked columns under the schema, or the
/// first reason that a column cannot be picked, or not stand under its field.
pub open spec fn batch_picked(r: Result<RecordBatch, DataError>, b: BatchV, positions: Seq<Option<usize>>) -> bool {
    match first_gather_error(b.columns, positions, b.columns.len()) {
        Some(e) => r matches Err(f) && f@ == e,
        None => match picked_refusal(b, positions, b.columns.len()) {
            Some(e) => r matches Err(f) && f@ == e,
            None => r matches Ok(x) && x@.wf() && x@.schema == b.schema && x@.rows == positions.len() && all_picked(
                x@.columns,
                b.columns,
                positions,
            ),
        },
    }
}

/// A column has as many nulls as null cells.
proof fn lemma_missing(a: ArrayV, count: nat)
    requires
        a.wf(),
        count <= a.len,
    ensures
        missing(a.cells().take(count as int)) == (if a.ty is Null {
            count
        } else {
            match a.validity {
                None => 0,
                Some(v) => unset(v.take(count as int)),
            }
        }),
    decreases count,
{
    let part = a.cells().take(count as int);
    if count > 0 {
        lemma_missing(a, (count - 1) as nat);
        assert(part.drop_last() =~= a.cells().take(count - 1));
        assert(part.last() == a.cell(count - 1));
        if let Some(v) = a.validity {
            assert(v.take(count as int).drop_last() =~= v.take(count - 1));
            assert(v.take(count as int).last() == v[count - 1]);
        }
    }
}

/// Picked columns are refused under the fields for what is picked.
proof fn lemma_picked_refusal(
    b: BatchV,
    out: Seq<ArrayV>,
    positions: Seq<Option<usize>>,
    options: RecordBatchOptions,
    count: nat,
)
    requires
        all_picked(out, b.columns, positions),
        options == (RecordBatchOptions { row_count: Some(positions.len() as usize), ..strict() }),
        count <= out.len(),
    ensures
        columns_refusal(b.schema.fields, out, count, positions.len(), options) == picked_refusal(b, positions, count),
    decreases count,
{
    if count > 0 {
        lemma_picked_refusal(b, out, positions, options, (count - 1) as nat);
        let column = out[count - 1];
        assert(column.cells().len() == column.len);
        lemma_missing(column, column.len);
        assert(column.cells().take(column.len as int) =~= column.cells());
        if let Some(v) = column.validity {
            assert(v.take(column.len as int) =~= v);
        }
    }
}

/// What the columns make under the batch's schema.
pub open spec fn made_of(r: Result<RecordBatch, DataError>, b: BatchV, out: Seq<ArrayV>, rows: nat) -> bool {
    let options = RecordBatchOptions { row_count: Some(rows as usize), ..strict() };
    match r {
        Ok(x) => make_batch(b.schema, out, options) == Ok::<BatchV, DataErrorModel>(x@),
        Err(e) => make_batch(b.schema, out, options) == Err::<BatchV, DataErrorModel>(e@),
    }
}

/// Every column's rows can be picked.
pub open spec fn all_pickable(columns: Seq<ArrayV>, positions: Seq<Option<usize>>) -> bool {
    forall|k: int| #![trigger columns[k]] 0 <= k < columns.len() ==> pickable(columns[k], positions)
}

proof fn lemma_gather_error_stays(columns: Seq<ArrayV>, positions: Seq<Option<usize>>, count: nat, all: nat)
    requires
        count <= all,
        first_gather_error(columns, positions, count) is Some,
    ensures
        first_gather_error(columns, positions, all) == first_gather_error(columns, positions, count),
    decreases all,
{
    if count < all {
        lemma_gather_error_stays(columns, positions, count, (all - 1) as nat);
    }
}

/// Picks rows of every column of a batch.
pub fn gather_batch(batch: &RecordBatch, positions: &[Option<usize>]) -> (r: Result<RecordBatch, DataError>)
    requires
        all_pickable(batch@.columns, positions@),
    ensures
        batch_picked(r, batch@, positions@),
{
    let columns = batch.columns();
    let ghost all = batch@.columns;
    let mut out: Vec<ArrayRef> = Vec::with_capacity(columns.len());
    let mut i: usize = 0;
    while i < columns.len()
        invariant
            0 <= i <= columns@.len(),
            all == arrays_model(columns@),
            all == batch@.columns,
            all_pickable(all, positions@),
            first_gather_error(all, positions@, i as nat) is None,
            out@.len() == i,
            forall|k: int|
                #![trigger out@[k]]
                0 <= k < i ==> out@[k]@.wf() && out@[k]@.ty == all[k].ty && out@[k]@.cells() == picked(
                    all[k],
                    positions@,
                ),
        decreases columns@.len() - i,
    {
        assert(all[i as int] == columns@[i as int]@);
        match gather(&columns[i], positions) {
            Ok(column) => {
                let rows: usize = column.len();
                out.push(column);
            },
            Err(e) => {
                proof {
                    assert(first_gather_error(all, positions@, (i + 1) as nat) == Some(e@));
                    lemma_gather_error_stays(all, positions@, (i + 1) as nat, all.len());
                }
                return Err(e);
            },
        }
        i = i + 1;
    }
    let ghost got = arrays_model(out@);
    let r = RecordBatch::try_new_with_row_count(batch.schema_ref(), out, positions.len());
    proof {
        let options = RecordBatchOptions { row_count: Some(positions@.len() as usize), ..strict() };
        assert(all_picked(got, all, positions@));
        lemma_picked_refusal(batch@, got, positions@, options, all.len());
        assert(batch@.wf());
        if r is Ok {
            let x = r->Ok_0;
            assert forall|k: int| #![trigger x@.columns[k]] 0 <= k < x@.columns.len() implies x@.columns[k].len
                == x@.rows && x@.columns[k].wf() by {
                assert(got[k].cells().len() == got[k].len);
            }
        }
    }
    r
}

/// Takes the rows that indices name, of every column of a batch. Of a batch
/// without columns only the count of the indices matters.
pub fn take_batch(batch: &RecordBatch, indices: &ArrayRef) -> (r: Result<RecordBatch, DataError>)
    requires
        index_error(indices@, batch@.rows) is None ==> all_pickable(batch@.columns, positions_of(indices@)),
    ensures
        if batch@.columns.len() == 0 {
            made_of(r, batch@, Seq::empty(), indices@.len)
        } else {
            match index_error(indices@, batch@.rows) {
                Some(e) => r matches Err(f) && f@ == e,
                None => batch_picked(r, batch@, positions_of(indices@)),
            }
        },
{
    if batch.num_columns() == 0 {
        let none: Vec<ArrayRef> = Vec::new();
        assert(arrays_model(none@) =~= Seq::empty());
        return RecordBatch::try_new_with_row_count(batch.schema_ref(), none, indices.len());
    }
    match index_positions(indices, batch.num_rows()) {
        Ok(positions) => gather_batch(batch, positions.as_slice()),
        Err(e) => Err(e),
    }
}

/// Rows taken and taken again are the rows that the second indices name through
/// the first.
pub proof fn law_take_composes(a: ArrayV, b: ArrayV, first: Seq<Option<usize>>, second: Seq<Option<usize>>)
    requires
        b.cells() == picked(a, first),
        b.len == first.len(),
    ensures
        picked(b, second) == picked(
            a,
            Seq::new(
                second.len(),
                |i: int|
                    if names(b, second, i) {
                        first[second[i]->0 as int]
                    } else {
                        None
                    },
            ),
        ),
{
    let through = Seq::new(
        second.len(),
        |i: int|
            if names(b, second, i) {
                first[second[i]->0 as int]
            } else {
                None
            },
    );
    assert forall|i: int| 0 <= i < second.len() implies picked(b, second)[i] == picked(a, through)[i] by {
        if names(b, second, i) {
            let p = second[i]->0 as int;
            assert(b.cells()[p] == b.cell(p));
            assert(picked(a, first)[p] == b.cell(p));
        }
    }
    assert(picked(b, second) =~= picked(a, through));
}

} // verus!
