//! Which slots putting columns and batches one behind the other gives.
use vstd::prelude::*;
use crate::array::column::{arrays_model, ArrayRef};
use crate::array::model::{ArrayV, Cell};
use crate::error::{DataError, DataErrorModel};
use crate::flat::{flat, lemma_flat_at, start_of};
use crate::kernel::concat::{
    batch_column, batch_models, batches_countable, concat_batches, concat_of, first_other,
    law_batches_are_joined,
};
use crate::kernel::joined::{cell_lists, countable, law_concat_keeps_cells};
use crate::record_batch::{BatchV, RecordBatch};

verus! {

/// How many slots the first `k` columns have together.
pub open spec fn slots_before(parts: Seq<ArrayV>, k: nat) -> nat
    decreases k,
{
    if k == 0 {
        0
    } else {
        slots_before(parts, (k - 1) as nat) + parts[k - 1].len
    }
}

/// How many rows the first `k` batches have together.
pub open spec fn rows_before(batches: Seq<BatchV>, k: nat) -> nat
    decreases k,
{
    if k == 0 {
        0
    } else {
        rows_before(batches, (k - 1) as nat) + batches[k - 1].rows
    }
}

/// Whether a column is others put one behind the other: as many slots as they have
/// together, each part's slots in order behind those of the parts before it.
pub open spec fn in_order(whole: ArrayV, parts: Seq<ArrayV>) -> bool {
    &&& whole.len == slots_before(parts, parts.len())
    &&& forall|k: int, i: int|
        #![trigger parts[k].cell(i)]
        0 <= k < parts.len() && 0 <= i < parts[k].len ==> whole.cell(slots_before(parts, k as nat) + i)
            == parts[k].cell(i)
}

/// Where a list of cells starts is how many slots there are before.
proof fn lemma_start(parts: Seq<ArrayV>, k: nat)
    requires
        k <= parts.len(),
    ensures
        start_of(cell_lists(parts), k as int) == slots_before(parts, k),
    decreases k,
{
    let lists = cell_lists(parts);
    if k == 0 {
        assert(lists.take(0) =~= Seq::<Seq<Cell>>::empty());
        assert(flat(lists.take(0)).len() == 0);
    } else {
        lemma_start(parts, (k - 1) as nat);
        assert(lists.take(k as int).drop_last() =~= lists.take(k - 1));
        assert(lists.take(k as int).last() == lists[k - 1]);
        assert(lists[k - 1].len() == parts[k - 1].len);
    }
}

/// Parts that are put together are of one type.
proof fn lemma_one_type(parts: Seq<ArrayV>, count: nat)
    requires
        count <= parts.len(),
    ensures
        match first_other(parts, count) {
            Some(k) => k < count && parts[k as int].ty != parts[0].ty && forall|j: int|
                #![trigger parts[j]]
                0 <= j < k ==> parts[j].ty == parts[0].ty,
            None => forall|j: int| #![trigger parts[j]] 0 <= j < count ==> parts[j].ty == parts[0].ty,
        },
    decreases count,
{
    if count > 0 {
        lemma_one_type(parts, (count - 1) as nat);
    }
}

/// Columns that are put one behind the other are of one type, and their slots stand
/// in order.
proof fn lemma_in_order(parts: Seq<ArrayV>)
    requires
        parts.len() > 0,
        forall|k: int| #![trigger parts[k]] 0 <= k < parts.len() ==> parts[k].wf(),
        first_other(parts, parts.len()) is None ==> countable(parts[0].ty, parts),
        concat_of(parts) is Ok,
    ensures
        forall|k: int| #![trigger parts[k]] 0 <= k < parts.len() ==> parts[k].ty == concat_of(parts)->Ok_0.ty,
        in_order(concat_of(parts)->Ok_0, parts),
{
    let whole = concat_of(parts)->Ok_0;
    let lists = cell_lists(parts);
    lemma_one_type(parts, parts.len());
    law_concat_keeps_cells(parts[0].ty, parts);
    lemma_start(parts, parts.len());
    assert(lists.take(parts.len() as int) =~= lists);
    assert(whole.cells().len() == whole.len);
    assert forall|k: int, i: int| #![trigger parts[k].cell(i)] 0 <= k < parts.len() && 0 <= i < parts[k].len implies
        whole.cell(slots_before(parts, k as nat) + i) == parts[k].cell(i) by {
        lemma_start(parts, k as nat);
        lemma_flat_at(lists, k, i);
        let at = slots_before(parts, k as nat) + i;
        assert(whole.cells()[at as int] == lists[k][i]);
        assert(whole.cells()[at as int] == whole.cell(at as int));
        assert(lists[k][i] == parts[k].cell(i));
    }
}

/// Putting columns one behind the other gives a column of their type whose slots
/// are theirs in order. None is refused, and the first of another type than the
/// first is named.
pub proof fn law_concat_puts_columns_in_order(arrays: &[ArrayRef], r: Result<ArrayRef, DataError>)
    requires
        forall|k: int| #![trigger arrays@[k]] 0 <= k < arrays@.len() ==> arrays@[k]@.wf(),
        ({
            let parts = arrays_model(arrays@);
            parts.len() > 0 && first_other(parts, parts.len()) is None ==> countable(parts[0].ty, parts)
        }),
        call_ensures(crate::kernel::concat::concat, (arrays,), r),
    ensures
        arrays@.len() == 0 ==> r is Err,
        r matches Ok(a) ==> {
            &&& forall|k: int| #![trigger arrays@[k]] 0 <= k < arrays@.len() ==> arrays@[k]@.ty == a@.ty
            &&& in_order(a@, arrays_model(arrays@))
        },
        r matches Err(e) && e@ is TypeMismatch && arrays@.len() > 0 && (exists|k: int|
            #![trigger arrays@[k]]
            0 <= k < arrays@.len() && arrays@[k]@.ty != arrays@[0]@.ty) ==> exists|k: int|
            #![trigger arrays@[k]]
            0 < k < arrays@.len() && arrays@[k]@.ty != arrays@[0]@.ty && r->Err_0@ == (DataErrorModel::TypeMismatch {
                expected: arrays@[0]@.ty,
                actual: arrays@[k]@.ty,
            }),
{
    let parts = arrays_model(arrays@);
    assert forall|k: int| #![trigger parts[k]] 0 <= k < parts.len() implies parts[k].wf() by {
        assert(parts[k] == arrays@[k]@);
    }
    lemma_one_type(parts, parts.len());
    if r is Ok {
        lemma_in_order(parts);
        assert forall|k: int| #![trigger arrays@[k]] 0 <= k < arrays@.len() implies arrays@[k]@.ty == r->Ok_0@.ty by {
            assert(parts[k] == arrays@[k]@);
        }
    } else if arrays@.len() > 0 {
        if let Some(k) = first_other(parts, parts.len()) {
            assert(parts[k as int] == arrays@[k as int]@);
            assert(parts[0] == arrays@[0]@);
        } else {
            assert forall|k: int| #![trigger arrays@[k]] 0 <= k < arrays@.len() implies arrays@[k]@.ty
                == arrays@[0]@.ty by {
                assert(parts[k] == arrays@[k]@);
                assert(parts[0] == arrays@[0]@);
            }
        }
    }
}

/// Putting batches one behind the other gives a batch of their schema with the rows
/// of each in order, in every column.
pub proof fn law_concat_puts_batches_in_order(batches: &[RecordBatch], r: Result<RecordBatch, DataError>)
    requires
        batches@.len() >= 2,
        forall|k: int| #![trigger batches@[k]] 0 <= k < batches@.len() ==> batches@[k]@.wf(),
        batches_countable(batch_models(batches@)),
        call_ensures(concat_batches, (batches,), r),
    ensures
        r matches Ok(b) ==> {
            let all = batch_models(batches@);
            &&& forall|k: int| #![trigger batches@[k]] 0 <= k < batches@.len() ==> batches@[k]@.schema == b@.schema
            &&& b@.rows == rows_before(all, all.len())
            &&& b@.columns.len() == all[0].columns.len()
            &&& forall|c: int, k: int, i: int|
                #![trigger b@.columns[c], all[k].columns[c].cell(i)]
                0 <= c < b@.columns.len() && 0 <= k < all.len() && 0 <= i < all[k].rows ==> b@.columns[c].cell(
                    rows_before(all, k as nat) + i,
                ) == all[k].columns[c].cell(i)
        },
{
    if let Ok(b) = r {
        let all = batch_models(batches@);
        assert forall|k: int| #![trigger all[k]] 0 <= k < all.len() implies all[k].wf() by {
            assert(all[k] == batches@[k]@);
        }
        law_batches_are_joined(all);
        let whole = b@;
        lemma_rows(all, all.len());
        assert forall|k: int| #![trigger batches@[k]] 0 <= k < batches@.len() implies batches@[k]@.schema == whole.schema
            by {
            assert(all[k] == batches@[k]@);
        }
        assert forall|c: int, k: int, i: int|
            #![trigger whole.columns[c], all[k].columns[c].cell(i)]
            0 <= c < whole.columns.len() && 0 <= k < all.len() && 0 <= i < all[k].rows implies whole.columns[c].cell(
            rows_before(all, k as nat) + i,
        ) == all[k].columns[c].cell(i) by {
            lemma_batch_column(all, c);
            let parts = batch_column(all, c);
            assert(concat_of(parts) == Ok::<ArrayV, DataErrorModel>(whole.columns[c]));
            lemma_one_type(parts, parts.len());
            lemma_in_order(parts);
            lemma_column_rows(all, c, k as nat);
            assert(parts[k] == all[k].columns[c]);
            assert(parts[k].len == all[k].rows);
            assert(parts[k].cell(i) == all[k].columns[c].cell(i));
        }
    }
}

/// Rows counted from the front are rows counted from the back.
proof fn lemma_rows(batches: Seq<BatchV>, k: nat)
    requires
        k <= batches.len(),
    ensures
        crate::kernel::concat::rows_total(batches.take(k as int)) == rows_before(batches, k),
        k == batches.len() ==> crate::kernel::concat::rows_total(batches) == rows_before(batches, k),
    decreases k,
{
    if k > 0 {
        lemma_rows(batches, (k - 1) as nat);
        assert(batches.take(k as int).drop_last() =~= batches.take(k - 1));
    }
    if k == batches.len() {
        assert(batches.take(k as int) =~= batches);
    }
}

/// The columns of one field are columns.
proof fn lemma_batch_column(batches: Seq<BatchV>, c: int)
    requires
        forall|k: int| #![trigger batches[k]] 0 <= k < batches.len() ==> batches[k].wf() && batches[k].schema
            == batches[0].schema,
        batches.len() > 0,
        0 <= c < batches[0].columns.len(),
    ensures
        forall|k: int|
            #![trigger batch_column(batches, c)[k]]
            0 <= k < batches.len() ==> batch_column(batches, c)[k].wf() && batch_column(batches, c)[k].len
                == batches[k].rows,
{
    assert forall|k: int| #![trigger batch_column(batches, c)[k]] 0 <= k < batches.len() implies batch_column(
        batches,
        c,
    )[k].wf() && batch_column(batches, c)[k].len == batches[k].rows by {
        assert(batches[k].wf());
        assert(batches[0].wf());
        assert(batches[k].columns[c].wf());
    }
}

/// The slots of the first columns of one field are the rows of the first batches.
proof fn lemma_column_rows(batches: Seq<BatchV>, c: int, k: nat)
    requires
        k <= batches.len(),
        forall|j: int|
            #![trigger batch_column(batches, c)[j]]
            0 <= j < batches.len() ==> batch_column(batches, c)[j].len == batches[j].rows,
    ensures
        slots_before(batch_column(batches, c), k) == rows_before(batches, k),
    decreases k,
{
    if k > 0 {
        lemma_column_rows(batches, c, (k - 1) as nat);
        assert(batch_column(batches, c)[k - 1].len == batches[k - 1].rows);
    }
}

} // verus!
