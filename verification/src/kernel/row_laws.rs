//! Which rows taking and filtering give, said of the columns' own values.
use vstd::prelude::*;
use crate::array::column::ArrayRef;
use crate::array::model::{ArrayV, Cell};
use crate::array::primitive::values_of;
use crate::datatype::TypeModel;
use crate::error::DataError;
use crate::kernel::filter::{keeps, kept, law_filter_keeps_set_rows};
use crate::kernel::gather::{gathered, names, picked};
use crate::kernel::take::{batch_picked, first_bad_index, index_error, is_bad_index, positions_of};
use crate::kernel::integers::integers_of;
use crate::record_batch::{BatchV, RecordBatch};

verus! {

/// The integer that a slot of a column of integers stores.
pub open spec fn stored(a: ArrayV, i: int) -> int {
    match a.ty {
        TypeModel::Int8 => values_of::<i8>(a)[i] as int,
        TypeModel::Int16 => values_of::<i16>(a)[i] as int,
        TypeModel::Int32 => values_of::<i32>(a)[i] as int,
        TypeModel::Int64 => values_of::<i64>(a)[i] as int,
        TypeModel::UInt8 => values_of::<u8>(a)[i] as int,
        TypeModel::UInt16 => values_of::<u16>(a)[i] as int,
        TypeModel::UInt32 => values_of::<u32>(a)[i] as int,
        TypeModel::UInt64 => values_of::<u64>(a)[i] as int,
        _ => 0,
    }
}

/// Whether a column stores integers.
pub open spec fn stores_integers(a: ArrayV) -> bool {
    a.ty is Int8 || a.ty is Int16 || a.ty is Int32 || a.ty is Int64 || a.ty is UInt8 || a.ty is UInt16
        || a.ty is UInt32 || a.ty is UInt64
}

/// Whether slot `i` is marked null.
pub open spec fn marked_null(a: ArrayV, i: int) -> bool {
    a.validity matches Some(v) && !v[i]
}

/// Whether the indices all name rows of `len`.
pub open spec fn all_name(indices: ArrayV, len: nat) -> bool {
    forall|i: int|
        #![trigger marked_null(indices, i)]
        0 <= i < indices.len && !marked_null(indices, i) ==> 0 <= stored(indices, i) < len
}

/// Whether cells are those that indices name among `from`: the cell at the
/// integer that the index stores, null where the index is null.
pub open spec fn rows_named(cells: Seq<Cell>, from: Seq<Cell>, indices: ArrayV) -> bool {
    &&& cells.len() == indices.len
    &&& forall|i: int|
        #![trigger cells[i]]
        0 <= i < cells.len() ==> cells[i] == (if marked_null(indices, i) {
            Cell::Null
        } else {
            from[stored(indices, i)]
        })
}

/// Which index is found wrong: the first that names no row.
proof fn lemma_first_bad(indices: Seq<Option<int>>, len: nat, count: nat)
    ensures
        match first_bad_index(indices, len, count) {
            Some(k) => k < count && is_bad_index(indices[k as int], len) && forall|j: int|
                #![trigger indices[j]]
                0 <= j < k ==> !is_bad_index(indices[j], len),
            None => forall|j: int| #![trigger indices[j]] 0 <= j < count ==> !is_bad_index(indices[j], len),
        },
    decreases count,
{
    if count > 0 {
        lemma_first_bad(indices, len, (count - 1) as nat);
    }
}

/// Indices are refused exactly where one names no row, and for the first such.
pub proof fn law_bad_indices_are_refused(indices: ArrayV, len: nat)
    requires
        indices.wf(),
        stores_integers(indices),
        len <= usize::MAX,
    ensures
        all_name(indices, len) <==> index_error(indices, len) is None,
        index_error(indices, len) matches Some(e) ==> e is TakeIndexInvalid && {
            let k = e->TakeIndexInvalid_position as int;
            &&& k < indices.len
            &&& !marked_null(indices, k) && !(0 <= stored(indices, k) < len)
            &&& forall|j: int|
                #![trigger marked_null(indices, j)]
                0 <= j < k && !marked_null(indices, j) ==> 0 <= stored(indices, j) < len
        },
{
    let all = integers_of(indices);
    lemma_first_bad(all, len, indices.len);
    assert forall|i: int| #![trigger marked_null(indices, i)] 0 <= i < indices.len implies (all[i] is None
        <==> marked_null(indices, i)) && (all[i] matches Some(x) ==> x == stored(indices, i)) by {}
    if all_name(indices, len) {
        if let Some(k) = first_bad_index(all, len, indices.len) {
            assert(marked_null(indices, k as int) || 0 <= stored(indices, k as int) < len);
        }
    }
    if index_error(indices, len) is None {
        assert forall|i: int| #![trigger marked_null(indices, i)] 0 <= i < indices.len && !marked_null(
            indices,
            i,
        ) implies 0 <= stored(indices, i) < len by {
            assert(!is_bad_index(all[i], len));
        }
    }
    if let Some(k) = first_bad_index(all, len, indices.len) {
        assert(!marked_null(indices, k as int));
        assert forall|j: int| #![trigger marked_null(indices, j)] 0 <= j < k && !marked_null(indices, j) implies 0
            <= stored(indices, j) < len by {
            assert(!is_bad_index(all[j], len));
        }
    }
}

/// Picking at the positions of indices gives the rows that the indices name.
pub proof fn lemma_rows_named(a: ArrayV, indices: ArrayV)
    requires
        a.wf(),
        indices.wf(),
        stores_integers(indices),
        all_name(indices, a.len),
    ensures
        rows_named(picked(a, positions_of(indices)), a.cells(), indices),
{
    let cells = picked(a, positions_of(indices));
    assert forall|i: int| #![trigger cells[i]] 0 <= i < cells.len() implies cells[i] == (if marked_null(indices, i) {
        Cell::Null
    } else {
        a.cells()[stored(indices, i)]
    }) by {
        if !marked_null(indices, i) {
            assert(0 <= stored(indices, i) < a.len);
            assert(positions_of(indices)[i] == Some(stored(indices, i) as usize));
            assert(names(a, positions_of(indices), i));
        }
    }
}

/// A taken column has the source's type, and in each slot the source's cell at
/// exactly the integer that the index stores, or null where the index is null.
pub proof fn law_take_gives_the_named_rows(r: Result<ArrayRef, DataError>, a: ArrayV, indices: ArrayV)
    requires
        a.wf(),
        indices.wf(),
        stores_integers(indices),
        r is Ok,
        match index_error(indices, a.len) {
            Some(e) => r matches Err(f) && f@ == e,
            None => gathered(r, a, positions_of(indices)),
        },
    ensures
        all_name(indices, a.len),
        r->Ok_0@.ty == a.ty,
        rows_named(r->Ok_0@.cells(), a.cells(), indices),
{
    law_bad_indices_are_refused(indices, a.len);
    lemma_rows_named(a, indices);
}

/// A column of values of one width is always taken where every index names a
/// row.
pub proof fn law_named_rows_are_taken(r: Result<ArrayRef, DataError>, a: ArrayV, indices: ArrayV)
    requires
        a.wf(),
        indices.wf(),
        stores_integers(indices),
        a.body is Fixed || a.body is Bits || a.body is Null,
        match index_error(indices, a.len) {
            Some(e) => r matches Err(f) && f@ == e,
            None => gathered(r, a, positions_of(indices)),
        },
    ensures
        r is Ok <==> all_name(indices, a.len),
{
    law_bad_indices_are_refused(indices, a.len);
}

/// A taken batch has the schema, a row for each index, and in every column the
/// rows that the indices name.
pub proof fn law_take_batch_gives_the_named_rows(r: Result<RecordBatch, DataError>, b: BatchV, indices: ArrayV)
    requires
        b.wf(),
        b.columns.len() > 0,
        indices.wf(),
        stores_integers(indices),
        r is Ok,
        match index_error(indices, b.rows) {
            Some(e) => r matches Err(f) && f@ == e,
            None => batch_picked(r, b, positions_of(indices)),
        },
    ensures
        all_name(indices, b.rows),
        r->Ok_0@.schema == b.schema,
        r->Ok_0@.rows == indices.len,
        r->Ok_0@.columns.len() == b.columns.len(),
        forall|c: int|
            #![trigger r->Ok_0@.columns[c]]
            0 <= c < b.columns.len() ==> r->Ok_0@.columns[c].ty == b.columns[c].ty && rows_named(
                r->Ok_0@.columns[c].cells(),
                b.columns[c].cells(),
                indices,
            ),
{
    law_bad_indices_are_refused(indices, b.rows);
    let out = r->Ok_0@;
    assert forall|c: int| #![trigger out.columns[c]] 0 <= c < b.columns.len() implies rows_named(
        out.columns[c].cells(),
        b.columns[c].cells(),
        indices,
    ) by {
        assert(b.columns[c].len == b.rows);
        lemma_rows_named(b.columns[c], indices);
    }
}

/// Whether a mask says to keep row `i`: its bit is set and the slot is not null.
pub open spec fn set(mask: ArrayV, i: int) -> bool {
    !marked_null(mask, i) && mask.body->Bits_0[i]
}

/// Whether rows are those that a mask says to keep: each of them, once, in
/// order.
pub open spec fn rows_kept(rows: Seq<int>, mask: ArrayV) -> bool {
    &&& forall|j: int| #![trigger rows[j]] 0 <= j < rows.len() ==> 0 <= rows[j] < mask.len && set(mask, rows[j])
    &&& forall|j: int, k: int| #![trigger rows[j], rows[k]] 0 <= j < k < rows.len() ==> rows[j] < rows[k]
    &&& forall|i: int| #![trigger set(mask, i)] 0 <= i < mask.len && set(mask, i) ==> rows.contains(i)
}

/// The rows that a filter picks.
spec fn rows_of(mask: ArrayV) -> Seq<int> {
    Seq::new(kept(mask, mask.len).len(), |j: int| kept(mask, mask.len)[j]->0 as int)
}

proof fn lemma_rows_kept(mask: ArrayV)
    requires
        mask.wf(),
        mask.ty is Bool,
    ensures
        rows_kept(rows_of(mask), mask),
{
    law_filter_keeps_set_rows(mask, mask.len);
    let all = kept(mask, mask.len);
    let rows = rows_of(mask);
    assert forall|j: int| #![trigger rows[j]] 0 <= j < rows.len() implies 0 <= rows[j] < mask.len && set(
        mask,
        rows[j],
    ) by {
        assert(all[j] is Some);
        assert(keeps(mask, rows[j]));
    }
    assert forall|j: int, k: int| #![trigger rows[j], rows[k]] 0 <= j < k < rows.len() implies rows[j] < rows[k] by {
        assert(all[j]->0 < all[k]->0);
    }
    assert forall|i: int| #![trigger set(mask, i)] 0 <= i < mask.len && set(mask, i) implies rows.contains(i) by {
        assert(keeps(mask, i));
        let j = choose|j: int| 0 <= j < all.len() && all[j] == Some(i as usize);
        assert(rows[j] == i);
    }
}

/// A filtered column has the source's type and exactly the cells of the rows
/// whose mask bit is set and not null, in order.
pub proof fn law_filter_gives_the_set_rows(r: Result<ArrayRef, DataError>, a: ArrayV, mask: ArrayV) -> (rows: Seq<int>)
    requires
        a.wf(),
        mask.wf(),
        mask.ty is Bool,
        a.len == mask.len,
        r is Ok,
        gathered(r, a, kept(mask, mask.len)),
    ensures
        rows_kept(rows, mask),
        r->Ok_0@.ty == a.ty,
        r->Ok_0@.cells() == rows.map_values(|i: int| a.cells()[i]),
{
    lemma_rows_kept(mask);
    let rows = rows_of(mask);
    let all = kept(mask, mask.len);
    assert forall|j: int| 0 <= j < rows.len() implies picked(a, all)[j] == a.cells()[rows[j]] by {
        assert(0 <= rows[j] < mask.len);
        law_filter_keeps_set_rows(mask, mask.len);
        assert(all[j] is Some);
        assert(names(a, all, j));
    }
    assert(picked(a, all) =~= rows.map_values(|i: int| a.cells()[i]));
    rows
}

/// A filtered batch has the schema and, in every column, exactly the cells of
/// the rows whose mask bit is set and not null, in order.
pub proof fn law_filter_batch_gives_the_set_rows(r: Result<RecordBatch, DataError>, b: BatchV, mask: ArrayV) -> (rows:
    Seq<int>)
    requires
        b.wf(),
        mask.wf(),
        mask.ty is Bool,
        b.rows == mask.len,
        r is Ok,
        batch_picked(r, b, kept(mask, mask.len)),
    ensures
        rows_kept(rows, mask),
        r->Ok_0@.schema == b.schema,
        r->Ok_0@.rows == rows.len(),
        r->Ok_0@.columns.len() == b.columns.len(),
        forall|c: int|
            #![trigger r->Ok_0@.columns[c]]
            0 <= c < b.columns.len() ==> r->Ok_0@.columns[c].ty == b.columns[c].ty
                && r->Ok_0@.columns[c].cells() == rows.map_values(|i: int| b.columns[c].cells()[i]),
{
    lemma_rows_kept(mask);
    let rows = rows_of(mask);
    let all = kept(mask, mask.len);
    let out = r->Ok_0@;
    assert forall|c: int| #![trigger out.columns[c]] 0 <= c < b.columns.len() implies out.columns[c].cells()
        == rows.map_values(|i: int| b.columns[c].cells()[i]) by {
        let a = b.columns[c];
        assert(a.len == b.rows);
        law_filter_keeps_set_rows(mask, mask.len);
        assert forall|j: int| 0 <= j < rows.len() implies picked(a, all)[j] == a.cells()[rows[j]] by {
            assert(all[j] is Some);
            assert(names(a, all, j));
        }
        assert(picked(a, all) =~= rows.map_values(|i: int| a.cells()[i]));
    }
    rows
}

} // verus!
