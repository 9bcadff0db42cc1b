//! One window over every column of a set.
use vstd::prelude::*;
use crate::array::column::{arrays_model, slice_array, ArrayRef};
use crate::array::model::ArrayV;
use crate::error::{DataError, DataErrorModel};
use crate::{capped, sum_capped};

verus! {

/// The length of the shortest column.
pub open spec fn shortest(columns: Seq<ArrayV>) -> nat
    decreases columns.len(),
{
    if columns.len() == 0 {
        0
    } else if columns.len() == 1 || columns.last().len < shortest(columns.drop_last()) {
        columns.last().len
    } else {
        shortest(columns.drop_last())
    }
}

/// Where a window starts, clamped to `n` rows.
pub open spec fn clamped_start(offset: int, n: int) -> int {
    if offset < n {
        offset
    } else {
        n
    }
}

/// How many rows a window has, clamped to `n` rows.
pub open spec fn clamped_len(offset: int, len: int, n: int) -> int {
    let rest = n - clamped_start(offset, n);
    if len < rest {
        len
    } else {
        rest
    }
}

/// The columns cut to a window, clamped to the shortest.
pub open spec fn windowed(columns: Seq<ArrayV>, offset: int, len: int) -> Seq<ArrayV> {
    let n = shortest(columns) as int;
    Seq::new(columns.len(), |k: int| columns[k].sliced(clamped_start(offset, n), clamped_len(offset, len, n)))
}

/// No column is shorter than the shortest.
pub proof fn lemma_shortest(columns: Seq<ArrayV>, k: int)
    requires
        0 <= k < columns.len(),
    ensures
        shortest(columns) <= columns[k].len,
    decreases columns.len(),
{
    if k < columns.len() - 1 {
        lemma_shortest(columns.drop_last(), k);
    }
}

/// The length of the shortest column, if there is one.
fn shortest_of(columns: &[ArrayRef]) -> (r: Option<usize>)
    ensures
        r is None <==> columns@.len() == 0,
        r matches Some(n) ==> n == shortest(arrays_model(columns@)),
{
    let ghost all = arrays_model(columns@);
    if columns.len() == 0 {
        return None;
    }
    let mut least: usize = columns[0].len();
    let mut i: usize = 1;
    proof {
        assert(all.take(1).last() == columns@[0]@);
    }
    while i < columns.len()
        invariant
            1 <= i <= columns@.len(),
            all == arrays_model(columns@),
            least == shortest(all.take(i as int)),
        decreases columns@.len() - i,
    {
        proof {
            assert(all.take(i + 1).drop_last() =~= all.take(i as int));
            assert(all.take(i + 1).last() == columns@[i as int]@);
        }
        let n: usize = columns[i].len();
        if n < least {
            least = n;
        }
        i = i + 1;
    }
    assert(all.take(i as int) =~= all);
    Some(least)
}

/// Cuts every column to the same window of rows, clamped to the shortest
/// column.
#[must_use]
pub fn slice_columns(columns: &[ArrayRef], offset: usize, len: usize) -> (r: Vec<ArrayRef>)
    ensures
        arrays_model(r@) == windowed(arrays_model(columns@), offset as int, len as int),
{
    let ghost all = arrays_model(columns@);
    let n: usize = match shortest_of(columns) {
        Some(n) => n,
        None => 0,
    };
    let start: usize = if offset < n {
        offset
    } else {
        n
    };
    let count: usize = if len < n - start {
        len
    } else {
        n - start
    };
    let mut out: Vec<ArrayRef> = Vec::with_capacity(columns.len());
    let mut i: usize = 0;
    while i < columns.len()
        invariant
            0 <= i <= columns@.len(),
            all == arrays_model(columns@),
            n == shortest(all),
            start == clamped_start(offset as int, n as int),
            count == clamped_len(offset as int, len as int, n as int),
            start + count <= n,
            out@.len() == i,
            forall|k: int|
                #![trigger out@[k]]
                0 <= k < i ==> out@[k]@ == all[k].sliced(start as int, count as int),
        decreases columns@.len() - i,
    {
        proof {
            lemma_shortest(all, i as int);
            assert(all[i as int] == columns@[i as int]@);
        }
        let rows: usize = columns[i].len();
        out.push(slice_array(&columns[i], start, count));
        i = i + 1;
    }
    assert(arrays_model(out@) =~= windowed(all, offset as int, len as int));
    out
}

/// Cuts every column to the same window of rows, which must lie within the
/// shortest column.
pub fn try_slice_columns(columns: &[ArrayRef], offset: usize, len: usize) -> (r: Result<Vec<ArrayRef>, DataError>)
    ensures
        ({
            let all = arrays_model(columns@);
            let fits = columns@.len() == 0 || capped(offset + len) <= shortest(all);
            match r {
                Ok(out) => fits && arrays_model(out@) == windowed(all, offset as int, len as int),
                Err(e) => !fits && e@ == (DataErrorModel::SliceOutOfBounds {
                    offset,
                    len,
                    available: shortest(all) as usize,
                }),
            }
        }),
{
    match shortest_of(columns) {
        Some(n) => if sum_capped(offset, len) > n {
            Err(DataError::SliceOutOfBounds { offset, len, available: n })
        } else {
            Ok(slice_columns(columns, offset, len))
        },
        None => Ok(slice_columns(columns, offset, len)),
    }
}

} // verus!
