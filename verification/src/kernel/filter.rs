//! Keeping rows by a mask.
use vstd::prelude::*;
use crate::array::column::ArrayRef;
use crate::array::flats::BooleanArray;
use crate::array::model::ArrayV;
use crate::error::{DataError, DataErrorModel};
use crate::kernel::gather::{gather, gathered, pickable};
use crate::kernel::take::{all_pickable, batch_picked, gather_batch};
use crate::record_batch::RecordBatch;

verus! {

/// Whether a mask keeps row `i`: its slot is set and not null.
pub open spec fn keeps(mask: ArrayV, i: int) -> bool {
    mask.valid_at(i) && mask.body->Bits_0[i]
}

/// The rows that the first `count` slots of a mask keep.
pub open spec fn kept(mask: ArrayV, count: nat) -> Seq<Option<usize>>
    decreases count,
{
    if count == 0 {
        Seq::empty()
    } else if keeps(mask, count - 1) {
        kept(mask, (count - 1) as nat).push(Some((count - 1) as usize))
    } else {
        kept(mask, (count - 1) as nat)
    }
}

/// A filter keeps exactly the rows whose mask slot is set and not null, each
/// once, in order.
pub proof fn law_filter_keeps_set_rows(mask: ArrayV, count: nat)
    requires
        count <= usize::MAX,
    ensures
        kept(mask, count).len() <= count,
        forall|j: int|
            #![trigger kept(mask, count)[j]]
            0 <= j < kept(mask, count).len() ==> kept(mask, count)[j] is Some && kept(mask, count)[j]->0 < count
                && keeps(mask, kept(mask, count)[j]->0 as int),
        forall|j: int, k: int|
            #![trigger kept(mask, count)[j], kept(mask, count)[k]]
            0 <= j < k < kept(mask, count).len() ==> kept(mask, count)[j]->0 < kept(mask, count)[k]->0,
        forall|i: int|
            #![trigger keeps(mask, i)]
            0 <= i < count && keeps(mask, i) ==> kept(mask, count).contains(Some(i as usize)),
    decreases count,
{
    if count > 0 {
        law_filter_keeps_set_rows(mask, (count - 1) as nat);
        let before = kept(mask, (count - 1) as nat);
        let now = kept(mask, count);
        assert forall|i: int| #![trigger keeps(mask, i)] 0 <= i < count && keeps(mask, i) implies now.contains(
            Some(i as usize),
        ) by {
            if i < count - 1 {
                assert(before.contains(Some(i as usize)));
                let j = choose|j: int| 0 <= j < before.len() && before[j] == Some(i as usize);
                assert(now[j] == Some(i as usize));
            } else {
                assert(now[now.len() - 1] == Some(i as usize));
            }
        }
    }
}

/// The rows a mask keeps.
fn kept_rows(mask: &BooleanArray) -> (r: Vec<Option<usize>>)
    ensures
        r@ == kept(mask@, mask@.len),
{
    let n: usize = mask.len();
    let mut out: Vec<Option<usize>> = Vec::new();
    let mut i: usize = 0;
    while i < n
        invariant
            0 <= i <= n == mask@.len,
            out@ == kept(mask@, i as nat),
        decreases n - i,
    {
        match mask.get(i) {
            Some(bit) => if bit {
                out.push(Some(i));
            },
            None => {},
        }
        i = i + 1;
    }
    out
}

/// Keeps the rows whose mask slot is set and not null.
pub fn filter(array: &ArrayRef, mask: &BooleanArray) -> (r: Result<ArrayRef, DataError>)
    requires
        array@.len == mask@.len ==> pickable(array@, kept(mask@, mask@.len)),
    ensures
        if array@.len != mask@.len {
            r matches Err(e) && e@ == (DataErrorModel::MaskLengthMismatch {
                array_len: array@.len as usize,
                mask_len: mask@.len as usize,
            })
        } else {
            gathered(r, array@, kept(mask@, mask@.len))
        },
{
    if array.len() != mask.len() {
        return Err(DataError::MaskLengthMismatch { array_len: array.len(), mask_len: mask.len() });
    }
    gather(array, kept_rows(mask).as_slice())
}

/// Keeps the rows of a batch whose mask slot is set and not null.
pub fn filter_batch(batch: &RecordBatch, mask: &BooleanArray) -> (r: Result<RecordBatch, DataError>)
    requires
        batch@.rows == mask@.len ==> all_pickable(batch@.columns, kept(mask@, mask@.len)),
    ensures
        if batch@.rows != mask@.len {
            r matches Err(e) && e@ == (DataErrorModel::MaskLengthMismatch {
                array_len: batch@.rows as usize,
                mask_len: mask@.len as usize,
            })
        } else {
            batch_picked(r, batch@, kept(mask@, mask@.len))
        },
{
    if batch.num_rows() != mask.len() {
        return Err(DataError::MaskLengthMismatch { array_len: batch.num_rows(), mask_len: mask.len() });
    }
    gather_batch(batch, kept_rows(mask).as_slice())
}

} // verus!
