//! Putting arrays of one type one behind the other.
//!
//! Where some parts have a validity bitmap and some have none, the ones without
//! count as valid. Offsets are counted on from part to part, and what they do
//! not cover is left behind.
use vstd::prelude::*;
use vstd::slice::slice_subrange;
use std::sync::Arc;
use crate::array::column::{
    arrays_model, bits_model, lemma_struct_body, max_offset_of, slice_array, Array, ArrayRef, Body,
};
use crate::array::model::{is_var, max_offset, ArrayV, Cell};
use crate::array::parts::is_fixed;
use crate::buffer::{share, Bitmap, Buffer, Offsets};
use crate::datatype::{
    clone_field, clone_fields, clone_type, fields_model, type_equal, DataType, Field, FieldModel, TypeModel,
};
use crate::error::{DataError, DataErrorModel};
use crate::ipc::column_laws::lemma_covered;
use crate::flat::{flat, lemma_start_step, start_of};
use crate::kernel::joined::{
    all_bits, as_offsets, bit_lists, byte_lists, cell_lists, column_parts, countable, ends, ends_error, first_over,
    fixed_children, joined, joined_columns, joined_many, joined_validity, lemma_ends, lemma_first_over,
    lemma_first_over_stays, lemma_joined, lemma_span_starts, lemma_window_lens, list_windows, of_type, offsets_of,
    part_start, span_of, span_total, total_len, value_lists,
};
use crate::le::extend;
use crate::record_batch::{make_batch, strict, BatchV, RecordBatch, RecordBatchOptions};

verus! {

/// The first array of another type than the first one.
pub open spec fn first_other(parts: Seq<ArrayV>, count: nat) -> Option<nat>
    decreases count,
{
    if count == 0 {
        None
    } else {
        match first_other(parts, (count - 1) as nat) {
            Some(k) => Some(k),
            None => if parts[count - 1].ty != parts[0].ty {
                Some((count - 1) as nat)
            } else {
                None
            },
        }
    }
}

/// What arrays make, put one behind the other.
pub open spec fn concat_of(parts: Seq<ArrayV>) -> Result<ArrayV, DataErrorModel> {
    if parts.len() == 0 {
        Err(DataErrorModel::ColumnCountMismatch { fields: 1, columns: 0 })
    } else {
        match first_other(parts, parts.len()) {
            Some(k) => Err(DataErrorModel::TypeMismatch { expected: parts[0].ty, actual: parts[k as int].ty }),
            None => joined(parts[0].ty, parts),
        }
    }
}

proof fn lemma_first_other(parts: Seq<ArrayV>, count: nat)
    requires
        count <= parts.len(),
    ensures
        first_other(parts, count) is None <==> (forall|k: int|
            #![trigger parts[k]]
            0 <= k < count ==> parts[k].ty == parts[0].ty),
    decreases count,
{
    if count > 0 {
        lemma_first_other(parts, (count - 1) as nat);
        if forall|k: int| #![trigger parts[k]] 0 <= k < count ==> parts[k].ty == parts[0].ty {
            assert(parts[count - 1].ty == parts[0].ty);
        }
    }
}

proof fn lemma_first_other_stays(parts: Seq<ArrayV>, count: nat, all: nat)
    requires
        count <= all,
        first_other(parts, count) is Some,
    ensures
        first_other(parts, all) == first_other(parts, count),
    decreases all,
{
    if count < all {
        lemma_first_other_stays(parts, count, (all - 1) as nat);
    }
}

/// Puts arrays of one type one behind the other. A single array is handed back
/// as it is.
pub fn concat(arrays: &[ArrayRef]) -> (r: Result<ArrayRef, DataError>)
    requires
        ({
            let parts = arrays_model(arrays@);
            parts.len() > 1 && first_other(parts, parts.len()) is None ==> countable(parts[0].ty, parts)
        }),
    ensures
        match r {
            Ok(a) => concat_of(arrays_model(arrays@)) == Ok::<ArrayV, DataErrorModel>(a@),
            Err(e) => concat_of(arrays_model(arrays@)) == Err::<ArrayV, DataErrorModel>(e@),
        },
{
    let mut list: Vec<ArrayRef> = Vec::with_capacity(arrays.len());
    let mut i: usize = 0;
    while i < arrays.len()
        invariant
            0 <= i <= arrays@.len(),
            list@.len() == i,
            forall|k: int| #![trigger list@[k]] 0 <= k < i ==> list@[k]@ == arrays@[k]@,
        decreases arrays@.len() - i,
    {
        list.push(share(&arrays[i]));
        i = i + 1;
    }
    assert(arrays_model(list@) =~= arrays_model(arrays@));
    concat_list(&list)
}

/// Puts arrays of one type one behind the other. A single array is handed back
/// as it is.
pub fn concat_list(arrays: &Vec<ArrayRef>) -> (r: Result<ArrayRef, DataError>)
    requires
        ({
            let parts = arrays_model(arrays@);
            parts.len() > 1 && first_other(parts, parts.len()) is None ==> countable(parts[0].ty, parts)
        }),
    ensures
        match r {
            Ok(a) => concat_of(arrays_model(arrays@)) == Ok::<ArrayV, DataErrorModel>(a@),
            Err(e) => concat_of(arrays_model(arrays@)) == Err::<ArrayV, DataErrorModel>(e@),
        },
{
    let ghost parts = arrays_model(arrays@);
    if arrays.len() == 0 {
        return Err(DataError::ColumnCountMismatch { fields: 1, columns: 0 });
    }
    if arrays.len() == 1 {
        reveal_with_fuel(first_other, 2);
        return Ok(share(&arrays[0]));
    }
    let mut i: usize = 0;
    while i < arrays.len()
        invariant
            0 <= i <= arrays@.len(),
            parts == arrays_model(arrays@),
            parts.len() > 1,
            first_other(parts, i as nat) is None,
            forall|k: int| #![trigger parts[k]] 0 <= k < i ==> parts[k].wf(),
        decreases arrays@.len() - i,
    {
        let n: usize = arrays[i].len();
        assert(parts[i as int] == arrays@[i as int]@);
        assert(parts[0] == arrays@[0]@);
        if !type_equal(arrays[i].data_type(), arrays[0].data_type()) {
            proof {
                lemma_first_other_stays(parts, (i + 1) as nat, parts.len());
            }
            return Err(
                DataError::type_mismatch(clone_type(arrays[0].data_type()), clone_type(arrays[i].data_type())),
            );
        }
        i = i + 1;
    }
    proof {
        lemma_first_other(parts, parts.len());
    }
    let data_type = clone_type(arrays[0].data_type());
    concat_parts(&data_type, arrays)
}

/// Whether no array has a validity bitmap.
fn none_has_validity(arrays: &Vec<ArrayRef>) -> (r: bool)
    ensures
        r == (joined_validity(arrays_model(arrays@)) is None),
{
    let ghost parts = arrays_model(arrays@);
    let mut i: usize = 0;
    while i < arrays.len()
        invariant
            0 <= i <= arrays@.len(),
            parts == arrays_model(arrays@),
            forall|k: int| #![trigger parts[k]] 0 <= k < i ==> parts[k].validity is None,
        decreases arrays@.len() - i,
    {
        assert(parts[i as int] == arrays@[i as int]@);
        if arrays[i].validity().is_some() {
            return false;
        }
        i = i + 1;
    }
    true
}

/// Appends bits.
fn extend_bits(out: &mut Vec<bool>, bits: &Bitmap)
    ensures
        final(out)@ == old(out)@ + bits@,
{
    let mut i: usize = 0;
    let n: usize = bits.len();
    assert(bits@.take(0) =~= Seq::<bool>::empty());
    while i < n
        invariant
            0 <= i <= n == bits@.len(),
            out@ == old(out)@ + bits@.take(i as int),
        decreases n - i,
    {
        out.push(bits.bit(i));
        assert(bits@.take(i + 1) =~= bits@.take(i as int).push(bits@[i as int]));
        i = i + 1;
    }
    assert(bits@.take(n as int) =~= bits@);
}

/// The parts before part `i + 1` are the parts before part `i` and part `i`.
proof fn lemma_flat_next<T>(lists: Seq<Seq<T>>, i: int)
    requires
        0 <= i < lists.len(),
    ensures
        flat(lists.take(i + 1)) == flat(lists.take(i)) + lists[i],
        flat(lists.take(0)) == Seq::<T>::empty(),
{
    assert(lists.take(i + 1).drop_last() =~= lists.take(i));
    assert(lists.take(i + 1).last() == lists[i]);
    assert(lists.take(0) =~= Seq::<Seq<T>>::empty());
}

/// The validity of arrays, one behind the other.
fn concat_validity(arrays: &Vec<ArrayRef>) -> (r: Option<Bitmap>)
    ensures
        bits_model(r) == joined_validity(arrays_model(arrays@)),
{
    if none_has_validity(arrays) {
        return None;
    }
    let ghost parts = arrays_model(arrays@);
    let ghost lists = Seq::new(parts.len(), |k: int| all_bits(parts[k]));
    let mut out: Vec<bool> = Vec::new();
    let mut i: usize = 0;
    proof {
        assert(lists.take(0) =~= Seq::<Seq<bool>>::empty());
        assert(out@ =~= flat(lists.take(0)));
    }
    while i < arrays.len()
        invariant
            0 <= i <= arrays@.len(),
            parts == arrays_model(arrays@),
            lists == Seq::new(parts.len(), |k: int| all_bits(parts[k])),
            out@ == flat(lists.take(i as int)),
        decreases arrays@.len() - i,
    {
        let ghost before = out@;
        proof {
            assert(parts[i as int] == arrays@[i as int]@);
            lemma_flat_next(lists, i as int);
        }
        match arrays[i].validity() {
            Some(bits) => {
                extend_bits(&mut out, bits);
            },
            None => {
                let n: usize = arrays[i].len();
                let mut j: usize = 0;
                while j < n
                    invariant
                        0 <= j <= n,
                        out@ == before + Seq::new(j as nat, |m: int| true),
                    decreases n - j,
                {
                    out.push(true);
                    j = j + 1;
                    assert(out@ =~= before + Seq::new(j as nat, |m: int| true));
                }
                assert(Seq::new(j as nat, |m: int| true) =~= lists[i as int]);
            },
        }
        i = i + 1;
    }
    assert(lists.take(i as int) =~= lists);
    Some(Bitmap::from_bools(out.as_slice()))
}

/// How many slots arrays have together.
fn count_slots(arrays: &Vec<ArrayRef>) -> (r: usize)
    requires
        total_len(arrays_model(arrays@)) <= usize::MAX,
    ensures
        r == total_len(arrays_model(arrays@)),
{
    let ghost parts = arrays_model(arrays@);
    let ghost lists = cell_lists(parts);
    let mut total: usize = 0;
    let mut i: usize = 0;
    assert(lists.take(0) =~= Seq::<Seq<Cell>>::empty());
    while i < arrays.len()
        invariant
            0 <= i <= arrays@.len(),
            parts == arrays_model(arrays@),
            lists == cell_lists(parts),
            total == start_of(lists, i as int),
            total_len(parts) <= usize::MAX,
        decreases arrays@.len() - i,
    {
        proof {
            lemma_start_step(lists, i as int);
            assert(parts[i as int] == arrays@[i as int]@);
            assert(lists[i as int].len() == parts[i as int].len);
        }
        total = total + arrays[i].len();
        i = i + 1;
    }
    assert(lists.take(i as int) =~= lists);
    total
}

/// The bits of arrays, one behind the other.
fn concat_bits(arrays: &Vec<ArrayRef>) -> (r: Bitmap)
    requires
        of_type(TypeModel::Bool, arrays_model(arrays@)),
    ensures
        r@ == flat(bit_lists(arrays_model(arrays@))),
{
    let ghost parts = arrays_model(arrays@);
    let ghost lists = bit_lists(parts);
    let mut out: Vec<bool> = Vec::new();
    let mut i: usize = 0;
    proof {
        assert(lists.take(0) =~= Seq::<Seq<bool>>::empty());
        assert(out@ =~= flat(lists.take(0)));
    }
    while i < arrays.len()
        invariant
            0 <= i <= arrays@.len(),
            parts == arrays_model(arrays@),
            of_type(TypeModel::Bool, parts),
            lists == bit_lists(parts),
            out@ == flat(lists.take(i as int)),
        decreases arrays@.len() - i,
    {
        proof {
            assert(parts[i as int] == arrays@[i as int]@);
            lemma_flat_next(lists, i as int);
        }
        match arrays[i].body() {
            Body::Bits(bits) => {
                extend_bits(&mut out, bits);
            },
            _ => {},
        }
        i = i + 1;
    }
    assert(lists.take(i as int) =~= lists);
    Bitmap::from_bools(out.as_slice())
}

/// The fixed-width values of arrays, one behind the other.
fn concat_fixed(arrays: &Vec<ArrayRef>, Ghost(t): Ghost<TypeModel>) -> (r: Buffer)
    requires
        of_type(t, arrays_model(arrays@)),
        is_fixed(t),
    ensures
        r@ == flat(byte_lists(arrays_model(arrays@))),
{
    let ghost parts = arrays_model(arrays@);
    let ghost lists = byte_lists(parts);
    let mut out: Vec<u8> = Vec::new();
    let mut i: usize = 0;
    proof {
        assert(lists.take(0) =~= Seq::<Seq<u8>>::empty());
        assert(out@ =~= flat(lists.take(0)));
    }
    while i < arrays.len()
        invariant
            0 <= i <= arrays@.len(),
            parts == arrays_model(arrays@),
            of_type(t, parts),
            is_fixed(t),
            lists == byte_lists(parts),
            out@ == flat(lists.take(i as int)),
        decreases arrays@.len() - i,
    {
        proof {
            assert(parts[i as int] == arrays@[i as int]@);
            lemma_flat_next(lists, i as int);
        }
        match arrays[i].body() {
            Body::Fixed(bytes) => {
                extend(&mut out, bytes.as_slice());
            },
            _ => {},
        }
        i = i + 1;
    }
    assert(lists.take(i as int) =~= lists);
    Buffer::from_vec(out)
}

/// The covered bytes of arrays, one behind the other.
fn concat_values(arrays: &Vec<ArrayRef>, Ghost(t): Ghost<TypeModel>) -> (r: Buffer)
    requires
        of_type(t, arrays_model(arrays@)),
        is_var(t),
    ensures
        r@ == flat(value_lists(arrays_model(arrays@))),
{
    let ghost parts = arrays_model(arrays@);
    let ghost lists = value_lists(parts);
    let mut out: Vec<u8> = Vec::new();
    let mut i: usize = 0;
    proof {
        assert(lists.take(0) =~= Seq::<Seq<u8>>::empty());
        assert(out@ =~= flat(lists.take(0)));
    }
    while i < arrays.len()
        invariant
            0 <= i <= arrays@.len(),
            parts == arrays_model(arrays@),
            of_type(t, parts),
            is_var(t),
            lists == value_lists(parts),
            out@ == flat(lists.take(i as int)),
        decreases arrays@.len() - i,
    {
        proof {
            assert(parts[i as int] == arrays@[i as int]@);
            lemma_flat_next(lists, i as int);
        }
        match arrays[i].body() {
            Body::Var { offsets, values } => {
                let last: usize = offsets.len() - 1;
                proof {
                    assert(offsets@[0] <= offsets@[last as int]);
                }
                let bytes = values.as_slice();
                assert(bytes.len() == bytes@.len());
                let window = slice_subrange(bytes, offsets.at(0) as usize, offsets.at(last) as usize);
                extend(&mut out, window);
            },
            _ => {},
        }
        i = i + 1;
    }
    assert(lists.take(i as int) =~= lists);
    Buffer::from_vec(out)
}

/// One end of the joined array.
proof fn lemma_end_at(t: TypeModel, parts: Seq<ArrayV>, k: int, j: int)
    requires
        of_type(t, parts),
        is_var(t) || t is List,
        0 <= k < parts.len(),
        0 <= j <= parts[k].len,
    ensures
        ({
            let own = offsets_of(parts[k]);
            let at = ends(parts);
            &&& own.len() == parts[k].len + 1
            &&& 0 <= own[0] <= own[j] <= own.last()
            &&& 0 <= part_start(parts, k)
            &&& part_start(parts, k) + j < at.len()
            &&& at[part_start(parts, k) + j] == span_total(parts.take(k)) + (own[j] - own[0])
            &&& 0 <= span_total(parts.take(k))
            &&& at[part_start(parts, k) + j] <= span_total(parts)
            &&& span_total(parts.take(k + 1)) == span_total(parts.take(k)) + (own.last() - own[0])
            &&& part_start(parts, k + 1) == part_start(parts, k) + parts[k].len
            &&& part_start(parts, 0) == 0
        }),
{
    lemma_ends(t, parts);
    lemma_start_step(cell_lists(parts), k);
    assert(cell_lists(parts)[k].len() == parts[k].len);
    assert(parts[k].ty == t);
    let own = offsets_of(parts[k]);
    let at = ends(parts);
    assert(own[0] <= own[j]);
    assert(own[j] <= own[parts[k].len as int]);
    assert(at[part_start(parts, k) + j] == span_total(parts.take(k)) + (own[j] - own[0]));
    assert(at[part_start(parts, k) + j] <= at[at.len() - 1]);
    let front = parts.take(k);
    assert forall|i: int| #![trigger front[i]] 0 <= i < front.len() implies front[i].ty == t && front[i].wf() by {
        assert(parts[i].ty == t);
    }
    lemma_ends(t, front);
    assert(parts.take(k + 1).drop_last() =~= front);
    assert(parts.take(k + 1).last() == parts[k]);
}

/// The offsets of arrays, each counted on from the one before.
fn concat_offsets(arrays: &Vec<ArrayRef>, data_type: &DataType) -> (r: Result<Vec<i64>, DataError>)
    requires
        of_type(data_type@, arrays_model(arrays@)),
        is_var(data_type@) || data_type@ is List,
        span_total(arrays_model(arrays@)) <= usize::MAX,
    ensures
        match r {
            Ok(o) => ends_error(data_type@, ends(arrays_model(arrays@))) is None && o@ == as_offsets(
                ends(arrays_model(arrays@)),
            ),
            Err(e) => ends_error(data_type@, ends(arrays_model(arrays@))) == Some(e@),
        },
{
    let ghost parts = arrays_model(arrays@);
    let ghost t = data_type@;
    let ghost at = ends(parts);
    let ghost max = max_offset(t);
    let limit: u64 = max_offset_of(data_type);
    let mut out: Vec<i64> = Vec::new();
    let mut base: usize = 0;
    let mut k: usize = 0;
    out.push(0);
    proof {
        lemma_ends(t, parts);
        assert(parts.take(0) =~= Seq::<ArrayV>::empty());
        assert(cell_lists(parts).take(0) =~= Seq::<Seq<Cell>>::empty());
        assert(out@[0] == at[0]);
    }
    while k < arrays.len()
        invariant
            0 <= k <= arrays@.len(),
            parts == arrays_model(arrays@),
            t == data_type@,
            at == ends(parts),
            max == max_offset(t),
            limit == max,
            of_type(t, parts),
            is_var(t) || t is List,
            span_total(parts) <= usize::MAX,
            base == span_total(parts.take(k as int)),
            out@.len() == part_start(parts, k as int) + 1,
            out@.len() <= at.len(),
            forall|i: int| #![trigger out@[i]] 0 <= i < out@.len() ==> out@[i] == at[i] && at[i] <= max,
        decreases arrays@.len() - k,
    {
        proof {
            assert(parts[k as int] == arrays@[k as int]@);
            lemma_end_at(t, parts, k as int, parts[k as int].len as int);
        }
        let rows: usize = arrays[k].len();
        let offsets = match arrays[k].body() {
            Body::Var { offsets, values } => offsets.share(),
            Body::List { offsets, child } => offsets.share(),
            _ => Offsets::from_vec(Vec::new()),
        };
        assert(offsets@ == offsets_of(parts[k as int]));
        let first: i64 = offsets.at(0);
        let mut j: usize = 0;
        while j < rows
            invariant
                0 <= j <= rows,
                k < arrays@.len(),
                parts == arrays_model(arrays@),
                t == data_type@,
                at == ends(parts),
                max == max_offset(t),
                limit == max,
                of_type(t, parts),
                is_var(t) || t is List,
                span_total(parts) <= usize::MAX,
                rows == parts[k as int].len,
                offsets@ == offsets_of(parts[k as int]),
                offsets@.len() == rows + 1,
                first == offsets@[0],
                base == span_total(parts.take(k as int)),
                out@.len() == part_start(parts, k as int) + 1 + j,
                out@.len() <= at.len(),
                forall|i: int| #![trigger out@[i]] 0 <= i < out@.len() ==> out@[i] == at[i] && at[i] <= max,
            decreases rows - j,
        {
            proof {
                lemma_end_at(t, parts, k as int, j + 1);
            }
            let relative: usize = (offsets.at(j + 1) - first) as usize;
            let total: usize = base + relative;
            if total as u64 > limit {
                proof {
                    let n = out@.len();
                    assert(at[n as int] == total);
                    assert forall|i: int| #![trigger at[i]] 0 <= i < n implies at[i] <= max by {
                        assert(out@[i] == at[i]);
                    }
                    lemma_first_over(at, n, max);
                    assert(first_over(at, n + 1, max) == Some(total as int));
                    lemma_first_over_stays(at, n + 1, at.len(), max);
                }
                return Err(DataError::OffsetWidthOverflow { total, max: limit as usize });
            }
            out.push(total as i64);
            j = j + 1;
        }
        base = base + (offsets.at(rows) - first) as usize;
        k = k + 1;
    }
    proof {
        lemma_ends(t, parts);
        assert(cell_lists(parts).take(k as int) =~= cell_lists(parts));
        assert forall|i: int| #![trigger at[i]] 0 <= i < at.len() implies at[i] <= max by {
            assert(out@[i] == at[i]);
        }
        lemma_first_over(at, at.len(), max);
        assert(out@ =~= as_offsets(at));
    }
    Ok(out)
}

/// The children of arrays of lists, each narrowed to what its offsets cover.
fn list_children(arrays: &Vec<ArrayRef>, Ghost(t): Ghost<TypeModel>) -> (r: Vec<ArrayRef>)
    requires
        t is List,
        of_type(t, arrays_model(arrays@)),
    ensures
        arrays_model(r@) == list_windows(arrays_model(arrays@)),
{
    let ghost parts = arrays_model(arrays@);
    let ghost windows = list_windows(parts);
    let mut out: Vec<ArrayRef> = Vec::new();
    let mut i: usize = 0;
    while i < arrays.len()
        invariant
            0 <= i <= arrays@.len(),
            parts == arrays_model(arrays@),
            t is List,
            of_type(t, parts),
            windows == list_windows(parts),
            out@.len() == i,
            forall|k: int| #![trigger out@[k]] 0 <= k < i ==> out@[k]@ == windows[k],
        decreases arrays@.len() - i,
    {
        assert(parts[i as int] == arrays@[i as int]@);
        match arrays[i].body() {
            Body::List { offsets, child } => {
                let last: usize = offsets.len() - 1;
                proof {
                    assert(offsets@[0] <= offsets@[last as int]);
                }
                let start: usize = offsets.at(0) as usize;
                let count: usize = (offsets.at(last) - offsets.at(0)) as usize;
                out.push(slice_array(child, start, count));
            },
            _ => {},
        }
        i = i + 1;
    }
    assert(arrays_model(out@) =~= windows);
    out
}

/// The children of arrays of lists of one size.
fn run_children(arrays: &Vec<ArrayRef>, Ghost(t): Ghost<TypeModel>) -> (r: Vec<ArrayRef>)
    requires
        t is FixedSizeList,
        of_type(t, arrays_model(arrays@)),
    ensures
        arrays_model(r@) == fixed_children(arrays_model(arrays@)),
{
    let ghost parts = arrays_model(arrays@);
    let ghost children = fixed_children(parts);
    let mut out: Vec<ArrayRef> = Vec::new();
    let mut i: usize = 0;
    while i < arrays.len()
        invariant
            0 <= i <= arrays@.len(),
            parts == arrays_model(arrays@),
            t is FixedSizeList,
            of_type(t, parts),
            children == fixed_children(parts),
            out@.len() == i,
            forall|k: int| #![trigger out@[k]] 0 <= k < i ==> out@[k]@ == children[k],
        decreases arrays@.len() - i,
    {
        assert(parts[i as int] == arrays@[i as int]@);
        match arrays[i].body() {
            Body::FixedList { child } => {
                out.push(share(child));
            },
            _ => {},
        }
        i = i + 1;
    }
    assert(arrays_model(out@) =~= children);
    out
}

/// Column `c` of arrays of structs.
fn struct_column(arrays: &Vec<ArrayRef>, c: usize, Ghost(t): Ghost<TypeModel>) -> (r: Vec<ArrayRef>)
    requires
        t is Struct,
        c < t->Struct_0.len(),
        of_type(t, arrays_model(arrays@)),
    ensures
        arrays_model(r@) == column_parts(arrays_model(arrays@), c as int),
{
    broadcast use lemma_struct_body;
    let ghost parts = arrays_model(arrays@);
    let ghost own = column_parts(parts, c as int);
    let mut out: Vec<ArrayRef> = Vec::new();
    let mut i: usize = 0;
    while i < arrays.len()
        invariant
            0 <= i <= arrays@.len(),
            parts == arrays_model(arrays@),
            t is Struct,
            c < t->Struct_0.len(),
            of_type(t, parts),
            own == column_parts(parts, c as int),
            out@.len() == i,
            forall|k: int| #![trigger out@[k]] 0 <= k < i ==> out@[k]@ == own[k],
        decreases arrays@.len() - i,
    {
        assert(parts[i as int] == arrays@[i as int]@);
        let body = arrays[i].body();
        match body {
            Body::Struct { columns } => {
                proof {
                    lemma_struct_body(*body);
                    assert(arrays_model(columns@)[c as int] == columns@[c as int]@);
                }
                out.push(share(&columns[c]));
            },
            _ => {},
        }
        i = i + 1;
    }
    assert(arrays_model(out@) =~= own);
    out
}

/// Shares a made array.
fn shared(r: Result<Array, DataError>) -> (out: Result<ArrayRef, DataError>)
    ensures
        match (r, out) {
            (Ok(a), Ok(b)) => b@ == a@,
            (Err(e), Err(f)) => f@ == e@,
            _ => false,
        },
{
    match r {
        Ok(a) => Ok(Arc::new(a)),
        Err(e) => Err(e),
    }
}

/// Puts arrays of a type one behind the other.
fn concat_parts(data_type: &DataType, arrays: &Vec<ArrayRef>) -> (r: Result<ArrayRef, DataError>)
    requires
        arrays@.len() >= 1,
        of_type(data_type@, arrays_model(arrays@)),
        arrays@.len() > 1 ==> countable(data_type@, arrays_model(arrays@)),
    ensures
        match r {
            Ok(a) => joined(data_type@, arrays_model(arrays@)) == Ok::<ArrayV, DataErrorModel>(a@),
            Err(e) => joined(data_type@, arrays_model(arrays@)) == Err::<ArrayV, DataErrorModel>(e@),
        },
    decreases data_type, 1int,
{
    if arrays.len() == 1 {
        return Ok(share(&arrays[0]));
    }
    let ghost parts = arrays_model(arrays@);
    let ghost t = data_type@;
    let ghost want = joined_many(t, parts);
    proof {
        lemma_joined(t, parts);
        if want is Ok {
            crate::array::parts::lemma_remade(want->Ok_0);
        }
        assert(parts[0].wf());
    }
    match data_type {
        DataType::Null => Ok(Arc::new(Array::null(count_slots(arrays)))),
        DataType::Bool => shared(Array::boolean(concat_bits(arrays), concat_validity(arrays))),
        DataType::Binary | DataType::LargeBinary | DataType::Utf8 | DataType::LargeUtf8 => {
            proof {
                lemma_value_span(t, parts);
            }
            let offsets = match concat_offsets(arrays, data_type) {
                Ok(offsets) => offsets,
                Err(e) => {
                    return Err(e);
                },
            };
            let values = concat_values(arrays, Ghost(t));
            shared(
                Array::var(clone_type(data_type), Offsets::from_vec(offsets), values, concat_validity(arrays)),
            )
        },
        DataType::List(item) => {
            let children = list_children(arrays, Ghost(t));
            proof {
                lemma_windows_type(t, parts);
                lemma_window_lens(t, parts, parts.len() as int);
                assert(countable(t->List_0.data_type, list_windows(parts)));
                assert(total_len(list_windows(parts)) <= usize::MAX);
            }
            let child = match concat_parts(item.data_type(), &children) {
                Ok(child) => child,
                Err(e) => {
                    return Err(e);
                },
            };
            let offsets = match concat_offsets(arrays, data_type) {
                Ok(offsets) => offsets,
                Err(e) => {
                    return Err(e);
                },
            };
            shared(
                Array::list(clone_field(item), Offsets::from_vec(offsets), child, concat_validity(arrays)),
            )
        },
        DataType::FixedSizeList(item, size) => {
            let children = run_children(arrays, Ghost(t));
            proof {
                lemma_runs_type(t, parts);
            }
            let child = match concat_parts(item.data_type(), &children) {
                Ok(child) => child,
                Err(e) => {
                    return Err(e);
                },
            };
            shared(Array::fixed_list(clone_field(item), *size, child, concat_validity(arrays)))
        },
        DataType::Struct(fields) => {
            proof {
                crate::datatype::lemma_struct_model(*fields);
            }
            let columns = match concat_columns(fields, arrays, Ghost(t)) {
                Ok(columns) => columns,
                Err(e) => {
                    return Err(e);
                },
            };
            let rows: usize = count_slots(arrays);
            shared(Array::strukt(clone_fields(fields), columns, rows, concat_validity(arrays)))
        },
        _ => shared(
            Array::fixed(clone_type(data_type), concat_fixed(arrays, Ghost(t)), concat_validity(arrays)),
        ),
    }
}

/// Covered bytes are counted like the bytes themselves.
proof fn lemma_value_span(t: TypeModel, parts: Seq<ArrayV>)
    requires
        is_var(t),
        of_type(t, parts),
    ensures
        span_total(parts) == flat(value_lists(parts)).len(),
{
    let lists = value_lists(parts);
    assert forall|i: int| #![trigger lists[i]] 0 <= i < lists.len() implies lists[i].len() == span_of(parts[i]) by {
        assert(parts[i].ty == t);
        let own = offsets_of(parts[i]);
        assert(own[0] <= own[parts[i].len as int]);
    }
    lemma_span_starts(t, parts, lists, parts.len() as int);
    assert(lists.take(parts.len() as int) =~= lists);
    assert(parts.take(parts.len() as int) =~= parts);
}

proof fn lemma_windows_type(t: TypeModel, parts: Seq<ArrayV>)
    requires
        t is List,
        of_type(t, parts),
    ensures
        of_type(t->List_0.data_type, list_windows(parts)),
{
    let windows = list_windows(parts);
    assert forall|k: int| #![trigger windows[k]] 0 <= k < windows.len() implies windows[k].ty
        == t->List_0.data_type && windows[k].wf() by {
        assert(parts[k].ty == t);
        lemma_covered(parts[k]);
    }
}

proof fn lemma_runs_type(t: TypeModel, parts: Seq<ArrayV>)
    requires
        t is FixedSizeList,
        of_type(t, parts),
    ensures
        of_type(t->FixedSizeList_0.data_type, fixed_children(parts)),
{
    let children = fixed_children(parts);
    assert forall|k: int| #![trigger children[k]] 0 <= k < children.len() implies children[k].ty
        == t->FixedSizeList_0.data_type && children[k].wf() by {
        assert(parts[k].ty == t);
    }
}

proof fn lemma_column_type(t: TypeModel, parts: Seq<ArrayV>, c: int)
    requires
        t is Struct,
        of_type(t, parts),
        0 <= c < t->Struct_0.len(),
    ensures
        of_type(t->Struct_0[c].data_type, column_parts(parts, c)),
{
    let own = column_parts(parts, c);
    assert forall|k: int| #![trigger own[k]] 0 <= k < own.len() implies own[k].ty == t->Struct_0[c].data_type
        && own[k].wf() by {
        assert(parts[k].ty == t);
        assert(parts[k].body->Struct_0[c].wf());
    }
}

proof fn lemma_columns_error(fs: Seq<FieldModel>, n: int, parts: Seq<ArrayV>, e: DataErrorModel)
    requires
        0 <= n <= fs.len(),
        joined_columns(fs.take(n), parts) == Err::<Seq<ArrayV>, DataErrorModel>(e),
    ensures
        joined_columns(fs, parts) == Err::<Seq<ArrayV>, DataErrorModel>(e),
    decreases fs.len(),
{
    if n == fs.len() {
        assert(fs.take(n) =~= fs);
    } else {
        assert(fs.drop_last().take(n) =~= fs.take(n));
        lemma_columns_error(fs.drop_last(), n, parts, e);
    }
}

/// Puts the columns of arrays of structs one behind the other.
fn concat_columns(fields: &Vec<Field>, arrays: &Vec<ArrayRef>, Ghost(t): Ghost<TypeModel>) -> (r: Result<
    Vec<ArrayRef>,
    DataError,
>)
    requires
        t == TypeModel::Struct(fields_model(fields@)),
        arrays@.len() > 1,
        of_type(t, arrays_model(arrays@)),
        countable(t, arrays_model(arrays@)),
    ensures
        match r {
            Ok(columns) => joined_columns(fields_model(fields@), arrays_model(arrays@)) == Ok::<
                Seq<ArrayV>,
                DataErrorModel,
            >(arrays_model(columns@)),
            Err(e) => joined_columns(fields_model(fields@), arrays_model(arrays@)) == Err::<
                Seq<ArrayV>,
                DataErrorModel,
            >(e@),
        },
    decreases fields, 0int,
{
    let ghost fs = fields_model(fields@);
    let ghost parts = arrays_model(arrays@);
    let mut columns: Vec<ArrayRef> = Vec::new();
    let mut i: usize = 0;
    proof {
        assert(fs.take(0) =~= Seq::<FieldModel>::empty());
        assert(arrays_model(columns@) =~= Seq::<ArrayV>::empty());
    }
    while i < fields.len()
        invariant
            0 <= i <= fields@.len(),
            fs == fields_model(fields@),
            parts == arrays_model(arrays@),
            t == TypeModel::Struct(fs),
            arrays@.len() > 1,
            of_type(t, parts),
            countable(t, parts),
            joined_columns(fs.take(i as int), parts) == Ok::<Seq<ArrayV>, DataErrorModel>(
                arrays_model(columns@),
            ),
        decreases fields@.len() - i,
    {
        let ghost before = columns@;
        proof {
            assert(fs.take(i + 1).drop_last() =~= fs.take(i as int));
            assert(fs.take(i + 1).last() == fields@[i as int]@);
            assert(fs[i as int] == fields@[i as int]@);
            lemma_column_type(t, parts, i as int);
            assert(countable(fs[i as int].data_type, column_parts(parts, i as int)));
        }
        let own = struct_column(arrays, i, Ghost(t));
        assert(own@.len() == arrays_model(own@).len());
        assert(decreases_to!(fields => fields@[i as int]));
        match concat_parts(fields[i].data_type(), &own) {
            Ok(column) => {
                columns.push(column);
                assert(arrays_model(columns@) =~= arrays_model(before).push(column@));
            },
            Err(e) => {
                proof {
                    lemma_columns_error(fs, i + 1, parts, e@);
                }
                return Err(e);
            },
        }
        i = i + 1;
    }
    assert(fs.take(i as int) =~= fs);
    Ok(columns)
}

/// The first batch of another schema than the first one.
pub open spec fn first_other_schema(batches: Seq<BatchV>, count: nat) -> Option<nat>
    decreases count,
{
    if count == 0 {
        None
    } else {
        match first_other_schema(batches, (count - 1) as nat) {
            Some(k) => Some(k),
            None => if batches[count - 1].schema != batches[0].schema {
                Some((count - 1) as nat)
            } else {
                None
            },
        }
    }
}

proof fn lemma_first_other_schema_stays(batches: Seq<BatchV>, count: nat, all: nat)
    requires
        count <= all,
        first_other_schema(batches, count) is Some,
    ensures
        first_other_schema(batches, all) == first_other_schema(batches, count),
    decreases all,
{
    if count < all {
        lemma_first_other_schema_stays(batches, count, (all - 1) as nat);
    }
}

proof fn lemma_first_other_schema(batches: Seq<BatchV>, count: nat)
    requires
        count <= batches.len(),
        first_other_schema(batches, count) is None,
    ensures
        forall|k: int| #![trigger batches[k]] 0 <= k < count ==> batches[k].schema == batches[0].schema,
    decreases count,
{
    if count > 0 {
        lemma_first_other_schema(batches, (count - 1) as nat);
    }
}

/// Column `c` of every batch.
pub open spec fn batch_column(batches: Seq<BatchV>, c: int) -> Seq<ArrayV> {
    Seq::new(batches.len(), |k: int| batches[k].columns[c])
}

/// The first `count` columns of batches, each put one behind the other.
pub open spec fn concat_columns_of(batches: Seq<BatchV>, count: nat) -> Result<Seq<ArrayV>, DataErrorModel>
    decreases count,
{
    if count == 0 {
        Ok(Seq::empty())
    } else {
        match concat_columns_of(batches, (count - 1) as nat) {
            Err(e) => Err(e),
            Ok(before) => match concat_of(batch_column(batches, count - 1)) {
                Err(e) => Err(e),
                Ok(column) => Ok(before.push(column)),
            },
        }
    }
}

proof fn lemma_batch_columns_error(batches: Seq<BatchV>, count: nat, all: nat, e: DataErrorModel)
    requires
        count <= all,
        concat_columns_of(batches, count) == Err::<Seq<ArrayV>, DataErrorModel>(e),
    ensures
        concat_columns_of(batches, all) == Err::<Seq<ArrayV>, DataErrorModel>(e),
    decreases all,
{
    if count < all {
        lemma_batch_columns_error(batches, count, (all - 1) as nat, e);
    }
}

/// The rows of batches together.
pub open spec fn rows_total(batches: Seq<BatchV>) -> nat
    decreases batches.len(),
{
    if batches.len() == 0 {
        0
    } else {
        rows_total(batches.drop_last()) + batches.last().rows
    }
}

/// The first batches have no more rows than all.
proof fn lemma_rows_total(batches: Seq<BatchV>, n: int)
    requires
        0 <= n <= batches.len(),
    ensures
        rows_total(batches.take(n)) <= rows_total(batches),
    decreases batches.len(),
{
    if n == batches.len() {
        assert(batches.take(n) =~= batches);
    } else {
        assert(batches.drop_last().take(n) =~= batches.take(n));
        lemma_rows_total(batches.drop_last(), n);
    }
}

/// What batches make, put one behind the other: as many rows as they have
/// together, also where they have no columns.
pub open spec fn concat_batches_of(batches: Seq<BatchV>) -> Result<BatchV, DataErrorModel> {
    if batches.len() == 0 {
        Err(DataErrorModel::ColumnCountMismatch { fields: 1, columns: 0 })
    } else if batches.len() == 1 {
        Ok(batches[0])
    } else {
        match first_other_schema(batches, batches.len()) {
            Some(k) => Err(
                DataErrorModel::TypeMismatch {
                    expected: TypeModel::Struct(batches[0].schema.fields),
                    actual: TypeModel::Struct(batches[k as int].schema.fields),
                },
            ),
            None => match concat_columns_of(batches, batches[0].columns.len()) {
                Err(e) => Err(e),
                Ok(columns) => make_batch(
                    batches[0].schema,
                    columns,
                    RecordBatchOptions { row_count: Some(rows_total(batches) as usize), ..strict() },
                ),
            },
        }
    }
}

/// The rows of batches, and the slots of every column of theirs, can be counted.
pub open spec fn batches_countable(batches: Seq<BatchV>) -> bool {
    batches.len() > 1 && first_other_schema(batches, batches.len()) is None ==> {
        &&& rows_total(batches) <= usize::MAX
        &&& forall|c: int|
            #![trigger batch_column(batches, c)]
            0 <= c < batches[0].columns.len() ==> {
                let parts = batch_column(batches, c);
                first_other(parts, parts.len()) is None ==> countable(parts[0].ty, parts)
            }
    }
}

/// Each of the columns is made of its parts.
proof fn lemma_concat_columns(batches: Seq<BatchV>, count: nat)
    ensures
        concat_columns_of(batches, count) matches Ok(columns) ==> columns.len() == count && forall|c: int|
            #![trigger columns[c]]
            0 <= c < count ==> concat_of(batch_column(batches, c)) == Ok::<ArrayV, DataErrorModel>(columns[c]),
    decreases count,
{
    if count > 0 {
        lemma_concat_columns(batches, (count - 1) as nat);
    }
}

/// Several batches that can be put one behind the other have one schema; the
/// whole has that schema, as many rows as they have together, and each column is
/// theirs put one behind the other.
pub proof fn law_batches_are_joined(batches: Seq<BatchV>)
    requires
        batches.len() >= 2,
        batches_countable(batches),
        concat_batches_of(batches) is Ok,
    ensures
        ({
            let whole = concat_batches_of(batches)->Ok_0;
            &&& forall|k: int| #![trigger batches[k]] 0 <= k < batches.len() ==> batches[k].schema == whole.schema
            &&& whole.rows == rows_total(batches)
            &&& whole.columns.len() == batches[0].columns.len()
            &&& forall|c: int|
                #![trigger whole.columns[c]]
                0 <= c < whole.columns.len() ==> concat_of(batch_column(batches, c)) == Ok::<
                    ArrayV,
                    DataErrorModel,
                >(whole.columns[c])
        }),
{
    lemma_first_other_schema(batches, batches.len());
    lemma_concat_columns(batches, batches[0].columns.len());
}

/// What batches hold.
pub open spec fn batch_models(batches: Seq<RecordBatch>) -> Seq<BatchV> {
    Seq::new(batches.len(), |i: int| batches[i]@)
}

/// Puts batches of one schema one behind the other.
pub fn concat_batches(batches: &[RecordBatch]) -> (r: Result<RecordBatch, DataError>)
    requires
        batches_countable(batch_models(batches@)),
    ensures
        match r {
            Ok(b) => concat_batches_of(batch_models(batches@)) == Ok::<BatchV, DataErrorModel>(b@),
            Err(e) => concat_batches_of(batch_models(batches@)) == Err::<BatchV, DataErrorModel>(e@),
        },
{
    let ghost all = batch_models(batches@);
    if batches.len() == 0 {
        return Err(DataError::ColumnCountMismatch { fields: 1, columns: 0 });
    }
    assert(all[0] == batches@[0]@);
    if batches.len() == 1 {
        return Ok(batches[0].clone());
    }
    let mut i: usize = 0;
    while i < batches.len()
        invariant
            0 <= i <= batches@.len(),
            all == batch_models(batches@),
            all.len() > 1,
            first_other_schema(all, i as nat) is None,
            forall|k: int| #![trigger all[k]] 0 <= k < i ==> all[k].wf(),
        decreases batches@.len() - i,
    {
        let rows: usize = batches[i].num_rows();
        assert(all[i as int] == batches@[i as int]@);
        assert(all[0] == batches@[0]@);
        if !batches[i].schema().equal(batches[0].schema()) {
            proof {
                lemma_first_other_schema_stays(all, (i + 1) as nat, all.len());
                broadcast use crate::datatype::lemma_struct_model;

            }
            return Err(
                DataError::type_mismatch(
                    DataType::strukt(clone_fields(batches[0].schema().fields())),
                    DataType::strukt(clone_fields(batches[i].schema().fields())),
                ),
            );
        }
        i = i + 1;
    }
    proof {
        lemma_first_other_schema(all, all.len());
    }
    let count: usize = batches[0].columns().len();
    let mut columns: Vec<ArrayRef> = Vec::new();
    let mut c: usize = 0;
    assert(arrays_model(columns@) =~= Seq::<ArrayV>::empty());
    while c < count
        invariant
            0 <= c <= count,
            all == batch_models(batches@),
            all.len() > 1,
            count == all[0].columns.len(),
            batches_countable(all),
            first_other_schema(all, all.len()) is None,
            forall|k: int| #![trigger all[k]] 0 <= k < all.len() ==> all[k].wf() && all[k].schema == all[0].schema,
            concat_columns_of(all, c as nat) == Ok::<Seq<ArrayV>, DataErrorModel>(arrays_model(columns@)),
        decreases count - c,
    {
        let ghost before = columns@;
        proof {
            assert forall|k: int| #![trigger batches@[k]] 0 <= k < batches@.len() implies c
                < batches@[k]@.columns.len() by {
                assert(all[k] == batches@[k]@);
                assert(all[0].wf());
            }
        }
        let own = column_of_batches(batches, c);
        proof {
            assert(arrays_model(own@) == batch_column(all, c as int));
        }
        match concat_list(&own) {
            Ok(column) => {
                columns.push(column);
                assert(arrays_model(columns@) =~= arrays_model(before).push(column@));
            },
            Err(e) => {
                proof {
                    lemma_batch_columns_error(all, (c + 1) as nat, count as nat, e@);
                }
                return Err(e);
            },
        }
        c = c + 1;
    }
    let mut rows: usize = 0;
    let mut k: usize = 0;
    assert(all.take(0) =~= Seq::<BatchV>::empty());
    while k < batches.len()
        invariant
            0 <= k <= batches@.len(),
            all == batch_models(batches@),
            rows_total(all) <= usize::MAX,
            rows == rows_total(all.take(k as int)),
        decreases batches@.len() - k,
    {
        proof {
            assert(all[k as int] == batches@[k as int]@);
            assert(all.take(k + 1).drop_last() =~= all.take(k as int));
            lemma_rows_total(all, k + 1);
        }
        rows = rows + batches[k].num_rows();
        k = k + 1;
    }
    assert(all.take(k as int) =~= all);
    RecordBatch::try_new_with_row_count(batches[0].schema_ref(), columns, rows)
}

/// Column `c` of every batch.
fn column_of_batches(batches: &[RecordBatch], c: usize) -> (r: Vec<ArrayRef>)
    requires
        forall|k: int|
            #![trigger batches@[k]]
            0 <= k < batches@.len() ==> c < batches@[k]@.columns.len(),
    ensures
        arrays_model(r@) == batch_column(batch_models(batches@), c as int),
{
    let ghost all = batch_models(batches@);
    let mut out: Vec<ArrayRef> = Vec::new();
    let mut i: usize = 0;
    while i < batches.len()
        invariant
            0 <= i <= batches@.len(),
            all == batch_models(batches@),
            forall|k: int|
                #![trigger batches@[k]]
                0 <= k < batches@.len() ==> c < batches@[k]@.columns.len(),
            out@.len() == i,
            forall|k: int| #![trigger out@[k]] 0 <= k < i ==> out@[k]@ == all[k].columns[c as int],
        decreases batches@.len() - i,
    {
        assert(all[i as int] == batches@[i as int]@);
        let columns = batches[i].columns();
        assert(arrays_model(columns@)[c as int] == columns@[c as int]@);
        out.push(share(&columns[c]));
        i = i + 1;
    }
    assert(arrays_model(out@) =~= batch_column(all, c as int));
    out
}

} // verus!
