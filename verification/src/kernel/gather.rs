//! Picking slots of an array.
//!
//! Slot `i` of the result is the slot that position `i` names, or null where it
//! names none.
use vstd::prelude::*;
use vstd::slice::slice_subrange;
use std::sync::Arc;
use crate::array::column::{
    bits_model, arrays_model, max_offset_of, slice_array, Array, ArrayRef, Body,
};
use crate::array::fresh::{
    lemma_empty_fits, lemma_nulls_cells, new_null_array, nulls_fit, nulls_of, size_error, sizes_error,
};
use crate::array::model::{
    all_text, is_text, is_var, law_slice_keeps_cells, lemma_fixed_width, lemma_scaled, max_offset, offsets_ok,
    var_slot, ArrayV, BodyV, Cell,
};
use crate::array::parts::lemma_remade;
use crate::buffer::{Bitmap, Buffer, Offsets};
use crate::datatype::{clone_type, DataType, FieldModel, TypeModel};
use crate::error::{DataError, DataErrorModel};
use crate::kernel::concat::{concat_list, concat_of, first_other};
use crate::flat::flat;
use crate::kernel::joined::{cell_lists, countable, joined, law_concat_keeps_cells, of_type};
use crate::le::{extend, extend_zeros};

verus! {

/// Whether position `i` names a slot.
pub open spec fn names(a: ArrayV, positions: Seq<Option<usize>>, i: int) -> bool {
    positions[i] matches Some(p) && p < a.len
}

/// What the picked slots hold.
pub open spec fn picked(a: ArrayV, positions: Seq<Option<usize>>) -> Seq<Cell> {
    Seq::new(
        positions.len(),
        |i: int|
            if names(a, positions, i) {
                a.cell(positions[i]->0 as int)
            } else {
                Cell::Null
            },
    )
}

/// Whether the type's slots are lists or structs.
pub open spec fn is_nested(t: TypeModel) -> bool {
    t is List || t is FixedSizeList || t is Struct
}

/// The slot that each position names, as an array of one slot.
pub open spec fn picked_rows(a: ArrayV, positions: Seq<Option<usize>>) -> Seq<ArrayV> {
    Seq::new(
        positions.len(),
        |i: int|
            if names(a, positions, i) {
                a.sliced(positions[i]->0 as int, 1)
            } else {
                nulls_of(a.ty, 1)
            },
    )
}

/// The bytes that the first `count` picked slots take.
pub open spec fn picked_bytes(a: ArrayV, positions: Seq<Option<usize>>, count: nat) -> nat
    decreases count,
{
    if count == 0 {
        0
    } else {
        picked_bytes(a, positions, (count - 1) as nat) + match picked(a, positions)[count - 1] {
            Cell::Bytes(b) => b.len(),
            _ => 0,
        }
    }
}

/// The first running total of the first `count` picked slots past what offsets
/// can hold.
pub open spec fn first_total_over(a: ArrayV, positions: Seq<Option<usize>>, count: nat) -> Option<nat>
    decreases count,
{
    if count == 0 {
        None
    } else {
        match first_total_over(a, positions, (count - 1) as nat) {
            Some(n) => Some(n),
            None => if picked_bytes(a, positions, count) > max_offset(a.ty) {
                Some(picked_bytes(a, positions, count))
            } else {
                None
            },
        }
    }
}

/// Why the picked slots make no array: offsets of the type do not reach.
pub open spec fn gather_error(a: ArrayV, positions: Seq<Option<usize>>) -> Option<DataErrorModel> {
    if is_var(a.ty) {
        match first_total_over(a, positions, positions.len()) {
            Some(n) => Some(
                DataErrorModel::OffsetWidthOverflow { total: n as usize, max: max_offset(a.ty) as usize },
            ),
            None => None,
        }
    } else if is_nested(a.ty) && positions.len() > 0 {
        match joined(a.ty, picked_rows(a, positions)) {
            Err(e) => Some(e),
            Ok(_) => None,
        }
    } else {
        None
    }
}

/// What the picked slots hold can be counted.
pub open spec fn pickable(a: ArrayV, positions: Seq<Option<usize>>) -> bool {
    is_nested(a.ty) ==> {
        &&& positions.len() > 1 ==> countable(a.ty, picked_rows(a, positions))
        &&& (exists|i: int| 0 <= i < positions.len() && !#[trigger] names(a, positions, i)) ==> nulls_fit(
            a.ty,
            1,
        )
    }
}

/// What gathering gives.
pub open spec fn gathered(r: Result<ArrayRef, DataError>, a: ArrayV, positions: Seq<Option<usize>>) -> bool {
    match r {
        Ok(b) => gather_error(a, positions) is None && b@.ty == a.ty && b@.cells() == picked(a, positions),
        Err(e) => gather_error(a, positions) == Some(e@),
    }
}

/// Picks slots of an array.
pub fn gather(array: &ArrayRef, positions: &[Option<usize>]) -> (r: Result<ArrayRef, DataError>)
    requires
        pickable(array@, positions@),
    ensures
        gathered(r, array@, positions@),
{
    let n: usize = array.len();
    match array.data_type() {
        DataType::Null => {
            let out = Array::null(positions.len());
            assert(out@.cells() =~= picked(array@, positions@));
            Ok(Arc::new(out))
        },
        DataType::Bool => gather_boolean(array, positions),
        DataType::Binary | DataType::LargeBinary | DataType::Utf8 | DataType::LargeUtf8 => gather_strings(
            array,
            positions,
        ),
        DataType::List(_) | DataType::FixedSizeList(_, _) | DataType::Struct(_) => gather_nested(
            array,
            positions,
        ),
        _ => gather_fixed(array, positions),
    }
}

/// The slot a position names, if it names one that is not null.
fn valid_slot(array: &Array, position: Option<usize>) -> (r: Option<usize>)
    ensures
        match r {
            Some(p) => position == Some(p) && p < array@.len && array@.valid_at(p as int),
            None => position matches Some(p) ==> p >= array@.len || !array@.valid_at(p as int),
        },
{
    match position {
        Some(p) => if array.is_valid(p) {
            Some(p)
        } else {
            None
        },
        None => None,
    }
}

/// Whether slot `i` of the picked slots is not null.
pub open spec fn lives(a: ArrayV, positions: Seq<Option<usize>>, i: int) -> bool {
    names(a, positions, i) && a.valid_at(positions[i]->0 as int)
}

/// The validity bitmap of bits: none where every bit is set.
fn validity_of(bits: &Vec<bool>) -> (r: Option<Bitmap>)
    ensures
        match bits_model(r) {
            Some(v) => v == bits@,
            None => forall|i: int| 0 <= i < bits@.len() ==> bits@[i],
        },
{
    let mut i: usize = 0;
    while i < bits.len()
        invariant
            0 <= i <= bits@.len(),
            forall|k: int| 0 <= k < i ==> bits@[k],
        decreases bits@.len() - i,
    {
        if !bits[i] {
            return Some(Bitmap::from_bools(bits.as_slice()));
        }
        i = i + 1;
    }
    None
}

/// Picks bits.
fn gather_boolean(array: &ArrayRef, positions: &[Option<usize>]) -> (r: Result<ArrayRef, DataError>)
    requires
        array@.ty is Bool,
    ensures
        gathered(r, array@, positions@),
{
    let ghost a = array@;
    let mut bits: Vec<bool> = Vec::new();
    let mut valid: Vec<bool> = Vec::new();
    let mut i: usize = 0;
    while i < positions.len()
        invariant
            0 <= i <= positions@.len(),
            a == array@,
            a.ty is Bool,
            bits@.len() == i,
            valid@.len() == i,
            forall|k: int| #![trigger valid@[k]] 0 <= k < i ==> valid@[k] == lives(a, positions@, k),
            forall|k: int|
                #![trigger bits@[k]]
                0 <= k < i && lives(a, positions@, k) ==> bits@[k] == a.body->Bits_0[positions@[k]->0 as int],
        decreases positions@.len() - i,
    {
        match valid_slot(array, positions[i]) {
            Some(p) => {
                let bit = match array.body() {
                    Body::Bits(source) => source.bit(p),
                    _ => false,
                };
                bits.push(bit);
                valid.push(true);
            },
            None => {
                bits.push(false);
                valid.push(false);
            },
        }
        i = i + 1;
    }
    let validity = validity_of(&valid);
    let n: usize = array.len();
    match Array::boolean(Bitmap::from_bools(bits.as_slice()), validity) {
        Ok(out) => {
            proof {
                let got = out@.cells();
                let want = picked(a, positions@);
                assert forall|k: int| 0 <= k < want.len() implies got[k] == want[k] by {
                    assert(valid@[k] == lives(a, positions@, k));
                    assert(out@.valid_at(k) == lives(a, positions@, k));
                }
                assert(got =~= want);
            }
            Ok(Arc::new(out))
        },
        Err(e) => Err(e),
    }
}

/// Appending leaves what stands before.
proof fn lemma_append_keeps(before: Seq<u8>, more: Seq<u8>, from: int, to: int)
    requires
        0 <= from <= to <= before.len(),
    ensures
        (before + more).subrange(from, to) == before.subrange(from, to),
{
    assert((before + more).subrange(from, to) =~= before.subrange(from, to));
}

/// Picks fixed-width values.
fn gather_fixed(array: &ArrayRef, positions: &[Option<usize>]) -> (r: Result<ArrayRef, DataError>)
    requires
        array@.body is Fixed,
    ensures
        gathered(r, array@, positions@),
{
    let ghost a = array@;
    let rows: usize = array.len();
    let width: usize = array.value_width();
    proof {
        lemma_fixed_width(a);
        lemma_remade(a);
    }
    let ghost source = a.body->Fixed_0;
    let mut bytes: Vec<u8> = Vec::new();
    let mut valid: Vec<bool> = Vec::new();
    let mut i: usize = 0;
    while i < positions.len()
        invariant
            0 <= i <= positions@.len(),
            a == array@,
            a.wf(),
            a.body is Fixed,
            source == a.body->Fixed_0,
            width == a.width(),
            width > 0,
            source.len() == a.len * width,
            bytes@.len() == i * width,
            valid@.len() == i,
            forall|k: int| #![trigger valid@[k]] 0 <= k < i ==> valid@[k] == lives(a, positions@, k),
            forall|k: int|
                #![trigger lives(a, positions@, k)]
                0 <= k < i && lives(a, positions@, k) ==> bytes@.subrange(k * width, k * width + width)
                    == a.cell(positions@[k]->0 as int)->Bytes_0,
        decreases positions@.len() - i,
    {
        let ghost before = bytes@;
        let ghost old_valid = valid@;
        match valid_slot(array, positions[i]) {
            Some(p) => {
                proof {
                    lemma_scaled(p as int, a.len as int, width as int);
                }
                match array.body() {
                    Body::Fixed(values) => {
                        let slot = values.as_slice();
                        assert(slot.len() == slot@.len());
                        extend(&mut bytes, slice_subrange(slot, p * width, p * width + width));
                    },
                    _ => {},
                }
                valid.push(true);
            },
            None => {
                extend_zeros(&mut bytes, width);
                valid.push(false);
            },
        }
        proof {
            let w = width as int;
            lemma_scaled(i as int, i + 1, w);
            let more = bytes@.skip(before.len() as int);
            assert(bytes@ =~= before + more);
            assert forall|k: int|
                #![trigger lives(a, positions@, k)]
                0 <= k < i + 1 && lives(a, positions@, k) implies bytes@.subrange(k * w, k * w + w) == a.cell(
                positions@[k]->0 as int,
            )->Bytes_0 by {
                if k < i {
                    lemma_scaled(k, i as int, w);
                    assert(old_valid[k] == valid@[k]);
                    lemma_append_keeps(before, more, k * w, k * w + w);
                } else {
                    assert(bytes@.subrange(k * w, k * w + w) =~= more);
                }
            }
        }
        i = i + 1;
    }
    let validity = validity_of(&valid);
    let ghost n = positions@.len();
    proof {
        let w = width as int;
        let len = bytes@.len() as int;
        vstd::arithmetic::div_mod::lemma_div_multiples_vanish(n as int, w);
        vstd::arithmetic::div_mod::lemma_mod_multiples_basic(n as int, w);
        assert(w * n == n * w) by (nonlinear_arith);
    }
    let buffer = Buffer::from_vec(bytes);
    match Array::fixed(clone_type(array.data_type()), buffer, validity) {
        Ok(out) => {
            proof {
                let got = out@.cells();
                let want = picked(a, positions@);
                assert(out@.width() == a.width());
                assert(out@.len == n);
                assert forall|k: int| 0 <= k < want.len() implies got[k] == want[k] by {
                    assert(valid@[k] == lives(a, positions@, k));
                    assert(out@.valid_at(k) == lives(a, positions@, k));
                }
                assert(got =~= want);
            }
            Ok(Arc::new(out))
        },
        Err(e) => Err(e),
    }
}

/// A total past the offsets is the first one, whatever comes after.
proof fn lemma_total_over_stays(a: ArrayV, positions: Seq<Option<usize>>, count: nat, all: nat)
    requires
        count <= all,
        first_total_over(a, positions, count) is Some,
    ensures
        first_total_over(a, positions, all) == first_total_over(a, positions, count),
    decreases all,
{
    if count < all {
        lemma_total_over_stays(a, positions, count, (all - 1) as nat);
    }
}

/// Picks byte strings.
#[verifier::rlimit(40)]
fn gather_strings(array: &ArrayRef, positions: &[Option<usize>]) -> (r: Result<ArrayRef, DataError>)
    requires
        is_var(array@.ty),
    ensures
        gathered(r, array@, positions@),
{
    let ghost a = array@;
    let rows: usize = array.len();
    let limit: u64 = max_offset_of(array.data_type());
    let mut offsets: Vec<i64> = Vec::new();
    let mut values: Vec<u8> = Vec::new();
    let mut valid: Vec<bool> = Vec::new();
    let mut i: usize = 0;
    offsets.push(0);
    while i < positions.len()
        invariant
            0 <= i <= positions@.len(),
            a == array@,
            a.wf(),
            is_var(a.ty),
            limit == max_offset(a.ty),
            offsets@.len() == i + 1,
            offsets@[0] == 0,
            offsets@[i as int] == values@.len(),
            values@.len() == picked_bytes(a, positions@, i as nat),
            first_total_over(a, positions@, i as nat) is None,
            valid@.len() == i,
            forall|k: int, j: int|
                #![trigger offsets@[k], offsets@[j]]
                0 <= k <= j <= i ==> offsets@[k] <= offsets@[j],
            forall|k: int| #![trigger valid@[k]] 0 <= k < i ==> valid@[k] == lives(a, positions@, k),
            forall|k: int|
                #![trigger lives(a, positions@, k)]
                0 <= k < i ==> Cell::Bytes(var_slot(offsets@, values@, k)) == (if lives(a, positions@, k) {
                    a.cell(positions@[k]->0 as int)
                } else {
                    Cell::Bytes(Seq::empty())
                }),
        decreases positions@.len() - i,
    {
        let ghost old_values = values@;
        let ghost old_offsets = offsets@;
        let ghost old_valid = valid@;
        match valid_slot(array, positions[i]) {
            Some(p) => {
                match array.body() {
                    Body::Var { offsets: own, values: bytes } => {
                        proof {
                            assert(own@[0] <= own@[p as int]);
                            assert(own@[p as int] <= own@[p + 1]);
                            assert(own@[p + 1] <= own@[a.len as int]);
                        }
                        let start: usize = own.at(p) as usize;
                        let end: usize = own.at(p + 1) as usize;
                        let slot = bytes.as_slice();
                        assert(slot.len() == slot@.len());
                        let total: u128 = values.len() as u128 + (end - start) as u128;
                        proof {
                            assert(picked(a, positions@)[i as int] == a.cell(p as int));
                            assert(total == picked_bytes(a, positions@, (i + 1) as nat));
                        }
                        if total > limit as u128 {
                            proof {
                                lemma_total_over_stays(
                                    a,
                                    positions@,
                                    (i + 1) as nat,
                                    positions@.len(),
                                );
                            }
                            return Err(
                                DataError::OffsetWidthOverflow {
                                    total: #[verifier::truncate] (total as usize),
                                    max: #[verifier::truncate] (limit as usize),
                                },
                            );
                        }
                        extend(&mut values, slice_subrange(slot, start, end));
                    },
                    _ => {},
                }
                valid.push(true);
            },
            None => {
                valid.push(false);
            },
        }
        offsets.push(values.len() as i64);
        proof {
            let more = values@.skip(old_values.len() as int);
            assert(values@ =~= old_values + more);
            assert forall|k: int| #![trigger lives(a, positions@, k)] 0 <= k < i + 1 implies Cell::Bytes(
                var_slot(offsets@, values@, k),
            ) == (if lives(a, positions@, k) {
                a.cell(positions@[k]->0 as int)
            } else {
                Cell::Bytes(Seq::empty())
            }) by {
                if k < i {
                    assert(old_valid[k] == valid@[k]);
                    assert(old_offsets[0] <= old_offsets[k]);
                    assert(old_offsets[k] <= old_offsets[k + 1]);
                    assert(old_offsets[k + 1] <= old_offsets[i as int]);
                    lemma_append_keeps(
                        old_values,
                        more,
                        old_offsets[k] as int,
                        old_offsets[k + 1] as int,
                    );
                    assert(var_slot(offsets@, values@, k) == var_slot(old_offsets, old_values, k));
                } else {
                    assert(var_slot(offsets@, values@, k) =~= more);
                    if lives(a, positions@, k) {
                        let p = positions@[k]->0 as int;
                        let own = a.body->Var_offsets;
                        assert(more =~= a.body->Var_values.subrange(own[p] as int, own[p + 1] as int));
                    } else {
                        assert(more =~= Seq::<u8>::empty());
                    }
                }
            }
            assert forall|k: int, j: int|
                #![trigger offsets@[k], offsets@[j]]
                0 <= k <= j <= i + 1 implies offsets@[k] <= offsets@[j] by {
                if j == i + 1 && k <= i {
                    assert(old_offsets[k] <= old_offsets[i as int]);
                }
            }
        }
        i = i + 1;
    }
    let validity = validity_of(&valid);
    let ghost n = positions@.len();
    proof {
        let bits = bits_model(validity);
        let want = ArrayV {
            ty: a.ty,
            len: n,
            validity: bits,
            body: BodyV::Var { offsets: offsets@, values: values@ },
        };
        assert(values.len() == values@.len());
        if is_text(a.ty) {
            lemma_empty_text();
            assert forall|k: int| 0 <= k < n implies vstd::utf8::valid_utf8(
                #[trigger] var_slot(offsets@, values@, k),
            ) by {
                assert(valid@[k] == lives(a, positions@, k));
            }
            assert(all_text(offsets@, values@, n));
        }
        assert(offsets_ok(offsets@, n, values@.len() as int, max_offset(a.ty))) by {
            lemma_no_total_over(a, positions@, n);
        }
        assert(positions.len() == n);
        assert(want.wf());
        lemma_remade(want);
        let got = want.cells();
        let cells = picked(a, positions@);
        assert forall|k: int| 0 <= k < cells.len() implies got[k] == cells[k] by {
            assert(valid@[k] == lives(a, positions@, k));
            assert(want.valid_at(k) == lives(a, positions@, k));
        }
        assert(got =~= cells);
    }
    match Array::var(
        clone_type(array.data_type()),
        Offsets::from_vec(offsets),
        Buffer::from_vec(values),
        validity,
    ) {
        Ok(out) => Ok(Arc::new(out)),
        Err(e) => Err(e),
    }
}

/// No bytes are text.
proof fn lemma_empty_text()
    ensures
        vstd::utf8::valid_utf8(Seq::<u8>::empty()),
{
}

/// Without a total past the offsets, the whole total is not past them.
proof fn lemma_no_total_over(a: ArrayV, positions: Seq<Option<usize>>, count: nat)
    requires
        first_total_over(a, positions, count) is None,
        0 <= max_offset(a.ty),
    ensures
        picked_bytes(a, positions, count) <= max_offset(a.ty),
{
}

/// An array's own type has no size that is not positive.
proof fn lemma_no_size_error(a: ArrayV)
    requires
        a.wf(),
    ensures
        size_error(a.ty) is None,
    decreases a,
{
    match a.body {
        BodyV::List { offsets, child } => {
            lemma_no_size_error(*child);
        },
        BodyV::FixedList(child) => {
            lemma_no_size_error(*child);
        },
        BodyV::Struct(columns) => {
            let fs = a.ty->Struct_0;
            assert forall|k: int| #![trigger fs[k]] 0 <= k < fs.len() implies size_error(fs[k].data_type) is None by {
                assert(columns[k].wf());
                lemma_no_size_error(columns[k]);
            }
            lemma_no_sizes_error(fs);
        },
        _ => {},
    }
}

proof fn lemma_no_sizes_error(fs: Seq<FieldModel>)
    requires
        forall|k: int| #![trigger fs[k]] 0 <= k < fs.len() ==> size_error(fs[k].data_type) is None,
    ensures
        sizes_error(fs) is None,
    decreases fs.len(),
{
    if fs.len() > 0 {
        let front = fs.drop_last();
        assert forall|k: int| #![trigger front[k]] 0 <= k < front.len() implies size_error(front[k].data_type) is None by {
            assert(front[k] == fs[k]);
        }
        lemma_no_sizes_error(front);
        assert(fs.last() == fs[fs.len() - 1]);
    }
}

/// The picked rows hold the picked slots, one each.
proof fn lemma_picked_rows(a: ArrayV, positions: Seq<Option<usize>>)
    requires
        a.wf(),
        nulls_of(a.ty, 1).wf() || forall|i: int| 0 <= i < positions.len() ==> #[trigger] names(a, positions, i),
    ensures
        of_type(a.ty, picked_rows(a, positions)),
        flat(cell_lists(picked_rows(a, positions))) == picked(a, positions),
    decreases positions.len(),
{
    let rows = picked_rows(a, positions);
    assert forall|k: int| #![trigger rows[k]] 0 <= k < rows.len() implies rows[k].ty == a.ty && rows[k].wf() by {
        if names(a, positions, k) {
            law_slice_keeps_cells(a, positions[k]->0 as int, 1);
        } else {
            lemma_nulls_cells(a.ty, 1);
        }
    }
    if positions.len() == 0 {
        assert(flat(cell_lists(rows)) =~= picked(a, positions));
    } else {
        let front = positions.drop_last();
        let n = positions.len() - 1;
        assert forall|i: int| 0 <= i < front.len() implies #[trigger] names(a, front, i) == names(a, positions, i) by {}
        lemma_picked_rows(a, front);
        assert(cell_lists(rows).drop_last() =~= cell_lists(picked_rows(a, front)));
        let last = rows[n].cells();
        assert(cell_lists(rows).last() == last);
        if names(a, positions, n) {
            let p = positions[n]->0 as int;
            law_slice_keeps_cells(a, p, 1);
            assert(a.cells().subrange(p, p + 1)[0] == a.cell(p));
        } else {
            lemma_nulls_cells(a.ty, 1);
        }
        assert(last =~= seq![picked(a, positions)[n]]);
        assert(picked(a, positions) =~= picked(a, front) + last);
    }
}

/// Picks lists or structs, slot by slot.
fn gather_nested(array: &ArrayRef, positions: &[Option<usize>]) -> (r: Result<ArrayRef, DataError>)
    requires
        is_nested(array@.ty),
        pickable(array@, positions@),
    ensures
        gathered(r, array@, positions@),
{
    let ghost a = array@;
    let n: usize = array.len();
    proof {
        lemma_no_size_error(a);
    }
    if positions.len() == 0 {
        proof {
            lemma_empty_fits(a.ty);
            lemma_nulls_cells(a.ty, 0);
            assert(nulls_of(a.ty, 0).cells() =~= picked(a, positions@));
        }
        return new_null_array(array.data_type(), 0);
    }
    let ghost want = picked_rows(a, positions@);
    let mut rows: Vec<ArrayRef> = Vec::new();
    let mut i: usize = 0;
    let mut missing = false;
    while i < positions.len()
        invariant
            0 <= i <= positions@.len(),
            a == array@,
            a.wf(),
            is_nested(a.ty),
            pickable(a, positions@),
            size_error(a.ty) is None,
            want == picked_rows(a, positions@),
            n == a.len,
            rows@.len() == i,
            forall|k: int| #![trigger rows@[k]] 0 <= k < i ==> rows@[k]@ == want[k],
            missing ==> nulls_of(a.ty, 1).wf(),
            !missing ==> forall|k: int| 0 <= k < i ==> #[trigger] names(a, positions@, k),
        decreases positions@.len() - i,
    {
        let known: Option<usize> = match positions[i] {
            Some(p) => if p < n {
                Some(p)
            } else {
                None
            },
            None => None,
        };
        match known {
            Some(p) => {
                assert(names(a, positions@, i as int));
                rows.push(slice_array(array, p, 1));
            },
            None => {
                assert(!names(a, positions@, i as int));
                let one = match new_null_array(array.data_type(), 1) {
                    Ok(one) => one,
                    Err(e) => {
                        return Err(e);
                    },
                };
                let count: usize = one.len();
                rows.push(one);
                missing = true;
            },
        }
        i = i + 1;
    }
    proof {
        assert(arrays_model(rows@) =~= want);
        lemma_picked_rows(a, positions@);
        lemma_same_type(want, want.len());
        if concat_of(want) is Ok {
            if want.len() > 1 {
                law_concat_keeps_cells(a.ty, want);
            } else {
                let cells = cell_lists(want);
                assert(cells.drop_last() =~= Seq::<Seq<Cell>>::empty());
                assert(flat(cells) =~= cells[0]);
            }
        }
    }
    concat_list(&rows)
}

proof fn lemma_same_type(rows: Seq<ArrayV>, count: nat)
    requires
        count <= rows.len(),
        forall|k: int| #![trigger rows[k]] 0 <= k < rows.len() ==> rows[k].ty == rows[0].ty,
    ensures
        first_other(rows, count) is None,
    decreases count,
{
    if count > 0 {
        lemma_same_type(rows, (count - 1) as nat);
        assert(rows[count - 1].ty == rows[0].ty);
    }
}

} // verus!
