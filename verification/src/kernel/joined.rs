//! What arrays of one type are, put one behind the other.
use vstd::prelude::*;
use crate::array::model::{
    all_text, is_text, is_var, lemma_fixed_width, lemma_scaled, max_offset, offsets_ok, var_slot, ArrayV, BodyV,
    Cell,
};
use crate::array::parts::null_array;
use crate::datatype::{FieldModel, TypeModel};
use crate::error::DataErrorModel;
use crate::flat::{
    flat, lemma_flat_at, lemma_flat_from, lemma_flat_run, lemma_same_starts, lemma_scaled_starts, lemma_start_step,
    start_of,
};
use crate::ipc::column_laws::lemma_covered;
use crate::ipc::wire::covered;

verus! {

/// The slots of every part.
pub open spec fn cell_lists(parts: Seq<ArrayV>) -> Seq<Seq<Cell>> {
    Seq::new(parts.len(), |k: int| parts[k].cells())
}

/// How many slots the parts have together.
pub open spec fn total_len(parts: Seq<ArrayV>) -> nat {
    flat(cell_lists(parts)).len()
}

/// The validity of an array, one bit per slot.
pub open spec fn all_bits(a: ArrayV) -> Seq<bool> {
    match a.validity {
        Some(v) => v,
        None => Seq::new(a.len, |i: int| true),
    }
}

/// The validity of the parts together: none where no part has any.
pub open spec fn joined_validity(parts: Seq<ArrayV>) -> Option<Seq<bool>> {
    if forall|k: int| #![trigger parts[k]] 0 <= k < parts.len() ==> parts[k].validity is None {
        None
    } else {
        Some(flat(Seq::new(parts.len(), |k: int| all_bits(parts[k]))))
    }
}

/// The bits of every part.
pub open spec fn bit_lists(parts: Seq<ArrayV>) -> Seq<Seq<bool>> {
    Seq::new(parts.len(), |k: int| parts[k].body->Bits_0)
}

/// The fixed-width bytes of every part.
pub open spec fn byte_lists(parts: Seq<ArrayV>) -> Seq<Seq<u8>> {
    Seq::new(parts.len(), |k: int| parts[k].body->Fixed_0)
}

/// The bytes that a part's offsets cover.
pub open spec fn covered_bytes(a: ArrayV) -> Seq<u8> {
    let offsets = a.body->Var_offsets;
    a.body->Var_values.subrange(offsets[0] as int, offsets.last() as int)
}

/// The covered bytes of every part.
pub open spec fn value_lists(parts: Seq<ArrayV>) -> Seq<Seq<u8>> {
    Seq::new(parts.len(), |k: int| covered_bytes(parts[k]))
}

/// The offsets of a part.
pub open spec fn offsets_of(a: ArrayV) -> Seq<i64> {
    match a.body {
        BodyV::Var { offsets, values } => offsets,
        BodyV::List { offsets, child } => offsets,
        _ => Seq::empty(),
    }
}

/// How many things a part's offsets cover.
pub open spec fn span_of(a: ArrayV) -> int {
    offsets_of(a).last() - offsets_of(a)[0]
}

/// The things that the parts' offsets cover together.
pub open spec fn span_total(parts: Seq<ArrayV>) -> int
    decreases parts.len(),
{
    if parts.len() == 0 {
        0
    } else {
        span_total(parts.drop_last()) + span_of(parts.last())
    }
}

/// Where each slot ends, part after part, each counted on from the one before.
pub open spec fn ends(parts: Seq<ArrayV>) -> Seq<int>
    decreases parts.len(),
{
    if parts.len() == 0 {
        seq![0int]
    } else {
        let before = span_total(parts.drop_last());
        let own = offsets_of(parts.last());
        ends(parts.drop_last()) + Seq::new(
            (own.len() - 1) as nat,
            |i: int| before + (own[i + 1] - own[0]),
        )
    }
}

/// The first of the first `count` ends past what offsets can hold.
pub open spec fn first_over(at: Seq<int>, count: nat, max: int) -> Option<int>
    decreases count,
{
    if count == 0 {
        None
    } else {
        match first_over(at, (count - 1) as nat, max) {
            Some(n) => Some(n),
            None => if at[count - 1] > max {
                Some(at[count - 1])
            } else {
                None
            },
        }
    }
}

/// Ends as offsets.
pub open spec fn as_offsets(at: Seq<int>) -> Seq<i64> {
    Seq::new(at.len(), |i: int| at[i] as i64)
}

/// Why ends are no offsets of the type, or nothing where they are.
pub open spec fn ends_error(t: TypeModel, at: Seq<int>) -> Option<DataErrorModel> {
    match first_over(at, at.len(), max_offset(t)) {
        None => None,
        Some(n) => Some(
            DataErrorModel::OffsetWidthOverflow { total: n as usize, max: max_offset(t) as usize },
        ),
    }
}

/// What the offsets of list parts cover.
pub open spec fn list_windows(parts: Seq<ArrayV>) -> Seq<ArrayV> {
    Seq::new(parts.len(), |k: int| covered(parts[k].body->List_offsets, *parts[k].body->List_child))
}

/// The children of parts that are lists of one size.
pub open spec fn fixed_children(parts: Seq<ArrayV>) -> Seq<ArrayV> {
    Seq::new(parts.len(), |k: int| *parts[k].body->FixedList_0)
}

/// Column `c` of every part.
pub open spec fn column_parts(parts: Seq<ArrayV>, c: int) -> Seq<ArrayV> {
    Seq::new(parts.len(), |k: int| parts[k].body->Struct_0[c])
}

/// The array that parts of type `t` make, one behind the other. A single part is
/// itself.
pub open spec fn joined(t: TypeModel, parts: Seq<ArrayV>) -> Result<ArrayV, DataErrorModel>
    decreases t, 1int,
{
    if parts.len() == 1 {
        Ok(parts[0])
    } else {
        joined_many(t, parts)
    }
}

/// The array that parts make where there is not just one.
pub open spec fn joined_many(t: TypeModel, parts: Seq<ArrayV>) -> Result<ArrayV, DataErrorModel>
    decreases t, 0int,
{
    let len = total_len(parts);
    let validity = joined_validity(parts);
    match t {
        TypeModel::Null => Ok(null_array(len)),
        TypeModel::Bool => Ok(ArrayV { ty: t, len, validity, body: BodyV::Bits(flat(bit_lists(parts))) }),
        TypeModel::Binary | TypeModel::LargeBinary | TypeModel::Utf8 | TypeModel::LargeUtf8 => match ends_error(
            t,
            ends(parts),
        ) {
            Some(e) => Err(e),
            None => Ok(
                ArrayV {
                    ty: t,
                    len,
                    validity,
                    body: BodyV::Var { offsets: as_offsets(ends(parts)), values: flat(value_lists(parts)) },
                },
            ),
        },
        TypeModel::List(f) => match joined(f.data_type, list_windows(parts)) {
            Err(e) => Err(e),
            Ok(child) => match ends_error(t, ends(parts)) {
                Some(e) => Err(e),
                None => Ok(
                    ArrayV {
                        ty: t,
                        len,
                        validity,
                        body: BodyV::List { offsets: as_offsets(ends(parts)), child: Box::new(child) },
                    },
                ),
            },
        },
        TypeModel::FixedSizeList(f, n) => match joined(f.data_type, fixed_children(parts)) {
            Err(e) => Err(e),
            Ok(child) => Ok(ArrayV { ty: t, len, validity, body: BodyV::FixedList(Box::new(child)) }),
        },
        TypeModel::Struct(fs) => match joined_columns(fs, parts) {
            Err(e) => Err(e),
            Ok(columns) => Ok(ArrayV { ty: t, len, validity, body: BodyV::Struct(columns) }),
        },
        _ => Ok(ArrayV { ty: t, len, validity, body: BodyV::Fixed(flat(byte_lists(parts))) }),
    }
}

/// The columns that struct parts make.
pub open spec fn joined_columns(fs: Seq<FieldModel>, parts: Seq<ArrayV>) -> Result<Seq<ArrayV>, DataErrorModel>
    decreases fs, 2int,
{
    if fs.len() == 0 {
        Ok(Seq::empty())
    } else {
        match joined_columns(fs.drop_last(), parts) {
            Err(e) => Err(e),
            Ok(before) => match joined(fs.last().data_type, column_parts(parts, fs.len() - 1)) {
                Err(e) => Err(e),
                Ok(column) => Ok(before.push(column)),
            },
        }
    }
}

/// The slots of the parts, and what they hold at every level, can be counted.
pub open spec fn countable(t: TypeModel, parts: Seq<ArrayV>) -> bool
    decreases t,
{
    &&& total_len(parts) <= usize::MAX
    &&& match t {
        TypeModel::List(f) => countable(f.data_type, list_windows(parts)),
        TypeModel::FixedSizeList(f, _) => countable(f.data_type, fixed_children(parts)),
        TypeModel::Struct(fs) => forall|c: int|
            #![trigger fs[c]]
            0 <= c < fs.len() ==> countable(fs[c].data_type, column_parts(parts, c)),
        TypeModel::Null | TypeModel::Bool => true,
        TypeModel::Binary | TypeModel::LargeBinary | TypeModel::Utf8 | TypeModel::LargeUtf8 => flat(
            value_lists(parts),
        ).len() <= usize::MAX,
        _ => flat(byte_lists(parts)).len() <= usize::MAX,
    }
}

/// Parts of one type.
pub open spec fn of_type(t: TypeModel, parts: Seq<ArrayV>) -> bool {
    forall|k: int| #![trigger parts[k]] 0 <= k < parts.len() ==> parts[k].ty == t && parts[k].wf()
}

/// Where part `k` starts.
pub open spec fn part_start(parts: Seq<ArrayV>, k: int) -> int {
    start_of(cell_lists(parts), k)
}

/// The validity of the parts together has a bit per slot, each its part's.
proof fn lemma_joined_validity(parts: Seq<ArrayV>)
    requires
        forall|k: int| #![trigger parts[k]] 0 <= k < parts.len() ==> parts[k].wf(),
    ensures
        joined_validity(parts) matches Some(v) ==> v.len() == total_len(parts),
        forall|k: int, j: int|
            #![trigger parts[k].valid_at(j)]
            0 <= k < parts.len() && 0 <= j < parts[k].len && !(parts[k].ty is Null) ==> parts[k].valid_at(j)
                == (match joined_validity(parts) {
                None => true,
                Some(v) => v[part_start(parts, k) + j],
            }),
{
    let lists = Seq::new(parts.len(), |k: int| all_bits(parts[k]));
    let cells = cell_lists(parts);
    assert forall|i: int| #![trigger lists[i]] 0 <= i < lists.len() implies lists[i].len() == cells[i].len() by {
        assert(parts[i].wf());
    }
    lemma_same_starts(lists, cells, parts.len() as int);
    assert forall|k: int, j: int|
        #![trigger parts[k].valid_at(j)]
        0 <= k < parts.len() && 0 <= j < parts[k].len && !(parts[k].ty is Null) implies parts[k].valid_at(j)
        == (match joined_validity(parts) {
        None => true,
        Some(v) => v[part_start(parts, k) + j],
    }) by {
        assert(parts[k].wf());
        if joined_validity(parts) is Some {
            assert(lists[k].len() == cells[k].len());
            lemma_same_starts(lists, cells, k);
            lemma_flat_at(lists, k, j);
        } else {
            assert(parts[k].validity is None);
        }
    }
}

/// The ends of the parts: one more than slots, from zero up to what is covered,
/// each its part's, counted on.
pub proof fn lemma_ends(t: TypeModel, parts: Seq<ArrayV>)
    requires
        of_type(t, parts),
        is_var(t) || t is List,
    ensures
        ends(parts).len() == total_len(parts) + 1,
        ends(parts)[0] == 0,
        ends(parts).last() == span_total(parts),
        0 <= span_total(parts),
        forall|i: int, j: int|
            #![trigger ends(parts)[i], ends(parts)[j]]
            0 <= i <= j < ends(parts).len() ==> ends(parts)[i] <= ends(parts)[j],
        forall|k: int, j: int|
            #![trigger offsets_of(parts[k])[j]]
            0 <= k < parts.len() && 0 <= j <= parts[k].len ==> ends(parts)[part_start(parts, k) + j]
                == span_total(parts.take(k)) + (offsets_of(parts[k])[j] - offsets_of(parts[k])[0]),
    decreases parts.len(),
{
    if parts.len() > 0 {
        let front = parts.drop_last();
        let last = parts.last();
        let n = parts.len() - 1;
        assert(parts[n].wf());
        assert forall|k: int| #![trigger front[k]] 0 <= k < front.len() implies front[k].ty == t
            && front[k].wf() by {
            assert(parts[k].wf());
        }
        lemma_ends(t, front);
        let own = offsets_of(last);
        let before = span_total(front);
        let all = ends(parts);
        let head = ends(front);
        assert(own.len() == last.len + 1);
        assert(own[0] <= own[last.len as int]);
        assert(cell_lists(parts).drop_last() =~= cell_lists(front));
        assert(cell_lists(parts).take(n) =~= cell_lists(front));
        assert(parts.take(n) =~= front);
        assert forall|i: int| head.len() <= i < all.len() implies #[trigger] all[i] == before + (own[i
            - head.len() + 1] - own[0]) by {}
        assert forall|i: int, j: int| #![trigger all[i], all[j]] 0 <= i <= j < all.len() implies all[i]
            <= all[j] by {
            if j < head.len() {
                assert(head[i] <= head[j]);
            } else {
                assert(own[0] <= own[j - head.len() + 1]);
                if i < head.len() {
                    assert(head[i] <= head[head.len() - 1]);
                } else {
                    assert(own[i - head.len() + 1] <= own[j - head.len() + 1]);
                }
            }
        }
        assert forall|k: int, j: int|
            #![trigger offsets_of(parts[k])[j]]
            0 <= k < parts.len() && 0 <= j <= parts[k].len implies all[part_start(parts, k) + j]
            == span_total(parts.take(k)) + (offsets_of(parts[k])[j] - offsets_of(parts[k])[0]) by {
            if k == n {
                if j == 0 {
                    assert(all[head.len() - 1] == head.last());
                }
            } else {
                assert(front[k] == parts[k]);
                assert(offsets_of(front[k])[j] == offsets_of(parts[k])[j]);
                assert(cell_lists(front).take(k) =~= cell_lists(parts).take(k));
                assert(front.take(k) =~= parts.take(k));
                lemma_start_step(cell_lists(front), k);
                assert(cell_lists(front)[k].len() == parts[k].len);
                assert(part_start(front, k) + j < head.len());
            }
        }
        if last.len == 0 {
            assert(all =~= head);
        } else {
            assert(all.last() == before + (own[last.len as int] - own[0]));
        }
    }
}

/// What is covered before part `k` is what the lists before it hold.
pub proof fn lemma_span_starts<T>(t: TypeModel, parts: Seq<ArrayV>, lists: Seq<Seq<T>>, k: int)
    requires
        of_type(t, parts),
        is_var(t) || t is List,
        lists.len() == parts.len(),
        0 <= k <= parts.len(),
        forall|i: int| #![trigger lists[i]] 0 <= i < lists.len() ==> lists[i].len() == span_of(parts[i]),
    ensures
        start_of(lists, k) == span_total(parts.take(k)),
    decreases k,
{
    if k > 0 {
        lemma_span_starts(t, parts, lists, k - 1);
        assert(parts.take(k).drop_last() =~= parts.take(k - 1));
        assert(parts.take(k).last() == parts[k - 1]);
        lemma_start_step(lists, k - 1);
    } else {
        assert(lists.take(0) =~= Seq::<Seq<T>>::empty());
        assert(parts.take(0) =~= Seq::<ArrayV>::empty());
    }
}

/// Ends that are not too far are offsets.
pub proof fn lemma_ends_ok(t: TypeModel, at: Seq<int>, len: nat)
    requires
        at.len() == len + 1,
        at[0] == 0,
        forall|i: int, j: int| #![trigger at[i], at[j]] 0 <= i <= j < at.len() ==> at[i] <= at[j],
        ends_error(t, at) is None,
    ensures
        offsets_ok(as_offsets(at), len, at.last(), max_offset(t)),
        forall|i: int| 0 <= i < at.len() ==> #[trigger] as_offsets(at)[i] == at[i],
{
    lemma_first_over(at, at.len(), max_offset(t));
    let o = as_offsets(at);
    assert forall|i: int| 0 <= i < at.len() implies #[trigger] o[i] == at[i] by {
        assert(at[0] <= at[i]);
    }
    assert forall|i: int, j: int| #![trigger o[i], o[j]] 0 <= i <= j < o.len() implies o[i] <= o[j] by {
        assert(at[i] <= at[j]);
    }
}

pub proof fn lemma_first_over(at: Seq<int>, count: nat, max: int)
    requires
        count <= at.len(),
    ensures
        first_over(at, count, max) is None <==> (forall|i: int| #![trigger at[i]] 0 <= i < count ==> at[i] <= max),
    decreases count,
{
    if count > 0 {
        lemma_first_over(at, (count - 1) as nat, max);
        if forall|i: int| #![trigger at[i]] 0 <= i < count ==> at[i] <= max {
            assert(at[count - 1] <= max);
        }
    }
}

/// An end that is too far is the first one, whatever comes after.
pub proof fn lemma_first_over_stays(at: Seq<int>, count: nat, all: nat, max: int)
    requires
        count <= all,
        first_over(at, count, max) is Some,
    ensures
        first_over(at, all, max) == first_over(at, count, max),
    decreases all,
{
    if count < all {
        lemma_first_over_stays(at, count, (all - 1) as nat, max);
    }
}

/// Whether slot `j` of part `k` is slot `j` behind the parts before it.
pub open spec fn keeps(r: ArrayV, parts: Seq<ArrayV>) -> bool {
    forall|k: int, j: int|
        #![trigger parts[k].cell(j)]
        0 <= k < parts.len() && 0 <= j < parts[k].len ==> r.cell(part_start(parts, k) + j) == parts[k].cell(j)
}

/// A joined array is well formed, of the parts' type, and holds their cells.
#[verifier::rlimit(40)]
pub proof fn lemma_joined(t: TypeModel, parts: Seq<ArrayV>)
    requires
        parts.len() >= 1,
        of_type(t, parts),
        countable(t, parts),
    ensures
        joined(t, parts) matches Ok(r) ==> r.wf() && r.ty == t && r.len == total_len(parts) && keeps(r, parts),
    decreases t, 1int,
{
    if parts.len() == 1 {
        let r = parts[0];
        assert(r.wf());
        let cells = cell_lists(parts);
        assert(cells.drop_last() =~= Seq::<Seq<Cell>>::empty());
        assert(cells.take(0) =~= Seq::<Seq<Cell>>::empty());
        assert(flat(cells.drop_last()) =~= Seq::<Cell>::empty());
        assert(flat(cells) =~= cells[0]);
    } else {
        lemma_joined_many(t, parts);
    }
}

#[verifier::rlimit(80)]
proof fn lemma_joined_many(t: TypeModel, parts: Seq<ArrayV>)
    requires
        parts.len() >= 2,
        of_type(t, parts),
        countable(t, parts),
    ensures
        joined_many(t, parts) matches Ok(r) ==> r.wf() && r.ty == t && r.len == total_len(parts) && keeps(
            r,
            parts,
        ),
    decreases t, 0int,
{
    lemma_joined_validity(parts);
    if let Ok(r) = joined_many(t, parts) {
        match t {
            TypeModel::Null => {
                assert forall|k: int, j: int|
                    #![trigger parts[k].cell(j)]
                    0 <= k < parts.len() && 0 <= j < parts[k].len implies r.cell(part_start(parts, k) + j)
                    == parts[k].cell(j) by {
                    assert(parts[k].ty == t);
                }
            },
            TypeModel::Bool => {
                lemma_joined_bits(parts, r);
            },
            TypeModel::Binary | TypeModel::LargeBinary | TypeModel::Utf8 | TypeModel::LargeUtf8 => {
                lemma_joined_strings(t, parts, r);
            },
            TypeModel::List(f) => {
                let windows = list_windows(parts);
                assert forall|k: int| #![trigger windows[k]] 0 <= k < windows.len() implies windows[k].ty
                    == f.data_type && windows[k].wf() by {
                    assert(parts[k].ty == t);
                    lemma_covered(parts[k]);
                }
                lemma_joined(f.data_type, windows);
                lemma_joined_lists(t, parts, r, joined(f.data_type, windows)->Ok_0);
            },
            TypeModel::FixedSizeList(f, n) => {
                let children = fixed_children(parts);
                assert forall|k: int| #![trigger children[k]] 0 <= k < children.len() implies children[k].ty
                    == f.data_type && children[k].wf() by {
                    assert(parts[k].ty == t);
                }
                lemma_joined(f.data_type, children);
                lemma_joined_runs(t, parts, r, joined(f.data_type, children)->Ok_0);
            },
            TypeModel::Struct(fs) => {
                assert(fs =~= fs.take(fs.len() as int));
                lemma_joined_columns(t, fs, parts, fs);
                lemma_joined_structs(t, parts, r);
            },
            _ => {
                lemma_joined_fixed(t, parts, r);
            },
        }
    }
}

/// Validity of a slot of the joined array.
proof fn lemma_valid(parts: Seq<ArrayV>, r: ArrayV, k: int, j: int)
    requires
        forall|k: int| #![trigger parts[k]] 0 <= k < parts.len() ==> parts[k].wf(),
        r.validity == joined_validity(parts),
        0 <= k < parts.len(),
        0 <= j < parts[k].len,
        !(r.ty is Null),
        parts[k].ty == r.ty,
    ensures
        r.valid_at(part_start(parts, k) + j) == parts[k].valid_at(j),
{
    lemma_joined_validity(parts);
    assert(parts[k].valid_at(j) == (match joined_validity(parts) {
        None => true,
        Some(v) => v[part_start(parts, k) + j],
    }));
}

proof fn lemma_joined_bits(parts: Seq<ArrayV>, r: ArrayV)
    requires
        of_type(TypeModel::Bool, parts),
        total_len(parts) <= usize::MAX,
        r == (ArrayV {
            ty: TypeModel::Bool,
            len: total_len(parts),
            validity: joined_validity(parts),
            body: BodyV::Bits(flat(bit_lists(parts))),
        }),
    ensures
        r.wf(),
        keeps(r, parts),
{
    let lists = bit_lists(parts);
    let cells = cell_lists(parts);
    assert forall|i: int| #![trigger lists[i]] 0 <= i < lists.len() implies lists[i].len() == cells[i].len() by {
        assert(parts[i].wf());
    }
    lemma_same_starts(lists, cells, 0);
    lemma_joined_validity(parts);
    assert forall|k: int, j: int|
        #![trigger parts[k].cell(j)]
        0 <= k < parts.len() && 0 <= j < parts[k].len implies r.cell(part_start(parts, k) + j)
        == parts[k].cell(j) by {
        assert(parts[k].ty == TypeModel::Bool);
        lemma_valid(parts, r, k, j);
        lemma_same_starts(lists, cells, k);
        assert(lists[k].len() == cells[k].len());
        lemma_flat_at(lists, k, j);
    }
}

proof fn lemma_joined_fixed(t: TypeModel, parts: Seq<ArrayV>, r: ArrayV)
    requires
        of_type(t, parts),
        parts.len() >= 1,
        parts[0].body is Fixed,
        total_len(parts) <= usize::MAX,
        flat(byte_lists(parts)).len() <= usize::MAX,
        r == (ArrayV {
            ty: t,
            len: total_len(parts),
            validity: joined_validity(parts),
            body: BodyV::Fixed(flat(byte_lists(parts))),
        }),
    ensures
        r.wf(),
        keeps(r, parts),
{
    let lists = byte_lists(parts);
    let cells = cell_lists(parts);
    assert(parts[0].wf());
    lemma_fixed_width(parts[0]);
    let w = parts[0].width() as int;
    assert forall|i: int| #![trigger lists[i]] 0 <= i < lists.len() implies lists[i].len() == cells[i].len() * w by {
        assert(parts[i].ty == t);
        lemma_fixed_width(parts[i]);
    }
    lemma_scaled_starts(lists, cells, w, 0);
    lemma_joined_validity(parts);
    assert(r.width() == w);
    assert(r.wf());
    assert forall|k: int, j: int|
        #![trigger parts[k].cell(j)]
        0 <= k < parts.len() && 0 <= j < parts[k].len implies r.cell(part_start(parts, k) + j)
        == parts[k].cell(j) by {
        assert(parts[k].ty == t);
        lemma_valid(parts, r, k, j);
        lemma_scaled_starts(lists, cells, w, k);
        assert(lists[k].len() == cells[k].len() * w);
        lemma_scaled(j, parts[k].len as int, w);
        lemma_flat_run(lists, k, j * w, j * w + w);
        let s = part_start(parts, k);
        assert((s + j) * w == s * w + j * w) by (nonlinear_arith);
    }
}

proof fn lemma_joined_strings(t: TypeModel, parts: Seq<ArrayV>, r: ArrayV)
    requires
        is_var(t),
        of_type(t, parts),
        total_len(parts) <= usize::MAX,
        flat(value_lists(parts)).len() <= usize::MAX,
        ends_error(t, ends(parts)) is None,
        r == (ArrayV {
            ty: t,
            len: total_len(parts),
            validity: joined_validity(parts),
            body: BodyV::Var { offsets: as_offsets(ends(parts)), values: flat(value_lists(parts)) },
        }),
    ensures
        r.wf(),
        keeps(r, parts),
{
    let lists = value_lists(parts);
    let at = ends(parts);
    let o = as_offsets(at);
    assert forall|i: int| #![trigger lists[i]] 0 <= i < lists.len() implies lists[i].len() == span_of(parts[i]) by {
        assert(parts[i].ty == t);
        let own = offsets_of(parts[i]);
        assert(own[0] <= own[parts[i].len as int]);
    }
    lemma_ends(t, parts);
    lemma_ends_ok(t, at, r.len);
    lemma_span_starts(t, parts, lists, parts.len() as int);
    assert(lists.take(parts.len() as int) =~= lists);
    assert(parts.take(parts.len() as int) =~= parts);
    lemma_joined_validity(parts);
    assert forall|k: int, j: int|
        #![trigger parts[k].cell(j)]
        0 <= k < parts.len() && 0 <= j < parts[k].len implies r.cell(part_start(parts, k) + j)
        == parts[k].cell(j) by {
        lemma_joined_slot(t, parts, k, j);
        lemma_valid(parts, r, k, j);
    }
    if is_text(t) {
        assert forall|i: int| 0 <= i < r.len implies vstd::utf8::valid_utf8(#[trigger] var_slot(o, flat(lists), i)) by {
            let (k, j) = lemma_flat_from(cell_lists(parts), i);
            assert(parts[k].ty == t);
            lemma_joined_slot(t, parts, k, j);
        }
        assert(all_text(o, flat(lists), r.len));
    }
}

/// The offsets of slot `j` of part `k` in the joined array.
proof fn lemma_end_pair(t: TypeModel, parts: Seq<ArrayV>, k: int, j: int)
    requires
        is_var(t) || t is List,
        of_type(t, parts),
        ends_error(t, ends(parts)) is None,
        0 <= k < parts.len(),
        0 <= j < parts[k].len,
    ensures
        ({
            let o = as_offsets(ends(parts));
            let own = offsets_of(parts[k]);
            let s = part_start(parts, k);
            &&& 0 <= s
            &&& s + j < total_len(parts)
            &&& o[s + j] == span_total(parts.take(k)) + (own[j] - own[0])
            &&& o[s + j + 1] == span_total(parts.take(k)) + (own[j + 1] - own[0])
            &&& 0 <= own[0] <= own[j] <= own[j + 1] <= own.last()
            &&& own.len() == parts[k].len + 1
        }),
{
    let at = ends(parts);
    lemma_ends(t, parts);
    lemma_ends_ok(t, at, total_len(parts));
    assert(cell_lists(parts)[k].len() == parts[k].len);
    lemma_flat_at(cell_lists(parts), k, j);
    let s = part_start(parts, k);
    assert(parts[k].ty == t);
    let own = offsets_of(parts[k]);
    assert(own[0] <= own[j]);
    assert(own[j] <= own[j + 1]);
    assert(own[j + 1] <= own[parts[k].len as int]);
    assert(at[s + j] == span_total(parts.take(k)) + (own[j] - own[0]));
    assert(at[s + (j + 1)] == span_total(parts.take(k)) + (own[j + 1] - own[0]));
    assert(as_offsets(at)[s + j] == at[s + j]);
    assert(as_offsets(at)[s + j + 1] == at[s + j + 1]);
}

/// A byte string keeps its bytes behind the parts before it.
proof fn lemma_joined_slot(t: TypeModel, parts: Seq<ArrayV>, k: int, j: int)
    requires
        is_var(t),
        of_type(t, parts),
        ends_error(t, ends(parts)) is None,
        0 <= k < parts.len(),
        0 <= j < parts[k].len,
    ensures
        var_slot(as_offsets(ends(parts)), flat(value_lists(parts)), part_start(parts, k) + j) == var_slot(
            parts[k].body->Var_offsets,
            parts[k].body->Var_values,
            j,
        ),
        0 <= part_start(parts, k),
        part_start(parts, k) + j < total_len(parts),
{
    let lists = value_lists(parts);
    assert forall|i: int| #![trigger lists[i]] 0 <= i < lists.len() implies lists[i].len() == span_of(parts[i]) by {
        assert(parts[i].ty == t);
        let own = offsets_of(parts[i]);
        assert(own[0] <= own[parts[i].len as int]);
    }
    lemma_end_pair(t, parts, k, j);
    lemma_span_starts(t, parts, lists, k);
    assert(parts[k].ty == t);
    let own = offsets_of(parts[k]);
    let values = parts[k].body->Var_values;
    assert(lists[k].len() == span_of(parts[k]));
    lemma_flat_run(lists, k, own[j] - own[0], own[j + 1] - own[0]);
    assert(lists[k].subrange(own[j] - own[0], own[j + 1] - own[0]) =~= values.subrange(
        own[j] as int,
        own[j + 1] as int,
    ));
}

proof fn lemma_joined_lists(t: TypeModel, parts: Seq<ArrayV>, r: ArrayV, child: ArrayV)
    requires
        t is List,
        of_type(t, parts),
        total_len(parts) <= usize::MAX,
        ends_error(t, ends(parts)) is None,
        child.wf(),
        child.ty == t->List_0.data_type,
        child.len == total_len(list_windows(parts)),
        keeps(child, list_windows(parts)),
        r == (ArrayV {
            ty: t,
            len: total_len(parts),
            validity: joined_validity(parts),
            body: BodyV::List { offsets: as_offsets(ends(parts)), child: Box::new(child) },
        }),
    ensures
        r.wf(),
        keeps(r, parts),
{
    let windows = list_windows(parts);
    lemma_joined_list_wf(t, parts, r, child);
    assert forall|k: int, j: int|
        #![trigger parts[k].cell(j)]
        0 <= k < parts.len() && 0 <= j < parts[k].len implies r.cell(part_start(parts, k) + j)
        == parts[k].cell(j) by {
        lemma_joined_list_cell(t, parts, r, child, k, j);
    }
}

/// The windows of list parts hold what the parts cover.
pub proof fn lemma_window_lens(t: TypeModel, parts: Seq<ArrayV>, k: int)
    requires
        t is List,
        of_type(t, parts),
        0 <= k <= parts.len(),
    ensures
        part_start(list_windows(parts), k) == span_total(parts.take(k)),
        k == parts.len() ==> total_len(list_windows(parts)) == span_total(parts),
{
    let windows = list_windows(parts);
    let lists = cell_lists(windows);
    assert forall|i: int| #![trigger lists[i]] 0 <= i < lists.len() implies lists[i].len() == span_of(parts[i]) by {
        assert(parts[i].ty == t);
        lemma_covered(parts[i]);
        assert(windows[i].len == span_of(parts[i]));
    }
    lemma_span_starts(t, parts, lists, k);
    if k == parts.len() {
        assert(lists.take(k) =~= lists);
        assert(parts.take(k) =~= parts);
    }
}

proof fn lemma_joined_list_wf(t: TypeModel, parts: Seq<ArrayV>, r: ArrayV, child: ArrayV)
    requires
        t is List,
        of_type(t, parts),
        total_len(parts) <= usize::MAX,
        ends_error(t, ends(parts)) is None,
        child.wf(),
        child.ty == t->List_0.data_type,
        child.len == total_len(list_windows(parts)),
        r == (ArrayV {
            ty: t,
            len: total_len(parts),
            validity: joined_validity(parts),
            body: BodyV::List { offsets: as_offsets(ends(parts)), child: Box::new(child) },
        }),
    ensures
        r.wf(),
{
    lemma_window_lens(t, parts, parts.len() as int);
    lemma_ends(t, parts);
    lemma_ends_ok(t, ends(parts), r.len);
    lemma_joined_validity(parts);
}

proof fn lemma_joined_list_cell(t: TypeModel, parts: Seq<ArrayV>, r: ArrayV, child: ArrayV, k: int, j: int)
    requires
        t is List,
        of_type(t, parts),
        ends_error(t, ends(parts)) is None,
        keeps(child, list_windows(parts)),
        r == (ArrayV {
            ty: t,
            len: total_len(parts),
            validity: joined_validity(parts),
            body: BodyV::List { offsets: as_offsets(ends(parts)), child: Box::new(child) },
        }),
        0 <= k < parts.len(),
        0 <= j < parts[k].len,
    ensures
        r.cell(part_start(parts, k) + j) == parts[k].cell(j),
{
    let windows = list_windows(parts);
    assert(parts[k].ty == t);
    lemma_valid(parts, r, k, j);
    lemma_covered(parts[k]);
    lemma_window_lens(t, parts, k);
    lemma_end_pair(t, parts, k, j);
    let s = part_start(parts, k);
    let own = offsets_of(parts[k]);
    let inner = *parts[k].body->List_child;
    if parts[k].valid_at(j) {
        let got = r.cell(s + j)->Nested_0;
        let want = parts[k].cell(j)->Nested_0;
        assert forall|i: int| 0 <= i < want.len() implies got[i] == want[i] by {
            let m = own[j] - own[0] + i;
            assert(windows[k].cell(m) == inner.cell(own[0] + m));
            assert(child.cell(part_start(windows, k) + m) == windows[k].cell(m));
        }
        assert(got =~= want);
    }
}

proof fn lemma_joined_runs(t: TypeModel, parts: Seq<ArrayV>, r: ArrayV, child: ArrayV)
    requires
        t is FixedSizeList,
        parts.len() >= 1,
        of_type(t, parts),
        total_len(parts) <= usize::MAX,
        child.wf(),
        child.ty == t->FixedSizeList_0.data_type,
        child.len == total_len(fixed_children(parts)),
        keeps(child, fixed_children(parts)),
        r == (ArrayV {
            ty: t,
            len: total_len(parts),
            validity: joined_validity(parts),
            body: BodyV::FixedList(Box::new(child)),
        }),
    ensures
        r.wf(),
        keeps(r, parts),
{
    let children = fixed_children(parts);
    let lists = cell_lists(children);
    let cells = cell_lists(parts);
    let n = t->FixedSizeList_1 as int;
    assert(parts[0].ty == t);
    assert forall|i: int| #![trigger lists[i]] 0 <= i < lists.len() implies lists[i].len() == cells[i].len() * n by {
        assert(parts[i].ty == t);
        assert(children[i].len == parts[i].len * n);
    }
    lemma_scaled_starts(lists, cells, n, 0);
    lemma_joined_validity(parts);
    assert(r.wf());
    assert(r.list_size() == n);
    assert forall|k: int, j: int|
        #![trigger parts[k].cell(j)]
        0 <= k < parts.len() && 0 <= j < parts[k].len implies r.cell(part_start(parts, k) + j)
        == parts[k].cell(j) by {
        assert(parts[k].ty == t);
        lemma_valid(parts, r, k, j);
        lemma_scaled_starts(lists, cells, n, k);
        lemma_scaled(j, parts[k].len as int, n);
        let s = part_start(parts, k);
        assert((s + j) * n == s * n + j * n) by (nonlinear_arith);
        if parts[k].valid_at(j) {
            let got = r.cell(s + j)->Nested_0;
            let want = parts[k].cell(j)->Nested_0;
            assert forall|i: int| 0 <= i < n implies got[i] == want[i] by {
                assert(children[k].len == parts[k].len * n);
                assert(child.cell(part_start(children, k) + (j * n + i)) == children[k].cell(j * n + i));
            }
            assert(got =~= want);
        }
    }
}

/// What joined columns are.
pub open spec fn columns_join(fs: Seq<FieldModel>, parts: Seq<ArrayV>, columns: Seq<ArrayV>) -> bool {
    &&& columns.len() == fs.len()
    &&& forall|c: int|
        #![trigger columns[c]]
        0 <= c < fs.len() ==> {
            &&& columns[c].wf()
            &&& columns[c].ty == fs[c].data_type
            &&& columns[c].len == total_len(parts)
            &&& keeps(columns[c], column_parts(parts, c))
        }
}

/// The columns of struct parts start where the parts do.
pub proof fn lemma_column_starts(t: TypeModel, parts: Seq<ArrayV>, c: int, k: int)
    requires
        t is Struct,
        of_type(t, parts),
        0 <= c < t->Struct_0.len(),
        0 <= k <= parts.len(),
    ensures
        part_start(column_parts(parts, c), k) == part_start(parts, k),
        total_len(column_parts(parts, c)) == total_len(parts),
{
    let a = cell_lists(column_parts(parts, c));
    let b = cell_lists(parts);
    assert forall|i: int| #![trigger a[i]] 0 <= i < a.len() implies a[i].len() == b[i].len() by {
        assert(parts[i].ty == t);
        assert(parts[i].body->Struct_0[c].len == parts[i].len);
    }
    lemma_same_starts(a, b, k);
}

proof fn lemma_joined_columns(t: TypeModel, fs: Seq<FieldModel>, parts: Seq<ArrayV>, all: Seq<FieldModel>)
    requires
        t == TypeModel::Struct(all),
        fs.len() <= all.len(),
        fs == all.take(fs.len() as int),
        parts.len() >= 2,
        of_type(t, parts),
        countable(t, parts),
    ensures
        joined_columns(fs, parts) matches Ok(columns) ==> columns_join(fs, parts, columns),
    decreases fs, 2int,
{
    if fs.len() > 0 {
        let c = fs.len() - 1;
        let front = fs.drop_last();
        assert(front =~= all.take(front.len() as int));
        lemma_joined_columns(t, front, parts, all);
        let own = column_parts(parts, c);
        assert(fs.last() == all[c]);
        assert forall|k: int| #![trigger own[k]] 0 <= k < own.len() implies own[k].ty == fs.last().data_type
            && own[k].wf() by {
            assert(parts[k].ty == t);
            assert(parts[k].body->Struct_0[c].wf());
        }
        assert(countable(all[c].data_type, own));
        lemma_joined(fs.last().data_type, own);
        lemma_column_starts(t, parts, c, 0);
    }
}

proof fn lemma_joined_structs(t: TypeModel, parts: Seq<ArrayV>, r: ArrayV)
    requires
        t is Struct,
        of_type(t, parts),
        total_len(parts) <= usize::MAX,
        r.body is Struct,
        columns_join(t->Struct_0, parts, r.body->Struct_0),
        r == (ArrayV {
            ty: t,
            len: total_len(parts),
            validity: joined_validity(parts),
            body: r.body,
        }),
    ensures
        r.wf(),
        keeps(r, parts),
{
    let fs = t->Struct_0;
    let columns = r.body->Struct_0;
    lemma_joined_validity(parts);
    assert(r.wf());
    assert forall|k: int, j: int|
        #![trigger parts[k].cell(j)]
        0 <= k < parts.len() && 0 <= j < parts[k].len implies r.cell(part_start(parts, k) + j)
        == parts[k].cell(j) by {
        assert(parts[k].ty == t);
        lemma_valid(parts, r, k, j);
        if parts[k].valid_at(j) {
            let s = part_start(parts, k);
            let got = r.cell(s + j)->Nested_0;
            let want = parts[k].cell(j)->Nested_0;
            assert forall|c: int| 0 <= c < fs.len() implies got[c] == want[c] by {
                let own = column_parts(parts, c);
                lemma_column_starts(t, parts, c, k);
                assert(parts[k].body->Struct_0[c].len == parts[k].len);
                assert(keeps(columns[c], own));
                assert(columns[c].cell(part_start(own, k) + j) == own[k].cell(j));
            }
            assert(got =~= want);
        }
    }
}

/// Arrays put one behind the other hold what they held, one behind the other,
/// and the result has their type.
pub proof fn law_concat_keeps_cells(t: TypeModel, parts: Seq<ArrayV>)
    requires
        parts.len() >= 1,
        of_type(t, parts),
        countable(t, parts),
        joined(t, parts) is Ok,
    ensures
        joined(t, parts)->Ok_0.wf(),
        joined(t, parts)->Ok_0.ty == t,
        joined(t, parts)->Ok_0.cells() == flat(cell_lists(parts)),
{
    lemma_joined(t, parts);
    let r = joined(t, parts)->Ok_0;
    let want = flat(cell_lists(parts));
    assert forall|i: int| 0 <= i < want.len() implies r.cells()[i] == want[i] by {
        let (k, j) = lemma_flat_from(cell_lists(parts), i);
        lemma_flat_at(cell_lists(parts), k, j);
        assert(parts[k].cell(j) == cell_lists(parts)[k][j]);
    }
    assert(r.cells() =~= want);
}

} // verus!
