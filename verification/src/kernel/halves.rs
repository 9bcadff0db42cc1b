//! An array cut in two and put together again.
use vstd::prelude::*;
use crate::array::model::{
    is_var, law_slice_keeps_cells, lemma_fixed_width, lemma_sliced_wf, max_offset, offsets_ok, ArrayV, BodyV,
};
use crate::datatype::{FieldModel, TypeModel};
use crate::flat::flat;
use crate::kernel::concat::{concat_of, first_other};
use crate::kernel::joined::{
    byte_lists, cell_lists, column_parts, countable, ends, ends_error, fixed_children, joined, joined_columns,
    law_concat_keeps_cells, lemma_ends, lemma_first_over, list_windows, of_type, offsets_of, span_of, span_total,
    total_len, value_lists,
};

verus! {

/// Two neighbouring windows of an array: from slot `i` up to slot `j`, and from
/// there up to slot `l`.
pub open spec fn halves(a: ArrayV, i: int, j: int, l: int) -> Seq<ArrayV> {
    seq![a.sliced(i, j - i), a.sliced(j, l - j)]
}

/// Two sequences flattened.
proof fn lemma_pair<T>(ss: Seq<Seq<T>>)
    requires
        ss.len() == 2,
    ensures
        flat(ss) == ss[0] + ss[1],
{
    let front = ss.drop_last();
    assert(front.drop_last() =~= Seq::<Seq<T>>::empty());
    assert(flat(front.drop_last()) =~= Seq::<T>::empty());
    assert(flat(front) =~= ss[0]);
}

/// Windows of an array are arrays of its type.
proof fn lemma_halves_of_type(t: TypeModel, a: ArrayV, i: int, j: int, l: int)
    requires
        a.wf(),
        a.ty == t,
        0 <= i <= j <= l <= a.len,
    ensures
        of_type(t, halves(a, i, j, l)),
        total_len(halves(a, i, j, l)) == l - i,
{
    lemma_sliced_wf(a, i, j - i);
    lemma_sliced_wf(a, j, l - j);
    lemma_pair(cell_lists(halves(a, i, j, l)));
}

/// What the offsets of two neighbouring windows cover together fits.
proof fn lemma_halves_ends(t: TypeModel, a: ArrayV, offsets: Seq<i64>, limit: int, i: int, j: int, l: int)
    requires
        a.wf(),
        a.ty == t,
        is_var(t) || t is List,
        offsets == offsets_of(a),
        offsets_ok(offsets, a.len, limit, max_offset(t)),
        0 <= i <= j <= l <= a.len,
    ensures
        ends_error(t, ends(halves(a, i, j, l))) is None,
        span_total(halves(a, i, j, l)) == offsets[l] - offsets[i],
{
    let parts = halves(a, i, j, l);
    lemma_halves_of_type(t, a, i, j, l);
    lemma_ends(t, parts);
    let front = parts.drop_last();
    assert(front.drop_last() =~= Seq::<ArrayV>::empty());
    assert(span_total(front.drop_last()) == 0);
    assert(front.last() == parts[0]);
    assert(span_of(parts[0]) == offsets[j] - offsets[i]);
    assert(span_of(parts[1]) == offsets[l] - offsets[j]);
    assert(span_total(front) == span_of(parts[0]));
    assert(0 <= offsets[i] <= offsets[l] <= offsets[a.len as int]);
    let at = ends(parts);
    assert forall|k: int| 0 <= k < at.len() implies at[k] <= max_offset(t) by {
        assert(at[k] <= at[at.len() - 1]);
    }
    lemma_first_over(at, at.len(), max_offset(t));
}

/// Two neighbouring windows of an array can be put together.
#[verifier::rlimit(40)]
proof fn lemma_halves_join(t: TypeModel, a: ArrayV, i: int, j: int, l: int)
    requires
        a.wf(),
        a.ty == t,
        0 <= i <= j <= l <= a.len,
    ensures
        countable(t, halves(a, i, j, l)),
        joined(t, halves(a, i, j, l)) is Ok,
    decreases t, 0int,
{
    let parts = halves(a, i, j, l);
    lemma_halves_of_type(t, a, i, j, l);
    match a.body {
        BodyV::Null => {},
        BodyV::Bits(_) => {},
        BodyV::Fixed(bytes) => {
            lemma_fixed_width(a);
            lemma_pair(byte_lists(parts));
            let w = a.width() as int;
            assert(0 <= i * w <= j * w <= l * w <= a.len * w) by (nonlinear_arith)
                requires
                    0 <= i <= j <= l <= a.len,
                    w >= 0,
            ;
            assert(i + (j - i) == j && j + (l - j) == l);
            assert(byte_lists(parts)[0] == bytes.subrange(i * w, j * w));
            assert(byte_lists(parts)[1] == bytes.subrange(j * w, l * w));
        },
        BodyV::Var { offsets, values } => {
            lemma_halves_ends(t, a, offsets, values.len() as int, i, j, l);
            lemma_pair(value_lists(parts));
            assert(0 <= offsets[i] <= offsets[j] <= offsets[l] <= offsets[a.len as int]);
        },
        BodyV::List { offsets, child } => {
            lemma_halves_ends(t, a, offsets, child.len as int, i, j, l);
            assert(0 <= offsets[i] <= offsets[j] <= offsets[l] <= offsets[a.len as int]);
            assert(list_windows(parts) =~= halves(*child, offsets[i] as int, offsets[j] as int, offsets[l] as int));
            lemma_halves_join(
                t->List_0.data_type,
                *child,
                offsets[i] as int,
                offsets[j] as int,
                offsets[l] as int,
            );
        },
        BodyV::FixedList(child) => {
            let n = a.list_size() as int;
            assert(0 <= i * n <= j * n <= l * n <= a.len * n && (j - i) * n == j * n - i * n && (l - j) * n == l * n
                - j * n) by (nonlinear_arith)
                requires
                    0 <= i <= j <= l <= a.len,
                    n >= 0,
            ;
            assert(fixed_children(parts) =~= halves(*child, i * n, j * n, l * n));
            lemma_halves_join(t->FixedSizeList_0.data_type, *child, i * n, j * n, l * n);
        },
        BodyV::Struct(columns) => {
            let fs = t->Struct_0;
            assert forall|c: int| #![trigger fs[c]] 0 <= c < fs.len() implies countable(
                fs[c].data_type,
                column_parts(parts, c),
            ) && joined(fs[c].data_type, column_parts(parts, c)) is Ok by {
                assert(columns[c].len == a.len);
                assert(column_parts(parts, c) =~= halves(columns[c], i, j, l));
                lemma_halves_join(fs[c].data_type, columns[c], i, j, l);
            }
            lemma_halves_columns(t, fs, a, i, j, l, fs.len());
            assert(fs.take(fs.len() as int) =~= fs);
        },
    }
}

/// The first `count` columns of two neighbouring windows can be put together.
proof fn lemma_halves_columns(t: TypeModel, fs: Seq<FieldModel>, a: ArrayV, i: int, j: int, l: int, count: nat)
    requires
        a.wf(),
        a.ty == t,
        t == TypeModel::Struct(fs),
        0 <= i <= j <= l <= a.len,
        count <= fs.len(),
        forall|c: int|
            #![trigger fs[c]]
            0 <= c < fs.len() ==> joined(fs[c].data_type, column_parts(halves(a, i, j, l), c)) is Ok,
    ensures
        joined_columns(fs.take(count as int), halves(a, i, j, l)) is Ok,
    decreases count,
{
    if count > 0 {
        let front = fs.take(count as int);
        lemma_halves_columns(t, fs, a, i, j, l, (count - 1) as nat);
        assert(front.drop_last() =~= fs.take(count - 1));
        assert(front.last() == fs[count - 1]);
    }
}

/// An array cut in two and put together again has its type, its cells and its
/// nulls; of lists, the elements are those that the offsets cover, and no
/// others.
pub proof fn law_halves_make_the_whole(a: ArrayV, k: int)
    requires
        a.wf(),
        0 <= k <= a.len,
    ensures
        countable(a.ty, halves(a, 0, k, a.len as int)),
        concat_of(halves(a, 0, k, a.len as int)) matches Ok(r) && {
            &&& r.wf()
            &&& r.ty == a.ty
            &&& r.cells() == a.cells()
            &&& r.body matches BodyV::List { child, .. } ==> child.len == a.body->List_offsets[a.len as int]
                - a.body->List_offsets[0]
        },
{
    let n = a.len as int;
    let parts = halves(a, 0, k, n);
    lemma_halves_join(a.ty, a, 0, k, n);
    lemma_halves_of_type(a.ty, a, 0, k, n);
    assert(first_other(parts, 2) is None) by {
        reveal_with_fuel(first_other, 3);
    }
    law_slice_keeps_cells(a, 0, k);
    law_slice_keeps_cells(a, k, n - k);
    law_concat_keeps_cells(a.ty, parts);
    lemma_pair(cell_lists(parts));
    assert(a.cells().subrange(0, k) + a.cells().subrange(k, n) =~= a.cells());
    if let BodyV::List { offsets, child } = a.body {
        assert(0 <= offsets[0] <= offsets[k] <= offsets[n]);
        let windows = list_windows(parts);
        assert(windows =~= halves(*child, offsets[0] as int, offsets[k] as int, offsets[n] as int));
        lemma_halves_join(a.ty->List_0.data_type, *child, offsets[0] as int, offsets[k] as int, offsets[n] as int);
        lemma_halves_of_type(
            a.ty->List_0.data_type,
            *child,
            offsets[0] as int,
            offsets[k] as int,
            offsets[n] as int,
        );
        law_concat_keeps_cells(a.ty->List_0.data_type, windows);
        let whole = joined(a.ty->List_0.data_type, windows)->Ok_0;
        assert(whole.cells().len() == whole.len);
    }
}

} // verus!
