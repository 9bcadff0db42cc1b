//! Shapes, strides and the positions that indices name.
use vstd::prelude::*;
use crate::error::DataErrorModel;
use crate::{capped, product_capped};

verus! {

/// How many elements the first `count` axes span.
pub open spec fn head_product(shape: Seq<usize>, count: nat) -> nat
    decreases count,
{
    if count == 0 {
        1
    } else {
        head_product(shape, (count - 1) as nat) * shape[count - 1] as nat
    }
}

/// How many elements the axes from `from` on span.
pub open spec fn tail_product(shape: Seq<usize>, from: nat) -> nat
    decreases shape.len() - from,
{
    if from >= shape.len() {
        1
    } else {
        shape[from as int] as nat * tail_product(shape, from + 1)
    }
}

/// How many elements a shape has.
pub open spec fn elements(shape: Seq<usize>) -> nat {
    head_product(shape, shape.len())
}

/// Whether a shape has no more elements than can be counted.
pub open spec fn shape_fits(shape: Seq<usize>) -> bool {
    elements(shape) <= usize::MAX
}

/// The strides of a shape laid out row by row: along an axis, one step passes
/// over all elements of the axes after it.
pub open spec fn row_major(shape: Seq<usize>) -> Seq<usize> {
    Seq::new(shape.len(), |i: int| capped(tail_product(shape, (i + 1) as nat) as int) as usize)
}

/// Whether every axis has room.
pub open spec fn no_empty_axis(shape: Seq<usize>) -> bool {
    forall|i: int| #![trigger shape[i]] 0 <= i < shape.len() ==> shape[i] > 0
}

/// How far an index reaches along the first `count` axes.
pub open spec fn distance(index: Seq<usize>, strides: Seq<usize>, count: nat) -> nat
    decreases count,
{
    if count == 0 {
        0
    } else {
        distance(index, strides, (count - 1) as nat) + index[count - 1] as nat * strides[count - 1] as nat
    }
}

/// How far the last element lies along the first `count` axes, none of them
/// empty.
pub open spec fn reach(shape: Seq<usize>, strides: Seq<usize>, count: nat) -> int
    decreases count,
{
    if count == 0 {
        0
    } else {
        reach(shape, strides, (count - 1) as nat) + (shape[count - 1] - 1) * strides[count - 1]
    }
}

/// The first of the first `count` components past its axis.
pub open spec fn first_outside(index: Seq<usize>, shape: Seq<usize>, count: nat) -> Option<nat>
    decreases count,
{
    if count == 0 {
        None
    } else {
        match first_outside(index, shape, (count - 1) as nat) {
            Some(i) => Some(i),
            None => if index[count - 1] >= shape[count - 1] {
                Some((count - 1) as nat)
            } else {
                None
            },
        }
    }
}

/// Why an index names no element of a shape.
pub open spec fn index_refusal(index: Seq<usize>, shape: Seq<usize>) -> Option<DataErrorModel> {
    if index.len() != shape.len() {
        Some(DataErrorModel::TensorRankMismatch { expected: shape.len() as usize, actual: index.len() as usize })
    } else {
        match first_outside(index, shape, shape.len()) {
            Some(i) => Some(
                DataErrorModel::TensorIndexOutOfBounds {
                    axis: i as usize,
                    index: index[i as int],
                    dim: shape[i as int],
                },
            ),
            None => None,
        }
    }
}

/// Whether the first `count` axes, checked from the innermost outwards up to an
/// empty one, step as a row-by-row layout does; an axis of one element has no
/// step.
pub open spec fn packed(shape: Seq<usize>, strides: Seq<usize>, count: nat) -> bool
    decreases count,
{
    if count == 0 {
        true
    } else if shape[count - 1] == 0 {
        true
    } else if shape[count - 1] == 1 {
        packed(shape, strides, (count - 1) as nat)
    } else {
        strides[count - 1] == capped(tail_product(shape, count) as int) && packed(
            shape,
            strides,
            (count - 1) as nat,
        )
    }
}

/// Head and tail multiply to the whole.
pub proof fn lemma_products(shape: Seq<usize>, count: nat)
    requires
        count <= shape.len(),
    ensures
        head_product(shape, count) * tail_product(shape, count) == elements(shape),
    decreases shape.len() - count,
{
    if count < shape.len() {
        lemma_products(shape, count + 1);
        let h = head_product(shape, count);
        let d = shape[count as int] as nat;
        let t = tail_product(shape, count + 1);
        assert(h * (d * t) == (h * d) * t) by (nonlinear_arith);
        assert(head_product(shape, count + 1) == h * d);
        assert(tail_product(shape, count) == d * t);
    } else {
        let h = head_product(shape, count);
        assert(h * 1 == h);
    }
}

/// Axes with room span at least one element.
pub proof fn lemma_positive(shape: Seq<usize>, count: nat)
    requires
        no_empty_axis(shape),
        count <= shape.len(),
    ensures
        head_product(shape, count) > 0,
        tail_product(shape, count) > 0,
    decreases shape.len() - count, count,
{
    lemma_head_positive(shape, count);
    lemma_tail_positive(shape, count);
}

proof fn lemma_head_positive(shape: Seq<usize>, count: nat)
    requires
        no_empty_axis(shape),
        count <= shape.len(),
    ensures
        head_product(shape, count) > 0,
    decreases count,
{
    if count > 0 {
        lemma_head_positive(shape, (count - 1) as nat);
        let h = head_product(shape, (count - 1) as nat);
        let d = shape[count - 1] as nat;
        assert(h * d > 0) by (nonlinear_arith)
            requires
                h > 0,
                d > 0,
        ;
    }
}

proof fn lemma_tail_positive(shape: Seq<usize>, from: nat)
    requires
        no_empty_axis(shape),
    ensures
        tail_product(shape, from) > 0,
    decreases shape.len() - from,
{
    if from < shape.len() {
        lemma_tail_positive(shape, from + 1);
        let t = tail_product(shape, from + 1);
        let d = shape[from as int] as nat;
        assert(d * t > 0) by (nonlinear_arith)
            requires
                t > 0,
                d > 0,
        ;
    }
}

/// A shape has elements exactly where no axis is empty.
pub proof fn lemma_elements(shape: Seq<usize>, count: nat)
    requires
        count <= shape.len(),
    ensures
        head_product(shape, count) > 0 <==> no_empty_axis(shape.take(count as int)),
    decreases count,
{
    let part = shape.take(count as int);
    if count > 0 {
        lemma_elements(shape, (count - 1) as nat);
        let before = shape.take(count - 1);
        let h = head_product(shape, (count - 1) as nat);
        let d = shape[count - 1] as nat;
        if no_empty_axis(part) {
            assert forall|i: int| #![trigger before[i]] 0 <= i < before.len() implies before[i] > 0 by {
                assert(part[i] > 0);
            }
            assert(part[count - 1] > 0);
            assert(h * d > 0) by (nonlinear_arith)
                requires
                    h > 0,
                    d > 0,
            ;
        } else {
            if d > 0 && h > 0 {
                assert forall|i: int| #![trigger part[i]] 0 <= i < part.len() implies part[i] > 0 by {
                    if i < count - 1 {
                        assert(before[i] > 0);
                    }
                }
            } else {
                assert(h * d == 0) by (nonlinear_arith)
                    requires
                        h == 0 || d == 0,
                ;
            }
        }
    }
}

/// Without empty axes the tails of a shape that fits fit.
pub proof fn lemma_tail_fits(shape: Seq<usize>, from: nat)
    requires
        no_empty_axis(shape),
        shape_fits(shape),
        from <= shape.len(),
    ensures
        0 < tail_product(shape, from) <= elements(shape) <= usize::MAX,
{
    lemma_positive(shape, from);
    lemma_products(shape, from);
    assert(head_product(shape, shape.len()) <= usize::MAX);
    let h = head_product(shape, from);
    let t = tail_product(shape, from);
    assert(t <= h * t) by (nonlinear_arith)
        requires
            h > 0,
            t > 0,
    ;
}

/// Row by row the last element lies one before the count of all.
pub proof fn lemma_row_major_reach(shape: Seq<usize>, count: nat)
    requires
        no_empty_axis(shape),
        shape_fits(shape),
        count <= shape.len(),
    ensures
        reach(shape, row_major(shape), count) == elements(shape) - tail_product(shape, count),
    decreases count,
{
    if count == 0 {
        lemma_products(shape, 0);
        let t = tail_product(shape, 0);
        assert(1 * t == t);
    } else {
        lemma_row_major_reach(shape, (count - 1) as nat);
        lemma_tail_fits(shape, count);
        let t = tail_product(shape, count);
        let d = shape[count - 1] as nat;
        assert(row_major(shape)[count - 1] == t);
        assert((d - 1) * t == d * t - t) by (nonlinear_arith);
        assert(tail_product(shape, (count - 1) as nat) == d * t);
    }
}

/// Where no component is past its axis, none is.
pub proof fn lemma_inside(index: Seq<usize>, shape: Seq<usize>, count: nat)
    requires
        first_outside(index, shape, count) is None,
    ensures
        forall|i: int| #![trigger index[i]] 0 <= i < count ==> index[i] < shape[i],
    decreases count,
{
    if count > 0 {
        lemma_inside(index, shape, (count - 1) as nat);
    }
}

/// A component found past its axis stays the first.
pub proof fn lemma_first_outside_stays(index: Seq<usize>, shape: Seq<usize>, count: nat, all: nat)
    requires
        count <= all,
        first_outside(index, shape, count) is Some,
    ensures
        first_outside(index, shape, all) == first_outside(index, shape, count),
    decreases all,
{
    if count < all {
        lemma_first_outside_stays(index, shape, count, (all - 1) as nat);
    }
}

/// An index inside a shape reaches no farther than the last element.
pub proof fn lemma_distance_bound(index: Seq<usize>, shape: Seq<usize>, strides: Seq<usize>, count: nat)
    requires
        forall|i: int| #![trigger index[i]] 0 <= i < count ==> index[i] < shape[i],
    ensures
        distance(index, strides, count) <= reach(shape, strides, count),
    decreases count,
{
    if count > 0 {
        lemma_distance_bound(index, shape, strides, (count - 1) as nat);
        let x = index[count - 1] as int;
        let d = shape[count - 1] as int;
        let s = strides[count - 1] as int;
        assert(x * s <= (d - 1) * s) by (nonlinear_arith)
            requires
                x <= d - 1,
                s >= 0,
        ;
    }
}

/// Reach grows with the axes.
pub proof fn lemma_reach_grows(shape: Seq<usize>, strides: Seq<usize>, count: nat, all: nat)
    requires
        no_empty_axis(shape),
        count <= all <= shape.len(),
    ensures
        0 <= reach(shape, strides, count) <= reach(shape, strides, all),
    decreases all,
{
    if count < all {
        lemma_reach_grows(shape, strides, count, (all - 1) as nat);
        let d = shape[all - 1] as int;
        let s = strides[all - 1] as int;
        assert((d - 1) * s >= 0) by (nonlinear_arith)
            requires
                d >= 1,
                s >= 0,
        ;
    } else if count > 0 {
        lemma_reach_grows(shape, strides, (count - 1) as nat, (count - 1) as nat);
        let d = shape[count - 1] as int;
        let s = strides[count - 1] as int;
        assert((d - 1) * s >= 0) by (nonlinear_arith)
            requires
                d >= 1,
                s >= 0,
        ;
    }
}

/// Along a packed shape an index reaches as far as row by row.
pub proof fn lemma_packed_distance(shape: Seq<usize>, strides: Seq<usize>, index: Seq<usize>, count: nat)
    requires
        no_empty_axis(shape),
        shape_fits(shape),
        strides.len() == shape.len(),
        count <= shape.len(),
        packed(shape, strides, count),
        forall|i: int| #![trigger index[i]] 0 <= i < count ==> index[i] < shape[i],
    ensures
        distance(index, strides, count) == distance(index, row_major(shape), count),
    decreases count,
{
    if count > 0 {
        lemma_packed_distance(shape, strides, index, (count - 1) as nat);
        assert(shape[count - 1] > 0);
        assert(index[count - 1] < shape[count - 1]);
        if shape[count - 1] == 1 {
            let a = strides[count - 1] as nat;
            let b = row_major(shape)[count - 1] as nat;
            assert(0 * a == 0 * b);
        }
    }
}

/// Along a packed shape the last element lies one before the count of all.
pub proof fn lemma_packed_reach(shape: Seq<usize>, strides: Seq<usize>, count: nat)
    requires
        no_empty_axis(shape),
        shape_fits(shape),
        strides.len() == shape.len(),
        count <= shape.len(),
        packed(shape, strides, count),
    ensures
        reach(shape, strides, count) == reach(shape, row_major(shape), count),
    decreases count,
{
    if count > 0 {
        lemma_packed_reach(shape, strides, (count - 1) as nat);
        assert(shape[count - 1] > 0);
        if shape[count - 1] == 1 {
            let a = strides[count - 1] as int;
            let b = row_major(shape)[count - 1] as int;
            assert(0 * a == 0 * b);
        }
    }
}

/// The place of the first `count` components of an index among all such, in the
/// order of the elements.
pub open spec fn rank(index: Seq<usize>, shape: Seq<usize>, count: nat) -> nat
    decreases count,
{
    if count == 0 {
        0
    } else {
        rank(index, shape, (count - 1) as nat) * shape[count - 1] as nat + index[count - 1] as nat
    }
}

/// Row by row, an index reaches as many elements as come before it.
proof fn lemma_rank_distance(index: Seq<usize>, shape: Seq<usize>, count: nat)
    requires
        no_empty_axis(shape),
        shape_fits(shape),
        count <= shape.len(),
    ensures
        distance(index, row_major(shape), count) == rank(index, shape, count) * tail_product(shape, count),
    decreases count,
{
    if count > 0 {
        lemma_rank_distance(index, shape, (count - 1) as nat);
        lemma_tail_fits(shape, count);
        let v = rank(index, shape, (count - 1) as nat);
        let d = shape[count - 1] as nat;
        let t = tail_product(shape, count);
        let x = index[count - 1] as nat;
        assert(row_major(shape)[count - 1] == t);
        assert(tail_product(shape, (count - 1) as nat) == d * t);
        assert(v * (d * t) + x * t == (v * d + x) * t) by (nonlinear_arith);
    } else {
        let t = tail_product(shape, count);
        assert(0 * t == 0);
    }
}

/// Indices inside a shape have different places.
proof fn lemma_ranks_differ(a: Seq<usize>, b: Seq<usize>, shape: Seq<usize>, count: nat)
    requires
        count <= shape.len(),
        forall|i: int| #![trigger a[i]] 0 <= i < count ==> a[i] < shape[i],
        forall|i: int| #![trigger b[i]] 0 <= i < count ==> b[i] < shape[i],
        rank(a, shape, count) == rank(b, shape, count),
    ensures
        forall|i: int| 0 <= i < count ==> a[i] == b[i],
    decreases count,
{
    if count > 0 {
        let d = shape[count - 1] as int;
        let u = rank(a, shape, (count - 1) as nat) as int;
        let v = rank(b, shape, (count - 1) as nat) as int;
        let x = a[count - 1] as int;
        let y = b[count - 1] as int;
        assert(u == v && x == y) by (nonlinear_arith)
            requires
                u * d + x == v * d + y,
                0 <= x < d,
                0 <= y < d,
        ;
        lemma_ranks_differ(a, b, shape, (count - 1) as nat);
    }
}

/// Different indices inside a shape reach differently far, row by row.
pub proof fn lemma_distances_differ(a: Seq<usize>, b: Seq<usize>, shape: Seq<usize>)
    requires
        shape_fits(shape),
        a.len() == b.len() == shape.len(),
        forall|i: int| #![trigger a[i]] 0 <= i < shape.len() ==> a[i] < shape[i],
        forall|i: int| #![trigger b[i]] 0 <= i < shape.len() ==> b[i] < shape[i],
        distance(a, row_major(shape), shape.len()) == distance(b, row_major(shape), shape.len()),
    ensures
        a == b,
{
    let n = shape.len();
    assert forall|k: int| #![trigger shape[k]] 0 <= k < n implies shape[k] > 0 by {
        assert(a[k] < shape[k]);
    }
    lemma_rank_distance(a, shape, n);
    lemma_rank_distance(b, shape, n);
    let u = rank(a, shape, n);
    let v = rank(b, shape, n);
    assert(u * 1 == u && v * 1 == v);
    lemma_ranks_differ(a, b, shape, n);
    assert(a =~= b);
}

/// Narrowing an axis keeps the shape within what fits.
pub proof fn lemma_narrowed_fits(shape: Seq<usize>, axis: int, len: usize, count: nat)
    requires
        0 <= axis < shape.len(),
        len <= shape[axis],
        count <= shape.len(),
    ensures
        head_product(shape.update(axis, len), count) <= head_product(shape, count),
    decreases count,
{
    if count > 0 {
        lemma_narrowed_fits(shape, axis, len, (count - 1) as nat);
        let a = head_product(shape.update(axis, len), (count - 1) as nat);
        let b = head_product(shape, (count - 1) as nat);
        let x = shape.update(axis, len)[count - 1] as nat;
        let y = shape[count - 1] as nat;
        assert(a * x <= b * y) by (nonlinear_arith)
            requires
                a <= b,
                x <= y,
        ;
    }
}

/// Narrowing an axis moves the last element no farther.
pub proof fn lemma_narrowed_reach(
    shape: Seq<usize>,
    strides: Seq<usize>,
    axis: int,
    start: int,
    len: usize,
    count: nat,
)
    requires
        0 <= axis < shape.len(),
        0 <= start,
        start + len <= shape[axis],
        count <= shape.len(),
        strides.len() == shape.len(),
    ensures
        reach(shape.update(axis, len), strides, count) + (if axis < count {
            start * strides[axis]
        } else {
            0
        }) <= reach(shape, strides, count),
    decreases count,
{
    if count > 0 {
        lemma_narrowed_reach(shape, strides, axis, start, len, (count - 1) as nat);
        if count - 1 == axis {
            let d = shape[axis] as int;
            let s = strides[axis] as int;
            assert((len - 1) * s + start * s <= (d - 1) * s) by (nonlinear_arith)
                requires
                    len - 1 + start <= d - 1,
                    s >= 0,
            ;
        }
    }
}

/// A shift along one axis is a shift by that axis's steps.
pub proof fn lemma_shifted_distance(index: Seq<usize>, strides: Seq<usize>, axis: int, start: usize, count: nat)
    requires
        0 <= axis < index.len(),
        index.len() == strides.len(),
        index[axis] + start <= usize::MAX,
        count <= index.len(),
    ensures
        distance(index.update(axis, (index[axis] + start) as usize), strides, count) == distance(
            index,
            strides,
            count,
        ) + (if axis < count {
            start * strides[axis]
        } else {
            0
        }),
    decreases count,
{
    if count > 0 {
        lemma_shifted_distance(index, strides, axis, start, (count - 1) as nat);
        if count - 1 == axis {
            let x = index[axis] as int;
            let s = strides[axis] as int;
            assert((x + start) * s == x * s + start * s) by (nonlinear_arith);
        }
    }
}

/// The first axes of a shape without empty ones span no more than all.
proof fn lemma_heads_grow(shape: Seq<usize>, count: nat)
    requires
        no_empty_axis(shape),
        count <= shape.len(),
    ensures
        head_product(shape, count) <= elements(shape),
{
    lemma_positive(shape, count);
    lemma_products(shape, count);
    let h = head_product(shape, count);
    let t = tail_product(shape, count);
    assert(h <= h * t) by (nonlinear_arith)
        requires
            t >= 1,
            h >= 0,
    ;
}

/// Whether an axis is empty.
pub(crate) fn has_empty_axis(shape: &[usize]) -> (r: bool)
    ensures
        r == !no_empty_axis(shape@),
{
    let mut i: usize = 0;
    while i < shape.len()
        invariant
            0 <= i <= shape@.len(),
            forall|k: int| #![trigger shape@[k]] 0 <= k < i ==> shape@[k] > 0,
        decreases shape@.len() - i,
    {
        if shape[i] == 0 {
            return true;
        }
        i = i + 1;
    }
    false
}

/// How many elements a shape has, where the count fits.
pub fn checked_shape_len(shape: &[usize]) -> (r: Option<usize>)
    ensures
        match r {
            Some(n) => shape_fits(shape@) && n == elements(shape@),
            None => !shape_fits(shape@),
        },
{
    proof {
        lemma_elements(shape@, shape@.len());
        assert(shape@.take(shape@.len() as int) =~= shape@);
    }
    if has_empty_axis(shape) {
        return Some(0);
    }
    let mut total: usize = 1;
    let mut i: usize = 0;
    while i < shape.len()
        invariant
            0 <= i <= shape@.len(),
            no_empty_axis(shape@),
            total == head_product(shape@, i as nat),
        decreases shape@.len() - i,
    {
        match total.checked_mul(shape[i]) {
            Some(next) => {
                total = next;
            },
            None => {
                proof {
                    lemma_heads_grow(shape@, (i + 1) as nat);
                }
                return None;
            },
        }
        i = i + 1;
    }
    Some(total)
}

/// The strides of a shape laid out row by row.
#[must_use]
pub fn row_major_strides(shape: &[usize]) -> (r: Vec<usize>)
    ensures
        r@ == row_major(shape@),
{
    let n: usize = shape.len();
    let mut reversed: Vec<usize> = Vec::with_capacity(n);
    let mut step: usize = 1;
    let mut left: usize = n;
    while left > 0
        invariant
            0 <= left <= n == shape@.len(),
            step == capped(tail_product(shape@, left as nat) as int),
            reversed@.len() == n - left,
            forall|k: int|
                #![trigger reversed@[k]]
                0 <= k < n - left ==> reversed@[k] == capped(tail_product(shape@, (n - k) as nat) as int),
        decreases left,
    {
        reversed.push(step);
        proof {
            let t = tail_product(shape@, left as nat);
            let d = shape@[left - 1] as nat;
            assert(tail_product(shape@, (left - 1) as nat) == d * t);
            assert(capped((step * d) as int) == capped((d * t) as int)) by {
                if t <= usize::MAX {
                    assert(step * d == d * t) by (nonlinear_arith)
                        requires
                            step == t,
                    ;
                } else if d == 0 {
                    assert(step * d == 0 && d * t == 0) by (nonlinear_arith)
                        requires
                            d == 0,
                    ;
                } else {
                    assert(step * d >= usize::MAX && d * t >= usize::MAX) by (nonlinear_arith)
                        requires
                            d >= 1,
                            step == usize::MAX,
                            t >= usize::MAX,
                    ;
                }
            }
        }
        step = product_capped(step, shape[left - 1]);
        left = left - 1;
    }
    let mut out: Vec<usize> = Vec::with_capacity(n);
    let mut i: usize = 0;
    while i < n
        invariant
            0 <= i <= n == shape@.len(),
            reversed@.len() == n,
            forall|k: int|
                #![trigger reversed@[k]]
                0 <= k < n ==> reversed@[k] == capped(tail_product(shape@, (n - k) as nat) as int),
            out@.len() == i,
            forall|k: int| #![trigger out@[k]] 0 <= k < i ==> out@[k] == row_major(shape@)[k],
        decreases n - i,
    {
        out.push(reversed[n - 1 - i]);
        i = i + 1;
    }
    assert(out@ =~= row_major(shape@));
    out
}

} // verus!
