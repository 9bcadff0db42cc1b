//! A box of values over a flat column.
//!
//! The view reads every slot, null or not: whether slots may be null is for the
//! column's schema to say.
use vstd::prelude::*;
use crate::array::native::ArrowNativeType;
use crate::array::primitive::{values_of, PrimitiveArray};
use crate::error::{DataError, DataErrorModel};
use crate::tensor::shape::{
    checked_shape_len, distance, elements, first_outside, has_empty_axis, index_refusal, lemma_distance_bound,
    lemma_distances_differ, lemma_elements, lemma_first_outside_stays, lemma_inside, lemma_narrowed_fits, lemma_narrowed_reach,
    lemma_packed_distance, lemma_packed_reach, lemma_reach_grows, lemma_row_major_reach, lemma_shifted_distance,
    no_empty_axis, packed, reach, row_major, row_major_strides, shape_fits, tail_product,
};
use crate::{capped, product_capped, sum_capped};

verus! {

/// What a view is: flat values, where it starts, its extents and its steps.
pub struct TensorV<T> {
    /// The flat values.
    pub values: Seq<T>,
    /// The position of the first element.
    pub offset: int,
    /// The extent of each axis, outermost first.
    pub shape: Seq<usize>,
    /// The step along each axis.
    pub strides: Seq<usize>,
}

impl<T> TensorV<T> {
    /// Whether the view is a window of a box whose elements lie row by row.
    pub open spec fn within(self, outer: Seq<usize>) -> bool {
        &&& outer.len() == self.shape.len()
        &&& shape_fits(outer)
        &&& self.strides == row_major(outer)
        &&& forall|k: int| #![trigger self.shape[k]] 0 <= k < self.shape.len() ==> self.shape[k] <= outer[k]
    }

    /// One step per axis, the steps of some box around the view, counts that
    /// fit, and every element among the values.
    pub open spec fn wf(self) -> bool {
        &&& self.strides.len() == self.shape.len()
        &&& exists|outer: Seq<usize>| self.within(outer)
        &&& shape_fits(self.shape)
        &&& 0 <= self.offset <= usize::MAX
        &&& self.values.len() <= usize::MAX
        &&& no_empty_axis(self.shape) ==> self.offset + reach(self.shape, self.strides, self.shape.len())
            < self.values.len()
    }

    /// The position that an index names.
    pub open spec fn position(self, index: Seq<usize>) -> int {
        self.offset + distance(index, self.strides, self.shape.len())
    }

    /// The element that an index names.
    pub open spec fn at(self, index: Seq<usize>) -> T {
        self.values[self.position(index)]
    }

    /// Whether the elements lie one behind the other.
    pub open spec fn contiguous(self) -> bool {
        packed(self.shape, self.strides, self.shape.len())
    }

    /// The elements in order, where they lie one behind the other.
    pub open spec fn run(self) -> Seq<T> {
        if elements(self.shape) == 0 {
            Seq::empty()
        } else {
            self.values.subrange(self.offset, self.offset + elements(self.shape))
        }
    }

    /// An axis narrowed to a window. A view without elements starts nowhere in
    /// particular: it stays where it was.
    pub open spec fn narrowed(self, axis: int, start: int, len: int) -> TensorV<T> {
        let shape = self.shape.update(axis, len as usize);
        TensorV {
            values: self.values,
            offset: if no_empty_axis(shape) {
                self.offset + start * self.strides[axis]
            } else {
                self.offset
            },
            shape,
            strides: self.strides,
        }
    }
}

/// The view of a whole column.
pub open spec fn whole<T>(values: Seq<T>, shape: Seq<usize>) -> TensorV<T> {
    TensorV { values, offset: 0, shape, strides: row_major(shape) }
}

/// The view of a column in a shape, or why there is none.
pub open spec fn make_view<T>(values: Seq<T>, shape: Seq<usize>) -> Result<TensorV<T>, DataErrorModel> {
    if !shape_fits(shape) {
        Err(DataErrorModel::TensorShapeOverflow { shape })
    } else if values.len() != elements(shape) {
        Err(
            DataErrorModel::TensorShapeMismatch {
                expected: elements(shape) as usize,
                actual: values.len() as usize,
            },
        )
    } else {
        Ok(whole(values, shape))
    }
}

/// Where a window of an axis starts, clamped to the axis.
pub open spec fn axis_start(start: int, dim: int) -> int {
    if start < dim {
        start
    } else {
        dim
    }
}

/// How long a window of an axis is, clamped to the axis.
pub open spec fn axis_len(start: int, len: int, dim: int) -> int {
    let rest = dim - axis_start(start, dim);
    if len < rest {
        len
    } else {
        rest
    }
}

/// A box of values over a flat column.
#[derive(Debug)]
pub struct TensorView<T: ArrowNativeType> {
    values: PrimitiveArray<T>,
    offset: usize,
    shape: Vec<usize>,
    strides: Vec<usize>,
}

impl<T: ArrowNativeType> View for TensorView<T> {
    type V = TensorV<T>;

    closed spec fn view(&self) -> TensorV<T> {
        TensorV {
            values: values_of::<T>(self.values@),
            offset: self.offset as int,
            shape: self.shape@,
            strides: self.strides@,
        }
    }
}

/// A copy of extents.
fn copy_extents(v: &Vec<usize>) -> (r: Vec<usize>)
    ensures
        r@ == v@,
{
    let mut out: Vec<usize> = Vec::with_capacity(v.len());
    let mut i: usize = 0;
    while i < v.len()
        invariant
            0 <= i <= v@.len(),
            out@ == v@.take(i as int),
        decreases v@.len() - i,
    {
        out.push(v[i]);
        assert(v@.take(i + 1) =~= v@.take(i as int).push(v@[i as int]));
        i = i + 1;
    }
    assert(v@.take(i as int) =~= v@);
    out
}

impl<T: ArrowNativeType> Clone for TensorView<T> {
    fn clone(&self) -> (r: Self)
        ensures
            r@ == self@,
    {
        proof {
            use_type_invariant(self);
        }
        TensorView {
            values: self.values.clone(),
            offset: self.offset,
            shape: copy_extents(&self.shape),
            strides: copy_extents(&self.strides),
        }
    }
}

impl<T: ArrowNativeType> TensorView<T> {
    #[verifier::type_invariant]
    closed spec fn inv(self) -> bool {
        self@.wf()
    }

    /// The view of a column in a shape.
    pub fn from_primitive(array: &PrimitiveArray<T>, shape: Vec<usize>) -> (r: Result<Self, DataError>)
        ensures
            match r {
                Ok(t) => make_view(values_of::<T>(array@), shape@) == Ok::<TensorV<T>, DataErrorModel>(t@),
                Err(e) => make_view(values_of::<T>(array@), shape@) == Err::<TensorV<T>, DataErrorModel>(e@),
            },
    {
        let n: usize = array.len();
        match checked_shape_len(shape.as_slice()) {
            Some(expected) => {
                if n != expected {
                    return Err(DataError::TensorShapeMismatch { expected, actual: n });
                }
                let strides = row_major_strides(shape.as_slice());
                proof {
                    if no_empty_axis(shape@) {
                        lemma_row_major_reach(shape@, shape@.len());
                        assert(tail_product(shape@, shape@.len()) == 1);
                    }
                    assert(whole(values_of::<T>(array@), shape@).within(shape@));
                }
                Ok(TensorView { values: array.clone(), offset: 0, shape, strides })
            },
            None => Err(DataError::TensorShapeOverflow { shape }),
        }
    }

    /// The view of values in a shape.
    pub fn from_values(values: Vec<T>, shape: Vec<usize>) -> (r: Result<Self, DataError>)
        ensures
            match r {
                Ok(t) => make_view(values@, shape@) == Ok::<TensorV<T>, DataErrorModel>(t@),
                Err(e) => make_view(values@, shape@) == Err::<TensorV<T>, DataErrorModel>(e@),
            },
    {
        let array = PrimitiveArray::from_values(values);
        TensorView::from_primitive(&array, shape)
    }

    /// The extent of each axis, outermost first.
    #[must_use]
    pub fn shape(&self) -> (r: &[usize])
        ensures
            r@ == self@.shape,
    {
        self.shape.as_slice()
    }

    /// The step along each axis.
    #[must_use]
    pub fn strides(&self) -> (r: &[usize])
        ensures
            r@ == self@.strides,
    {
        self.strides.as_slice()
    }

    /// How many axes there are.
    #[must_use]
    pub fn ndim(&self) -> (r: usize)
        ensures
            r == self@.shape.len(),
    {
        self.shape.len()
    }

    /// How many elements there are: one where there is no axis.
    #[must_use]
    pub fn len(&self) -> (r: usize)
        ensures
            r == elements(self@.shape),
    {
        proof {
            use_type_invariant(self);
        }
        match checked_shape_len(self.shape.as_slice()) {
            Some(n) => n,
            None => 0,
        }
    }

    /// Whether there are none.
    #[must_use]
    pub fn is_empty(&self) -> (r: bool)
        ensures
            r == (elements(self@.shape) == 0),
            r == !no_empty_axis(self@.shape),
    {
        proof {
            lemma_elements(self.shape@, self.shape@.len());
            assert(self.shape@.take(self.shape@.len() as int) =~= self.shape@);
        }
        self.len() == 0
    }

    /// Whether the elements lie one behind the other. An axis of one element
    /// has no step to compare; past an empty axis nothing is left to compare.
    #[must_use]
    pub fn is_contiguous(&self) -> (r: bool)
        ensures
            r == self@.contiguous(),
    {
        proof {
            use_type_invariant(self);
        }
        let ghost shape = self.shape@;
        let ghost strides = self.strides@;
        let mut expected: usize = 1;
        let mut left: usize = self.shape.len();
        while left > 0
            invariant
                0 <= left <= shape.len(),
                shape == self.shape@,
                strides == self.strides@,
                shape == self@.shape,
                strides == self@.strides,
                strides.len() == shape.len(),
                expected == capped(tail_product(shape, left as nat) as int),
                packed(shape, strides, left as nat) == self@.contiguous(),
            decreases left,
        {
            let dim: usize = self.shape[left - 1];
            if dim == 0 {
                return true;
            }
            proof {
                let t = tail_product(shape, left as nat);
                assert(tail_product(shape, (left - 1) as nat) == dim as nat * t);
                assert(capped(expected * dim) == capped((dim as nat * t) as int)) by {
                    if t <= usize::MAX {
                        assert(expected * dim == dim as nat * t) by (nonlinear_arith)
                            requires
                                expected == t,
                        ;
                    } else {
                        assert(expected * dim >= usize::MAX && dim as nat * t >= usize::MAX) by (nonlinear_arith)
                            requires
                                dim >= 1,
                                expected == usize::MAX,
                                t >= usize::MAX,
                        ;
                    }
                }
                if dim == 1 {
                    assert(dim as nat * t == t) by (nonlinear_arith)
                        requires
                            dim == 1,
                    ;
                }
            }
            if dim != 1 {
                if self.strides[left - 1] != expected {
                    return false;
                }
                expected = product_capped(expected, dim);
            }
            left = left - 1;
        }
        true
    }

    /// The elements in order, where they lie one behind the other.
    #[must_use]
    pub fn as_slice(&self) -> (r: Option<Vec<T>>)
        ensures
            match r {
                Some(v) => self@.contiguous() && v@ == self@.run(),
                None => !self@.contiguous(),
            },
    {
        proof {
            use_type_invariant(self);
            lemma_elements(self.shape@, self.shape@.len());
            assert(self.shape@.take(self.shape@.len() as int) =~= self.shape@);
        }
        if !self.is_contiguous() {
            return None;
        }
        let n: usize = self.len();
        if n == 0 {
            return Some(Vec::new());
        }
        proof {
            lemma_run_inside(self@);
        }
        let all: usize = self.values.len();
        let ghost values = self@.values;
        let mut out: Vec<T> = Vec::with_capacity(n);
        let mut i: usize = 0;
        while i < n
            invariant
                0 <= i <= n,
                self.offset + n <= all,
                all == self.values@.len,
                values == self@.values,
                values.len() == all,
                out@.len() == i,
                forall|k: int| #![trigger out@[k]] 0 <= k < i ==> out@[k] == values[self.offset + k],
            decreases n - i,
        {
            out.push(self.values.value(self.offset + i));
            i = i + 1;
        }
        assert(out@ =~= values.subrange(self.offset as int, self.offset + n));
        Some(out)
    }

    /// The position that an index names.
    pub fn flat_index(&self, index: &[usize]) -> (r: Result<usize, DataError>)
        ensures
            match r {
                Ok(p) => index_refusal(index@, self@.shape) is None && p == self@.position(index@) && p
                    < self@.values.len(),
                Err(e) => index_refusal(index@, self@.shape) == Some(e@),
            },
    {
        proof {
            use_type_invariant(self);
        }
        let n: usize = self.shape.len();
        if index.len() != n {
            return Err(DataError::TensorRankMismatch { expected: n, actual: index.len() });
        }
        let ghost shape = self.shape@;
        let ghost strides = self.strides@;
        let mut i: usize = 0;
        while i < n
            invariant
                0 <= i <= n == shape.len(),
                index@.len() == n,
                shape == self.shape@,
                shape == self@.shape,
                first_outside(index@, shape, i as nat) is None,
            decreases n - i,
        {
            if index[i] >= self.shape[i] {
                proof {
                    assert(first_outside(index@, shape, (i + 1) as nat) == Some(i as nat));
                    lemma_first_outside_stays(index@, shape, (i + 1) as nat, shape.len());
                }
                return Err(DataError::TensorIndexOutOfBounds { axis: i, index: index[i], dim: self.shape[i] });
            }
            i = i + 1;
        }
        proof {
            lemma_inside(index@, shape, n as nat);
            assert forall|k: int| #![trigger shape[k]] 0 <= k < shape.len() implies shape[k] > 0 by {
                assert(index@[k] < shape[k]);
            }
            lemma_distance_bound(index@, shape, strides, n as nat);
        }
        let mut flat: usize = self.offset;
        let mut k: usize = 0;
        while k < n
            invariant
                0 <= k <= n == shape.len(),
                n == strides.len(),
                index@.len() == n,
                strides == self.strides@,
                shape == self@.shape,
                strides == self@.strides,
                self.offset == self@.offset,
                no_empty_axis(shape),
                forall|j: int| #![trigger index@[j]] 0 <= j < n ==> index@[j] < shape[j],
                self.offset + reach(shape, strides, n as nat) < self@.values.len() <= usize::MAX,
                flat == self.offset + distance(index@, strides, k as nat),
            decreases n - k,
        {
            proof {
                lemma_distance_bound(index@, shape, strides, (k + 1) as nat);
                lemma_reach_grows(shape, strides, (k + 1) as nat, n as nat);
                let x = index@[k as int] as nat;
                let s = strides[k as int] as nat;
                assert(x * s >= 0);
                assert(distance(index@, strides, (k + 1) as nat) == distance(index@, strides, k as nat) + x * s);
            }
            flat = flat + index[k] * self.strides[k];
            k = k + 1;
        }
        Ok(flat)
    }

    /// The element that an index names.
    pub fn get(&self, index: &[usize]) -> (r: Result<T, DataError>)
        ensures
            match r {
                Ok(v) => index_refusal(index@, self@.shape) is None && v == self@.at(index@),
                Err(e) => index_refusal(index@, self@.shape) == Some(e@),
            },
    {
        match self.flat_index(index) {
            Ok(p) => {
                let n: usize = self.values.len();
                Ok(self.values.value(p))
            },
            Err(e) => Err(e),
        }
    }

    /// Narrows an axis to a window, clamped to the axis.
    pub fn slice_axis(&self, axis: usize, start: usize, len: usize) -> (r: Result<Self, DataError>)
        ensures
            match r {
                Ok(t) => axis < self@.shape.len() && t@ == self@.narrowed(
                    axis as int,
                    axis_start(start as int, self@.shape[axis as int] as int),
                    axis_len(start as int, len as int, self@.shape[axis as int] as int),
                ),
                Err(e) => axis >= self@.shape.len() && e@ == (DataErrorModel::TensorAxisOutOfBounds {
                    axis,
                    ndim: self@.shape.len() as usize,
                }),
            },
    {
        proof {
            use_type_invariant(self);
        }
        if axis >= self.shape.len() {
            return Err(DataError::TensorAxisOutOfBounds { axis, ndim: self.shape.len() });
        }
        let dim: usize = self.shape[axis];
        let from: usize = if start < dim {
            start
        } else {
            dim
        };
        let count: usize = if len < dim - from {
            len
        } else {
            dim - from
        };
        let mut shape = copy_extents(&self.shape);
        shape.set(axis, count);
        let ghost old_shape = self.shape@;
        let ghost strides = self.strides@;
        let ghost n = old_shape.len();
        proof {
            assert(shape@ == old_shape.update(axis as int, count));
            let s = strides[axis as int] as nat;
            assert(from as nat * s >= 0);
            lemma_narrowed_fits(old_shape, axis as int, count, n);
            let outer = choose|outer: Seq<usize>| self@.within(outer);
            assert(self@.narrowed(axis as int, from as int, count as int).within(outer));
            if no_empty_axis(shape@) {
                assert forall|k: int| #![trigger old_shape[k]] 0 <= k < old_shape.len() implies old_shape[k] > 0 by {
                    assert(shape@[k] > 0);
                }
                lemma_narrowed_reach(old_shape, strides, axis as int, from as int, count, n);
                lemma_reach_grows(shape@, strides, 0, n);
                assert(self.offset + from * self.strides[axis as int] <= usize::MAX);
            }
        }
        let offset: usize = if has_empty_axis(shape.as_slice()) {
            self.offset
        } else {
            self.offset + from * self.strides[axis]
        };
        Ok(
            TensorView {
                values: self.values.clone(),
                offset,
                shape,
                strides: copy_extents(&self.strides),
            },
        )
    }

    /// Narrows an axis to a window, which must lie within the axis.
    pub fn try_slice_axis(&self, axis: usize, start: usize, len: usize) -> (r: Result<Self, DataError>)
        ensures
            ({
                let n = self@.shape.len();
                let dim = self@.shape[axis as int];
                match r {
                    Ok(t) => axis < n && capped(start + len) <= dim && t@ == self@.narrowed(
                        axis as int,
                        axis_start(start as int, dim as int),
                        axis_len(start as int, len as int, dim as int),
                    ),
                    Err(e) => if axis >= n {
                        e@ == (DataErrorModel::TensorAxisOutOfBounds { axis, ndim: n as usize })
                    } else {
                        capped(start + len) > dim && e@ == (DataErrorModel::SliceOutOfBounds {
                            offset: start,
                            len,
                            available: dim,
                        })
                    },
                }
            }),
    {
        if axis >= self.shape.len() {
            return Err(DataError::TensorAxisOutOfBounds { axis, ndim: self.shape.len() });
        }
        let dim: usize = self.shape[axis];
        if sum_capped(start, len) > dim {
            return Err(DataError::SliceOutOfBounds { offset: start, len, available: dim });
        }
        self.slice_axis(axis, start, len)
    }
}

/// The run of elements that lie one behind the other is among the values.
proof fn lemma_run_inside<T>(t: TensorV<T>)
    requires
        t.wf(),
        t.contiguous(),
        no_empty_axis(t.shape),
    ensures
        t.offset + elements(t.shape) <= t.values.len(),
{
    let n = t.shape.len();
    lemma_packed_reach(t.shape, t.strides, n);
    lemma_row_major_reach(t.shape, n);
    assert(tail_product(t.shape, n) == 1);
}

/// Different indices name different positions.
pub proof fn law_positions_are_distinct<T>(t: TensorV<T>, a: Seq<usize>, b: Seq<usize>)
    requires
        t.wf(),
        index_refusal(a, t.shape) is None,
        index_refusal(b, t.shape) is None,
        a != b,
    ensures
        t.position(a) != t.position(b),
{
    let outer = choose|outer: Seq<usize>| t.within(outer);
    let n = t.shape.len();
    lemma_inside(a, t.shape, n);
    lemma_inside(b, t.shape, n);
    assert forall|i: int| #![trigger a[i]] 0 <= i < n implies a[i] < outer[i] by {
        assert(t.shape[i] <= outer[i]);
    }
    assert forall|i: int| #![trigger b[i]] 0 <= i < n implies b[i] < outer[i] by {
        assert(t.shape[i] <= outer[i]);
    }
    if t.position(a) == t.position(b) {
        lemma_distances_differ(a, b, outer);
    }
}

/// Where the elements lie one behind the other, there is a run of them, and an
/// index names in it the element that it names in a row-by-row layout.
pub proof fn law_contiguous_runs_in_order<T>(t: TensorV<T>, index: Seq<usize>)
    requires
        t.wf(),
        t.contiguous(),
        index_refusal(index, t.shape) is None,
    ensures
        distance(index, row_major(t.shape), t.shape.len()) < elements(t.shape),
        t.run().len() == elements(t.shape),
        t.run()[distance(index, row_major(t.shape), t.shape.len()) as int] == t.at(index),
{
    let n = t.shape.len();
    lemma_inside(index, t.shape, n);
    assert forall|k: int| #![trigger t.shape[k]] 0 <= k < n implies t.shape[k] > 0 by {
        assert(index[k] < t.shape[k]);
    }
    lemma_packed_distance(t.shape, t.strides, index, n);
    lemma_packed_reach(t.shape, t.strides, n);
    lemma_run_inside(t);
    lemma_row_major_reach(t.shape, n);
    assert(tail_product(t.shape, n) == 1);
    lemma_distance_bound(index, t.shape, t.strides, n);
}

/// A freshly made view is contiguous.
pub proof fn law_whole_is_contiguous<T>(values: Seq<T>, shape: Seq<usize>)
    ensures
        whole(values, shape).contiguous(),
{
    lemma_row_major_packed(shape, shape.len());
}

proof fn lemma_row_major_packed(shape: Seq<usize>, count: nat)
    requires
        count <= shape.len(),
    ensures
        packed(shape, row_major(shape), count),
    decreases count,
{
    if count > 0 {
        lemma_row_major_packed(shape, (count - 1) as nat);
    }
}

/// An index into a narrowed view names the element that the index shifted by the
/// window's start names in the view.
pub proof fn law_narrowing_shifts<T>(t: TensorV<T>, axis: int, start: int, len: int, index: Seq<usize>)
    requires
        t.wf(),
        0 <= axis < t.shape.len(),
        0 <= start,
        0 <= len,
        start + len <= t.shape[axis],
        index_refusal(index, t.narrowed(axis, start, len).shape) is None,
    ensures
        index_refusal(index.update(axis, (index[axis] + start) as usize), t.shape) is None,
        t.narrowed(axis, start, len).at(index) == t.at(index.update(axis, (index[axis] + start) as usize)),
{
    let n = t.shape.len();
    let small = t.narrowed(axis, start, len).shape;
    lemma_inside(index, small, n);
    assert(index[axis] < small[axis]);
    let moved = index.update(axis, (index[axis] + start) as usize);
    lemma_shifted_distance(index, t.strides, axis, start as usize, n);
    assert forall|k: int| #![trigger moved[k]] 0 <= k < n implies moved[k] < t.shape[k] by {
        assert(index[k] < small[k]);
    }
    lemma_all_inside(moved, t.shape, n);
    assert forall|k: int| #![trigger small[k]] 0 <= k < small.len() implies small[k] > 0 by {
        assert(index[k] < small[k]);
    }
}

/// Components all inside their axes are none past them.
proof fn lemma_all_inside(index: Seq<usize>, shape: Seq<usize>, count: nat)
    requires
        forall|i: int| #![trigger index[i]] 0 <= i < count ==> index[i] < shape[i],
    ensures
        first_outside(index, shape, count) is None,
    decreases count,
{
    if count > 0 {
        lemma_all_inside(index, shape, (count - 1) as nat);
        assert(index[count - 1] < shape[count - 1]);
    }
}

} // verus!
