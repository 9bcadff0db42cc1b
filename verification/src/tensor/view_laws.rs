//! Which elements views hold, said of indices alone.
use vstd::prelude::*;
use crate::array::native::ArrowNativeType;
use crate::error::DataError;
use crate::tensor::image_laws::{
    inside, law_indices_inside_are_accepted, law_views_read_row_by_row, lemma_place, place,
};
use crate::tensor::shape::{elements, head_product, tail_product};
use crate::tensor::view::{law_contiguous_runs_in_order, law_narrowing_shifts, TensorView};

verus! {

/// How many elements a shape has: the product of its extents.
pub open spec fn extent(shape: Seq<usize>) -> nat
    decreases shape.len(),
{
    if shape.len() == 0 {
        1
    } else {
        extent(shape.drop_last()) * shape.last() as nat
    }
}

proof fn lemma_extent(shape: Seq<usize>, count: nat)
    requires
        count <= shape.len(),
    ensures
        head_product(shape, count) == extent(shape.take(count as int)),
    decreases count,
{
    if count > 0 {
        lemma_extent(shape, (count - 1) as nat);
        assert(shape.take(count as int).drop_last() =~= shape.take(count - 1));
        assert(shape.take(count as int).last() == shape[count - 1]);
    }
}

/// A shape has as many elements as its extents multiply to.
pub proof fn law_elements_are_the_product(shape: Seq<usize>)
    ensures
        elements(shape) == extent(shape),
{
    lemma_extent(shape, shape.len());
    assert(shape.take(shape.len() as int) =~= shape);
}

/// Values make a view exactly where there are as many as the shape has elements,
/// and the view reads them row by row.
pub proof fn law_values_make_a_view<T: ArrowNativeType>(
    values: Vec<T>,
    shape: Vec<usize>,
    r: Result<TensorView<T>, DataError>,
)
    requires
        call_ensures(TensorView::<T>::from_values, (values, shape), r),
    ensures
        r is Ok <==> extent(shape@) <= usize::MAX && values@.len() == extent(shape@),
        r matches Ok(t) ==> t@.shape == shape@ && forall|index: Seq<usize>|
            #![trigger t@.at(index)]
            inside(index, shape@) ==> t@.at(index) == values@[place(index, shape@, shape@.len()) as int],
{
    law_elements_are_the_product(shape@);
    if let Ok(t) = r {
        assert forall|index: Seq<usize>| #![trigger t@.at(index)] inside(index, shape@) implies t@.at(index)
            == values@[place(index, shape@, shape@.len()) as int] by {
            law_views_read_row_by_row(values@, shape@, t@, index);
        }
    }
}

/// Reading a view gives the element there at every index inside it, and is refused
/// at every other.
pub proof fn law_elements_are_read<T: ArrowNativeType>(view: TensorView<T>, index: &[usize], r: Result<T, DataError>)
    requires
        call_ensures(TensorView::<T>::get, (&view, index), r),
    ensures
        r is Ok <==> inside(index@, view@.shape),
        r matches Ok(v) ==> v == view@.at(index@),
{
    law_indices_inside_are_accepted(index@, view@.shape);
}

/// An axis cut to a window has as many places as the window has within the axis,
/// every other axis as many as before. At every index it holds what the view holds
/// as far on along the axis as the window starts.
pub proof fn law_an_axis_is_cut<T: ArrowNativeType>(
    view: TensorView<T>,
    axis: usize,
    start: usize,
    len: usize,
    r: Result<TensorView<T>, DataError>,
)
    requires
        view@.wf(),
        call_ensures(TensorView::<T>::slice_axis, (&view, axis, start, len), r),
    ensures
        r is Ok <==> axis < view@.shape.len(),
        r matches Ok(t) ==> {
            &&& t@.shape.len() == view@.shape.len()
            &&& forall|k: int|
                #![trigger t@.shape[k]]
                0 <= k < t@.shape.len() && k != axis ==> t@.shape[k] == view@.shape[k]
            &&& forall|i: int|
                0 <= i ==> (#[trigger] within(i, t@.shape[axis as int] as int) <==> i < len && start + i
                    < view@.shape[axis as int])
            &&& forall|index: Seq<usize>|
                #![trigger t@.at(index)]
                inside(index, t@.shape) ==> t@.at(index) == view@.at(
                    index.update(axis as int, (index[axis as int] + start) as usize),
                )
        },
{
    if let Ok(t) = r {
        let a = axis as int;
        let dim = view@.shape[a] as int;
        let from = crate::tensor::view::axis_start(start as int, dim);
        let count = crate::tensor::view::axis_len(start as int, len as int, dim);
        assert forall|index: Seq<usize>| #![trigger t@.at(index)] inside(index, t@.shape) implies t@.at(index)
            == view@.at(index.update(a, (index[a] + start) as usize)) by {
            assert(index[a] < t@.shape[a]);
            assert(from == start);
            law_indices_inside_are_accepted(index, t@.shape);
            law_narrowing_shifts(view@, a, from, count, index);
        }
    }
}

/// Whether a place is on an axis.
pub open spec fn within(i: int, extent: int) -> bool {
    i < extent
}

/// A run of elements that lie one behind the other holds them row by row.
pub proof fn law_runs_hold_elements_row_by_row<T: ArrowNativeType>(view: TensorView<T>, r: Option<Vec<T>>)
    requires
        view@.wf(),
        call_ensures(TensorView::<T>::as_slice, (&view,), r),
    ensures
        r matches Some(run) ==> forall|index: Seq<usize>|
            #![trigger inside(index, view@.shape)]
            inside(index, view@.shape) ==> run@.len() == extent(view@.shape) && run@[place(
                index,
                view@.shape,
                view@.shape.len(),
            ) as int] == view@.at(index),
{
    if let Some(run) = r {
        let shape = view@.shape;
        assert forall|index: Seq<usize>| #![trigger inside(index, shape)] inside(index, shape) implies run@.len() == extent(
            shape,
        ) && run@[place(index, shape, shape.len()) as int] == view@.at(index) by {
            law_indices_inside_are_accepted(index, shape);
            law_contiguous_runs_in_order(view@, index);
            law_elements_are_the_product(shape);
            lemma_place(index, shape, shape.len());
            let p = place(index, shape, shape.len());
            assert(tail_product(shape, shape.len()) == 1);
            assert(p * 1 == p) by (nonlinear_arith);
        }
    }
}

} // verus!
