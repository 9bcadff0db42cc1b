use astrs_data::array::{Float32Array, Int32Array, F32};
use astrs_data::tensor::shape::row_major_strides;
use astrs_data::tensor::TensorView;
use astrs_data::DataError;
use std::sync::Arc;


#[test]
fn row_major_strides_match_a_hand_worked_example() {
    // A [2, 3, 4] tensor: moving one step in the outermost axis skips a
    // whole 3x4 = 12-element plane; the innermost axis is contiguous.
    assert_eq!(row_major_strides(&[2, 3, 4]), vec![12, 4, 1]);
    assert_eq!(row_major_strides(&[5]), vec![1]);
    assert_eq!(row_major_strides(&[]), Vec::<usize>::new());
}

#[test]
fn shape_product_overflow_is_a_checked_error_not_a_panic() {
    // `usize::MAX * 2` overflows regardless of pointer width; a naive
    // `shape.iter().product()` panics under debug-mode overflow checks
    // (and silently wraps in release), either of which would violate
    // this crate's "never panics on data-dependent input" policy.
    let values = Int32Array::from_values(vec![1, 2]);
    assert_eq!(
        TensorView::from_primitive(&values, vec![usize::MAX, 2]).unwrap_err(),
        DataError::TensorShapeOverflow {
            shape: vec![usize::MAX, 2]
        }
    );
    // A shape whose product overflows only partway through must still
    // be caught, not just one whose very first dimension already does.
    assert_eq!(
        TensorView::from_primitive(&values, vec![2, 3, usize::MAX / 4]).unwrap_err(),
        DataError::TensorShapeOverflow {
            shape: vec![2, 3, usize::MAX / 4]
        }
    );
}

#[test]
fn construction_checks_the_element_count() {
    let values = Int32Array::from_values((0..12).collect());
    assert!(TensorView::from_primitive(&values, vec![3, 4]).is_ok());
    assert_eq!(
        TensorView::from_primitive(&values, vec![3, 3]).unwrap_err(),
        DataError::TensorShapeMismatch {
            expected: 9,
            actual: 12
        }
    );
}

#[test]
fn a_scalar_tensor_has_one_element_and_no_dimensions() {
    let values = Int32Array::from_values(vec![7]);
    let tensor = TensorView::from_primitive(&values, vec![]).unwrap();
    assert_eq!(tensor.ndim(), 0);
    assert_eq!(tensor.len(), 1);
    assert_eq!(tensor.get(&[]), Ok(7));
    assert_eq!(tensor.as_slice(), Some(vec![7]));
}

#[test]
fn an_empty_dimension_is_a_zero_length_tensor() {
    let values = Int32Array::from_values(Vec::new());
    let tensor = TensorView::from_primitive(&values, vec![0, 5]).unwrap();
    assert!(tensor.is_empty());
    assert_eq!(tensor.len(), 0);
}

#[test]
fn indexing_walks_row_major_order() {
    // [[0, 1, 2], [3, 4, 5]]
    let tensor = TensorView::<i32>::from_values((0..6).collect(), vec![2, 3]).unwrap();
    assert_eq!(tensor.get(&[0, 0]), Ok(0));
    assert_eq!(tensor.get(&[0, 2]), Ok(2));
    assert_eq!(tensor.get(&[1, 0]), Ok(3));
    assert_eq!(tensor.get(&[1, 2]), Ok(5));
}

#[test]
fn indexing_rejects_the_wrong_rank() {
    let tensor = TensorView::<i32>::from_values((0..6).collect(), vec![2, 3]).unwrap();
    assert_eq!(
        tensor.get(&[0]).unwrap_err(),
        DataError::TensorRankMismatch {
            expected: 2,
            actual: 1
        }
    );
    assert_eq!(
        tensor.get(&[0, 0, 0]).unwrap_err(),
        DataError::TensorRankMismatch {
            expected: 2,
            actual: 3
        }
    );
}

#[test]
fn indexing_rejects_an_out_of_range_component() {
    let tensor = TensorView::<i32>::from_values((0..6).collect(), vec![2, 3]).unwrap();
    assert_eq!(
        tensor.get(&[2, 0]).unwrap_err(),
        DataError::TensorIndexOutOfBounds {
            axis: 0,
            index: 2,
            dim: 2
        }
    );
    assert_eq!(
        tensor.get(&[0, 3]).unwrap_err(),
        DataError::TensorIndexOutOfBounds {
            axis: 1,
            index: 3,
            dim: 3
        }
    );
}

#[test]
fn slicing_the_outermost_axis_stays_contiguous() {
    let tensor = TensorView::<i32>::from_values((0..12).collect(), vec![3, 4]).unwrap();
    let rows = tensor.slice_axis(0, 1, 2).unwrap();
    assert_eq!(rows.shape(), &[2, 4]);
    assert!(rows.is_contiguous());
    assert_eq!(rows.as_slice(), Some(vec![4, 5, 6, 7, 8, 9, 10, 11]));
    assert_eq!(rows.get(&[0, 0]), Ok(4));
    assert_eq!(rows.get(&[1, 3]), Ok(11));
}

#[test]
fn slicing_an_inner_axis_breaks_contiguity_but_not_indexing() {
    let tensor = TensorView::<i32>::from_values((0..12).collect(), vec![3, 4]).unwrap();
    let column = tensor.slice_axis(1, 1, 2).unwrap();
    assert_eq!(column.shape(), &[3, 2]);
    assert!(!column.is_contiguous());
    assert_eq!(column.as_slice(), None);
    // Row 0: [0,1,2,3] -> columns 1..3 -> [1, 2]
    assert_eq!(column.get(&[0, 0]), Ok(1));
    assert_eq!(column.get(&[0, 1]), Ok(2));
    // Row 2: [8,9,10,11] -> columns 1..3 -> [9, 10]
    assert_eq!(column.get(&[2, 0]), Ok(9));
    assert_eq!(column.get(&[2, 1]), Ok(10));
}

#[test]
fn narrowing_a_middle_axis_to_one_slot_still_leaves_a_gap() {
    // Contrast with `slices_compose`: here the *outer* axis still has
    // real (>1) extent when the middle one is narrowed to a single
    // slot, so consecutive logical elements are not consecutive in
    // memory — picking one slice out of three leaves the other two
    // slices' worth of elements in the gap between "row" 0 and "row" 1.
    let tensor = TensorView::<i32>::from_values((0..24).collect(), vec![2, 3, 4]).unwrap();
    let narrowed = tensor.slice_axis(1, 2, 1).unwrap();
    assert_eq!(narrowed.shape(), &[2, 1, 4]);
    assert!(!narrowed.is_contiguous());
    assert_eq!(narrowed.as_slice(), None);
    assert_eq!(narrowed.get(&[0, 0, 0]), Ok(8));
    assert_eq!(narrowed.get(&[1, 0, 0]), Ok(20));
}

#[test]
fn a_size_one_axis_does_not_block_contiguity_when_it_is_not_sandwiched() {
    // Unlike the case above, a fresh tensor whose middle dimension is
    // *already* size 1 (not narrowed down from something bigger) is
    // genuinely one contiguous run: there is no "other slot" being
    // skipped, so the middle axis's stride is unobservable either way.
    let tensor = TensorView::<i32>::from_values((0..8).collect(), vec![2, 1, 4]).unwrap();
    assert!(tensor.is_contiguous());
    assert_eq!(tensor.as_slice(), Some(vec![0, 1, 2, 3, 4, 5, 6, 7]));
}

#[test]
fn slices_compose() {
    let tensor = TensorView::<i32>::from_values((0..24).collect(), vec![2, 3, 4]).unwrap();
    let plane = tensor.slice_axis(0, 1, 1).unwrap();
    let row = plane.slice_axis(1, 2, 1).unwrap();
    assert_eq!(row.shape(), &[1, 1, 4]);
    assert_eq!(row.as_slice(), Some(vec![20, 21, 22, 23]));
}

#[test]
fn slice_axis_clamps_like_every_other_slice_in_the_crate() {
    let tensor = TensorView::<i32>::from_values((0..12).collect(), vec![3, 4]).unwrap();
    assert_eq!(tensor.slice_axis(0, 2, 99).unwrap().shape(), &[1, 4]);
    assert_eq!(tensor.slice_axis(0, 99, 1).unwrap().shape(), &[0, 4]);
}

#[test]
fn slice_axis_rejects_an_axis_that_does_not_exist() {
    let tensor = TensorView::<i32>::from_values((0..12).collect(), vec![3, 4]).unwrap();
    assert_eq!(
        tensor.slice_axis(2, 0, 1).unwrap_err(),
        DataError::TensorAxisOutOfBounds { axis: 2, ndim: 2 }
    );
}

#[test]
fn try_slice_axis_reports_out_of_range_instead_of_clamping() {
    let tensor = TensorView::<i32>::from_values((0..12).collect(), vec![3, 4]).unwrap();
    assert!(tensor.try_slice_axis(0, 1, 2).is_ok());
    assert_eq!(
        tensor.try_slice_axis(0, 2, 2).unwrap_err(),
        DataError::SliceOutOfBounds {
            offset: 2,
            len: 2,
            available: 3
        }
    );
    assert_eq!(
        tensor.try_slice_axis(9, 0, 1).unwrap_err(),
        DataError::TensorAxisOutOfBounds { axis: 9, ndim: 2 }
    );
}

#[test]
fn from_primitive_shares_the_underlying_buffer() {
    let values = Float32Array::from_values(
        [1.0f32, 2.0, 3.0, 4.0].iter().map(|v| F32::from_bits(v.to_bits())).collect(),
    );
    let before = Arc::strong_count(values.as_array());
    let tensor = TensorView::from_primitive(&values, vec![2, 2]).unwrap();
    assert_eq!(tensor.as_slice(), Some(values.values()));
    assert!(Arc::strong_count(values.as_array()) > before, "no copy happened");
}

#[test]
fn values_include_whatever_a_null_slot_holds() {
    // TensorView does not consult validity — see the module doc.
    let values = Int32Array::from_opt_iter(vec![Some(1), None, Some(3), Some(4)]);
    let tensor = TensorView::from_primitive(&values, vec![2, 2]).unwrap();
    assert_eq!(tensor.get(&[0, 1]), Ok(0), "null slot's placeholder value");
}

#[test]
fn an_empty_tensor_is_contiguous() {
    let values = Int32Array::from_values(Vec::new());
    let tensor = TensorView::from_primitive(&values, vec![0, 5]).unwrap();
    assert!(tensor.is_contiguous());
    assert_eq!(tensor.as_slice(), Some(Vec::new()));

    let whole = TensorView::from_values((0..12).collect::<Vec<i32>>(), vec![3, 4]).unwrap();
    let nothing = whole.slice_axis(0, 3, 0).unwrap().slice_axis(1, 4, 0).unwrap();
    assert!(nothing.is_contiguous());
    assert_eq!(nothing.as_slice(), Some(Vec::new()));
}

#[test]
fn an_empty_view_can_be_sliced_without_end() {
    let values = Int32Array::from_values(Vec::new());
    let tensor = TensorView::from_primitive(&values, vec![0, 3, 1 << 62]).unwrap();
    let end = tensor.slice_axis(1, 3, 9).unwrap().slice_axis(2, 1 << 62, 9).unwrap();
    assert_eq!(end.shape(), &[0, 0, 0]);
    assert_eq!(end.as_slice(), Some(Vec::new()).filter(|_| end.is_contiguous()));
}

#[test]
fn an_empty_axis_makes_any_shape_fit() {
    let values = Int32Array::from_values(Vec::new());
    let tensor = TensorView::from_primitive(&values, vec![usize::MAX, 2, 0]).unwrap();
    assert_eq!(tensor.len(), 0);
    assert_eq!(tensor.shape(), &[usize::MAX, 2, 0]);
}

#[test]
fn a_slice_is_given_exactly_where_the_values_lie_in_a_row() {
    let values = Int32Array::from_values((0..24).collect());
    let tensor = TensorView::from_primitive(&values, vec![2, 3, 4]).unwrap();
    let outer = tensor.slice_axis(0, 1, 1).unwrap();
    assert!(outer.is_contiguous());
    assert_eq!(outer.as_slice(), Some((12..24).collect()));
    let inner = tensor.slice_axis(2, 1, 2).unwrap();
    assert!(!inner.is_contiguous());
    assert_eq!(inner.as_slice(), None);
}

#[test]
fn every_index_has_its_own_element() {
    let values = Int32Array::from_values((0..24).collect());
    let tensor = TensorView::from_primitive(&values, vec![2, 3, 4]).unwrap();
    let view = tensor.slice_axis(2, 1, 2).unwrap().slice_axis(1, 1, 2).unwrap();
    let mut seen = Vec::new();
    for i in 0..2 {
        for j in 0..2 {
            for k in 0..2 {
                let value = view.get(&[i, j, k]).unwrap();
                assert!(!seen.contains(&value), "{value}");
                seen.push(value);
            }
        }
    }
    assert_eq!(seen, vec![5, 6, 9, 10, 17, 18, 21, 22]);
}
