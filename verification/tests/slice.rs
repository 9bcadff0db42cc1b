use astrs_data::array::{Int32Array, StringArray};
use astrs_data::kernel::{slice_columns, try_slice_columns};
use astrs_data::{ArrayRef, DataError};
use std::sync::Arc;

fn sample() -> Vec<ArrayRef> {
    let texts: Vec<String> = (0..10).map(|i| i.to_string()).collect();
    vec![
        Int32Array::from_values((0..10).collect()).into_array_ref(),
        StringArray::from_values(texts.iter().map(String::as_str).collect()).into_array_ref(),
    ]
}

#[test]
fn slices_every_column_by_the_same_window() {
    let window = slice_columns(&sample(), 2, 3);
    assert_eq!(window[0].len(), 3);
    assert_eq!(window[1].len(), 3);
    assert_eq!(
        Int32Array::try_from_array(&window[0]).unwrap()
            .values(), vec![2, 3, 4]
    );
}

#[test]
fn clamps_like_every_other_slice_in_the_crate() {
    let window = slice_columns(&sample(), 8, 99);
    assert_eq!(window[0].len(), 2);
    let window = slice_columns(&sample(), 99, 1);
    assert_eq!(window[0].len(), 0);
}

#[test]
fn a_full_range_request_is_a_pointer_clone() {
    let columns = sample();
    let window = slice_columns(&columns, 0, 10);
    assert!(Arc::ptr_eq(&columns[0], &window[0]));
}

#[test]
fn empty_column_set_slices_to_nothing() {
    assert!(slice_columns(&[], 0, 5).is_empty());
    assert!(try_slice_columns(&[], 0, 5).unwrap().is_empty());
}

#[test]
fn try_slice_columns_reports_out_of_range_against_the_shortest_column() {
    let columns = vec![
        Int32Array::from_values((0..10).collect()).into_array_ref(),
        StringArray::from_values(vec!["a", "b", "c"]).into_array_ref(),
    ];
    assert!(try_slice_columns(&columns, 0, 3).is_ok());
    assert_eq!(
        try_slice_columns(&columns, 0, 4).unwrap_err(),
        DataError::SliceOutOfBounds {
            offset: 0,
            len: 4,
            available: 3
        }
    );
}

#[test]
fn a_window_is_clamped_to_the_shortest_column() {
    let columns = vec![
        Int32Array::from_values((0..10).collect()).into_array_ref(),
        StringArray::from_values(vec!["a", "b", "c"]).into_array_ref(),
    ];
    let window = slice_columns(&columns, 1, 9);
    assert_eq!(window[0].len(), 2);
    assert_eq!(window[1].len(), 2);
}
