use astrs_data::array::{BooleanArray, Int32Array, StringArray};
use astrs_data::kernel::{filter, filter_batch};
use astrs_data::{DataError, DataType, Field, RecordBatch, Schema};
use std::sync::Arc;

#[test]
fn keeps_only_true_rows_in_order() {
    let array = Int32Array::from_values(vec![10, 20, 30, 40]).into_array_ref();
    let mask = BooleanArray::from_values(vec![true, false, true, false]);
    let kept = filter(&array, &mask).unwrap();
    let kept = Int32Array::try_from_array(&kept).unwrap();
    assert_eq!(kept.values(), vec![10, 30]);
}

#[test]
fn null_mask_entries_drop_their_row_like_false() {
    let array = Int32Array::from_values(vec![10, 20, 30]).into_array_ref();
    let mask = BooleanArray::from_opt_iter(vec![Some(true), None, Some(true)]);
    let kept = filter(&array, &mask).unwrap();
    let kept = Int32Array::try_from_array(&kept).unwrap();
    assert_eq!(kept.values(), vec![10, 30]);
    assert_eq!(kept.null_count(), 0);
}

#[test]
fn a_mismatched_mask_length_is_rejected() {
    let array = Int32Array::from_values(vec![10, 20, 30]).into_array_ref();
    let mask = BooleanArray::from_values(vec![true, false]);
    assert_eq!(
        filter(&array, &mask).unwrap_err(),
        DataError::MaskLengthMismatch {
            array_len: 3,
            mask_len: 2
        }
    );
}

#[test]
fn an_all_false_mask_yields_an_empty_array_of_the_same_type() {
    let array = Int32Array::from_values(vec![10, 20, 30]).into_array_ref();
    let mask = BooleanArray::from_values(vec![false, false, false]);
    let kept = filter(&array, &mask).unwrap();
    assert!(kept.is_empty());
    assert_eq!(kept.data_type(), array.data_type());
}

#[test]
fn filter_batch_keeps_every_column_in_step() {
    let schema = Arc::new(Schema::new(vec![
        Field::required("id", DataType::Int32),
        Field::nullable("name", DataType::Utf8),
    ]));
    let batch = RecordBatch::try_new(
        schema,
        vec![
            Int32Array::from_values(vec![1, 2, 3]).into_array_ref(),
            StringArray::from_values(vec!["a", "b", "c"]).into_array_ref(),
        ],
    )
    .unwrap();
    let mask = BooleanArray::from_values(vec![false, true, true]);
    let kept = filter_batch(&batch, &mask).unwrap();
    assert_eq!(kept.num_rows(), 2);
    let ids = Int32Array::try_from_array(&kept.columns()[0]).unwrap();
    assert_eq!(ids.values(), vec![2, 3]);
}

#[test]
fn filter_batch_rejects_a_mismatched_mask() {
    let batch = RecordBatch::from_payload(Int32Array::from_values(vec![1, 2]).into_array_ref());
    let mask = BooleanArray::from_values(vec![true]);
    assert_eq!(
        filter_batch(&batch, &mask).unwrap_err(),
        DataError::MaskLengthMismatch {
            array_len: 2,
            mask_len: 1
        }
    );
}
