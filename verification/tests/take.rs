use astrs_data::array::{
    ArrowNativeType, Int32Array, PrimitiveArray, StringArray, UInt8Array,
};
use astrs_data::kernel::{take, take_batch};
use astrs_data::{DataError, DataType, Field, RecordBatch, Schema};
use std::sync::Arc;

/// Takes by two indices of a type.
fn check<T: ArrowNativeType>(two: T, zero: T) {
    let array = Int32Array::from_values(vec![10, 20, 30]).into_array_ref();
    let indices = PrimitiveArray::<T>::from_values(vec![two, zero]).into_array_ref();
    assert_eq!(take(&array, &indices).unwrap().len(), 2);
}

#[test]
fn take_gathers_in_the_requested_order_with_repeats() {
    let array = Int32Array::from_values(vec![10, 20, 30, 40]).into_array_ref();
    let indices = Int32Array::from_values(vec![3, 3, 0]).into_array_ref();
    let taken = take(&array, &indices).unwrap();
    let taken = Int32Array::try_from_array(&taken).unwrap();
    assert_eq!(taken.values(), vec![40, 40, 10]);
}

#[test]
fn a_null_index_produces_a_null_row() {
    let array = Int32Array::from_values(vec![10, 20, 30]).into_array_ref();
    let indices = Int32Array::from_opt_iter(vec![Some(1), None]).into_array_ref();
    let taken = take(&array, &indices).unwrap();
    assert!(!taken.is_null(0));
    assert!(taken.is_null(1));
}

#[test]
fn a_negative_index_is_rejected() {
    let array = Int32Array::from_values(vec![10, 20, 30]).into_array_ref();
    let indices = Int32Array::from_values(vec![-1]).into_array_ref();
    assert_eq!(
        take(&array, &indices).unwrap_err(),
        DataError::TakeIndexInvalid {
            position: 0,
            len: 3
        }
    );
}

#[test]
fn an_out_of_range_index_is_rejected() {
    let array = Int32Array::from_values(vec![10, 20, 30]).into_array_ref();
    let indices = UInt8Array::from_values(vec![3]).into_array_ref();
    assert_eq!(
        take(&array, &indices).unwrap_err(),
        DataError::TakeIndexInvalid {
            position: 0,
            len: 3
        }
    );
}

#[test]
fn every_integer_index_type_works() {
    check::<i8>(2, 0);
    check::<i16>(2, 0);
    check::<i32>(2, 0);
    check::<i64>(2, 0);
    check::<u8>(2, 0);
    check::<u16>(2, 0);
    check::<u32>(2, 0);
    check::<u64>(2, 0);
}

#[test]
fn a_non_integer_index_array_is_rejected() {
    let array = Int32Array::from_values(vec![10, 20, 30]).into_array_ref();
    let indices = StringArray::from_values(vec!["x"]).into_array_ref();
    assert!(matches!(
        take(&array, &indices),
        Err(DataError::DowncastFailed { .. })
    ));
}

#[test]
fn empty_indices_produce_an_empty_result() {
    let array = Int32Array::from_values(vec![10, 20, 30]).into_array_ref();
    let indices = Int32Array::from_values(Vec::new()).into_array_ref();
    let taken = take(&array, &indices).unwrap();
    assert!(taken.is_empty());
}

#[test]
fn take_batch_reorders_every_column_together() {
    let schema = Arc::new(Schema::new(vec![
        Field::required("id", DataType::Int32),
        Field::nullable("name", DataType::Utf8),
    ]));
    let batch = RecordBatch::try_new(
        schema,
        vec![
            Int32Array::from_values(vec![1, 2, 3]).into_array_ref(),
            StringArray::from_values(vec!["a", "b", "c"]).into_array_ref(),
        ],
    )
    .unwrap();
    let indices = Int32Array::from_values(vec![2, 0]).into_array_ref();
    let taken = take_batch(&batch, &indices).unwrap();
    assert_eq!(taken.num_rows(), 2);
    let ids = Int32Array::try_from_array(&taken.columns()[0]).unwrap();
    assert_eq!(ids.values(), vec![3, 1]);
    let names = StringArray::try_from_array(&taken.columns()[1]).unwrap();
    assert_eq!(names.get(0), Some("c"));
    assert_eq!(names.get(1), Some("a"));
}

#[test]
fn a_batch_without_columns_takes_only_the_count() {
    let batch = RecordBatch::try_new_with_row_count(Arc::new(Schema::new(vec![])), vec![], 3).unwrap();
    let indices = Int32Array::from_values(vec![9, 9]).into_array_ref();
    assert_eq!(take_batch(&batch, &indices).unwrap().num_rows(), 2);
}

#[test]
fn a_null_index_into_a_required_column_is_refused() {
    let batch = RecordBatch::from_payload(Int32Array::from_values(vec![1, 2]).into_array_ref());
    let indices = Int32Array::from_opt_iter(vec![Some(1), None]).into_array_ref();
    assert_eq!(
        take_batch(&batch, &indices).unwrap_err(),
        DataError::NullsInNonNullableColumn {
            index: 0,
            name: "data".to_owned(),
            null_count: 1
        }
    );
}

#[test]
fn taking_twice_takes_through() {
    let array = Int32Array::from_values(vec![10, 20, 30, 40]).into_array_ref();
    let first = Int32Array::from_values(vec![3, 1, 0]).into_array_ref();
    let second = Int32Array::from_values(vec![2, 0]).into_array_ref();
    let once = take(&array, &first).unwrap();
    let twice = take(&once, &second).unwrap();
    let through = Int32Array::from_values(vec![0, 3]).into_array_ref();
    assert_eq!(twice.as_ref(), take(&array, &through).unwrap().as_ref());
}

#[test]
fn a_batch_with_a_required_column_is_taken_by_present_indices() {
    let batch = RecordBatch::try_new(
        Arc::new(Schema::new(vec![
            Field::required("n", DataType::Int32),
            Field::new("m", DataType::Int32, true),
        ])),
        vec![
            Int32Array::from_values(vec![1, 2, 3]).into_array_ref(),
            Int32Array::from_opt_iter(vec![Some(4), None, Some(6)]).into_array_ref(),
        ],
    )
    .unwrap();
    let indices = Int32Array::from_values(vec![2, 1, 1]).into_array_ref();
    let taken = take_batch(&batch, &indices).unwrap();
    assert_eq!(taken.num_rows(), 3);
    assert_eq!(taken.schema(), batch.schema());
    let n = Int32Array::try_from_array(&taken.columns()[0]).unwrap();
    let m = Int32Array::try_from_array(&taken.columns()[1]).unwrap();
    assert_eq!(n.iter(), vec![Some(3), Some(2), Some(2)]);
    assert_eq!(m.iter(), vec![Some(6), None, None]);
}
