use arrow_array::{Int32Array as ArrowInt32Array, RecordBatch as ArrowRecordBatch};
use arrow_schema::{DataType as ArrowDataType, Field as ArrowField, Schema as ArrowSchema};
use astrs_data::array::{
    slice_array, BinaryArray, BooleanArray, FixedSizeBinaryArray, FixedSizeListArray, Int32Array, ListArray, NullArray,
    StringArray, StructArray,
};
use astrs_data::interop::{from_arrow_record_batch, to_arrow_record_batch, ArrowBatch, InteropError};
use astrs_data::{ArrayRef, DataType, Field, RecordBatch, RecordBatchOptions, Schema};
use std::sync::Arc;

#[test]
fn single_column_payload_batch_round_trips() {
    let batch = RecordBatch::from_payload(
        Int32Array::from_opt_iter(vec![Some(1), None, Some(3)]).into_array_ref(),
    );
    let arrow_batch = to_arrow_record_batch(&batch).unwrap();
    assert_eq!(arrow_batch.0.num_rows(), 3);
    assert_eq!(arrow_batch.0.num_columns(), 1);

    let back = from_arrow_record_batch(&arrow_batch).unwrap();
    assert_eq!(back, batch);
}

#[test]
fn multi_column_batch_round_trips_with_metadata() {
    let schema = Arc::new(
        Schema::new(vec![
            Field::new("id", DataType::Int32, false),
            Field::new("name", DataType::Utf8, true),
        ])
        .with_metadata_entry("_schema_hash", "deadbeef"),
    );
    let batch = RecordBatch::try_new(
        schema,
        vec![
            Int32Array::from_values(vec![7, 8]).into_array_ref(),
            StringArray::from_opt_iter(vec![Some("lidar"), None]).into_array_ref(),
        ],
    )
    .unwrap();

    let arrow_batch = to_arrow_record_batch(&batch).unwrap();
    assert_eq!(
        arrow_batch.0.schema_ref().metadata().get("_schema_hash"),
        Some(&"deadbeef".to_owned())
    );

    let back = from_arrow_record_batch(&arrow_batch).unwrap();
    assert_eq!(back, batch);
    assert_eq!(
        back.schema().metadata_value("_schema_hash"),
        Some("deadbeef")
    );
}

#[test]
fn zero_column_batch_with_rows_round_trips() {
    let batch =
        RecordBatch::try_new_with_row_count(Arc::new(Schema::default()), Vec::new(), 12)
            .unwrap();
    let arrow_batch = to_arrow_record_batch(&batch).unwrap();
    assert_eq!(arrow_batch.0.num_rows(), 12);
    assert_eq!(arrow_batch.0.num_columns(), 0);

    let back = from_arrow_record_batch(&arrow_batch).unwrap();
    assert_eq!(back.num_rows(), 12);
    assert_eq!(back.num_columns(), 0);
}

#[test]
fn from_arrow_side_round_trips_too() {
    let arrow_schema = Arc::new(ArrowSchema::new(vec![ArrowField::new(
        "data",
        ArrowDataType::Int32,
        false,
    )]));
    let arrow_batch = ArrowRecordBatch::try_new(
        arrow_schema,
        vec![Arc::new(ArrowInt32Array::from(vec![1, 2, 3]))],
    )
    .unwrap();

    let batch = from_arrow_record_batch(&ArrowBatch(arrow_batch)).unwrap();
    assert_eq!(batch.num_rows(), 3);
    let column = batch.column(0).unwrap();
    assert_eq!(
        Int32Array::try_from_array(column).unwrap().values(),
        vec![1, 2, 3]
    );
}

#[test]
fn arrow_refuses_nulls_under_a_required_field() {
    let schema = Arc::new(Schema::new(vec![Field::required("n", DataType::Int32)]));
    let batch = RecordBatch::try_new_with_options(
        schema,
        vec![Int32Array::from_opt_iter(vec![Some(1), None]).into_array_ref()],
        RecordBatchOptions::new().with_nullability_check(false),
    )
    .unwrap();
    assert!(matches!(
        to_arrow_record_batch(&batch),
        Err(InteropError::Arrow(text)) if text.contains("non-nullable")
    ));
}

#[test]
fn columns_arrive_at_arrow_under_their_names() {
    let schema = Arc::new(Schema::new(vec![
        Field::new("id", DataType::Int32, false),
        Field::new("name", DataType::Utf8, true),
    ]));
    let batch = RecordBatch::try_new(
        schema,
        vec![
            Int32Array::from_values(vec![7, 8]).into_array_ref(),
            StringArray::from_opt_iter(vec![Some("lidar"), None]).into_array_ref(),
        ],
    )
    .unwrap();
    let arrow_batch = to_arrow_record_batch(&batch).unwrap().0;
    let ids = arrow_batch.column_by_name("id").unwrap();
    assert_eq!(ids.as_any().downcast_ref::<ArrowInt32Array>().unwrap().values(), &[7, 8]);
    assert_eq!(arrow_batch.column(1).null_count(), 1);
}

#[test]
fn the_try_from_impls_agree_with_the_functions_they_delegate_to() {
    let batch = RecordBatch::from_payload(Int32Array::from_values(vec![1, 2, 3]).into_array_ref());

    let via_function = to_arrow_record_batch(&batch).unwrap();
    let via_trait = ArrowBatch::try_from(&batch).unwrap();
    assert_eq!(via_function.0, via_trait.0);

    let back_via_function = from_arrow_record_batch(&via_trait).unwrap();
    let back_via_trait = RecordBatch::try_from(&via_trait).unwrap();
    assert_eq!(back_via_function, batch);
    assert_eq!(back_via_trait, batch);
}

#[test]
fn columns_of_every_shape_return_from_an_arrow_batch() {
    let bits = BooleanArray::from_values((0..40).map(|i| i % 5 == 0).collect()).into_array_ref();
    let numbers = Int32Array::from_opt_iter(vec![Some(1), None, Some(3), Some(4), None, Some(6)]).into_array_ref();
    let lists = ListArray::try_from_lengths(
        Field::new("item", DataType::Int32, true),
        vec![2usize, 0, 4],
        numbers.clone(),
    )
    .unwrap()
    .into_array_ref();
    let rows = StructArray::try_new(
        vec![Field::new("n", DataType::Int32, true)],
        vec![numbers.clone()],
        Some(vec![true, true, false, true, true, true]),
    )
    .unwrap()
    .into_array_ref();
    let pairs = FixedSizeListArray::try_new(
        Field::new("row", rows.data_type().clone(), true),
        2,
        rows,
        Some(vec![true, false, true]),
    )
    .unwrap()
    .into_array_ref();
    let columns: Vec<ArrayRef> = vec![
        slice_array(&bits, 11, 3),
        slice_array(&numbers, 1, 3),
        lists,
        pairs,
        BinaryArray::from_opt_iter(vec![Some(&b"aa"[..]), None, Some(&b""[..])]).into_array_ref(),
        NullArray::new(3).into_array_ref(),
        FixedSizeBinaryArray::try_from_values(2, vec![b"ab".as_slice(), b"cd", b"ef"]).unwrap().into_array_ref(),
    ];
    let fields = columns.iter().enumerate().map(|(i, c)| Field::new(&format!("c{i}"), c.data_type().clone(), true));
    let batch = RecordBatch::try_new(Arc::new(Schema::new(fields.collect())), columns).unwrap();
    for part in [batch.slice(0, 3), batch.slice(1, 2), batch.slice(3, 0)] {
        let sent = to_arrow_record_batch(&part).unwrap();
        assert_eq!(sent.0.num_rows(), part.num_rows());
        assert_eq!(from_arrow_record_batch(&sent).unwrap(), part);
    }
}
