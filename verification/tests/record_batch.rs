use astrs_data::array::{BooleanArray, Int32Array, Int64Array, ListArray, NullArray, StringArray};
use astrs_data::{
    ColumnTypeCheck, DataError, DataType, Field, RecordBatch, RecordBatchOptions, Schema,
};
use std::sync::Arc;

fn int_schema(nullable: bool) -> Arc<Schema> {
    Arc::new(Schema::new(vec![Field::new(
        "a",
        DataType::Int32,
        nullable,
    )]))
}

#[test]
fn try_new_accepts_matching_columns() {
    let batch = RecordBatch::try_new(
        int_schema(false),
        vec![Int32Array::from_values(vec![1, 2, 3]).into_array_ref()],
    )
    .unwrap();
    assert_eq!(batch.num_rows(), 3);
    assert_eq!(batch.num_columns(), 1);
    assert!(!batch.is_empty());
}

#[test]
fn column_count_is_checked() {
    let err = RecordBatch::try_new(int_schema(false), Vec::new()).unwrap_err();
    assert_eq!(
        err,
        DataError::ColumnCountMismatch {
            fields: 1,
            columns: 0
        }
    );
}

#[test]
fn column_length_is_checked() {
    let schema = Arc::new(Schema::new(vec![
        Field::required("a", DataType::Int32),
        Field::required("b", DataType::Int32),
    ]));
    let err = RecordBatch::try_new(
        schema,
        vec![
            Int32Array::from_values(vec![1, 2]).into_array_ref(),
            Int32Array::from_values(vec![1]).into_array_ref(),
        ],
    )
    .unwrap_err();
    assert_eq!(
        err,
        DataError::ColumnLengthMismatch {
            index: 1,
            name: "b".to_owned(),
            expected: 2,
            actual: 1,
        }
    );
}

#[test]
fn column_type_is_checked() {
    let err = RecordBatch::try_new(
        int_schema(true),
        vec![StringArray::from_values(vec!["x"]).into_array_ref()],
    )
    .unwrap_err();
    assert_eq!(
        err,
        DataError::type_mismatch(DataType::Int32, DataType::Utf8)
    );
}

#[test]
fn nulls_in_non_nullable_columns_are_rejected() {
    let column = Int32Array::from_opt_iter(vec![Some(1), None]).into_array_ref();
    let err = RecordBatch::try_new(int_schema(false), vec![column.clone()]).unwrap_err();
    assert_eq!(
        err,
        DataError::NullsInNonNullableColumn {
            index: 0,
            name: "a".to_owned(),
            null_count: 1,
        }
    );

    // The same batch is fine once the field is nullable.
    assert!(RecordBatch::try_new(int_schema(true), vec![column]).is_ok());
}

#[test]
fn nullability_check_can_be_disabled() {
    let column = Int32Array::from_opt_iter(vec![Some(1), None]).into_array_ref();
    let options = RecordBatchOptions::default().with_nullability_check(false);
    assert!(
        RecordBatch::try_new_with_options(int_schema(false), vec![column], options).is_ok()
    );
}

#[test]
fn layout_type_check_tolerates_child_field_names() {
    let declared = DataType::list(Field::new("item", DataType::Int32, true));
    let actual = DataType::list(Field::new("element", DataType::Int32, true));
    let schema = Arc::new(Schema::new(vec![Field::nullable("l", declared)]));
    let column = ListArray::try_new(
        Field::new("element", DataType::Int32, true),
        vec![0i32, 1],
        Int32Array::from_values(vec![7]).into_array_ref(),
        None,
    )
    .unwrap();
    let column = column.into_array_ref();
    assert_eq!(column.data_type(), &actual);

    assert!(RecordBatch::try_new(Arc::clone(&schema), vec![Arc::clone(&column)]).is_err());
    let options = RecordBatchOptions::default().with_column_types(ColumnTypeCheck::Layout);
    assert!(RecordBatch::try_new_with_options(schema, vec![column], options).is_ok());
}

#[test]
fn zero_columns_can_still_have_rows() {
    let batch =
        RecordBatch::try_new_with_row_count(Arc::new(Schema::default()), Vec::new(), 12)
            .unwrap();
    assert_eq!(batch.num_rows(), 12);
    assert_eq!(batch.num_columns(), 0);
    assert!(!batch.is_empty());
    assert_eq!(batch.slice(4, 100).num_rows(), 8);
}

#[test]
fn zero_columns_infer_zero_rows() {
    let batch = RecordBatch::try_new(Arc::new(Schema::default()), Vec::new()).unwrap();
    assert_eq!(batch.num_rows(), 0);
    assert!(batch.is_empty());
}

#[test]
fn explicit_row_count_is_enforced_against_columns() {
    let err = RecordBatch::try_new_with_row_count(
        int_schema(false),
        vec![Int32Array::from_values(vec![1, 2]).into_array_ref()],
        3,
    )
    .unwrap_err();
    assert!(matches!(err, DataError::ColumnLengthMismatch { .. }));
}

#[test]
fn payload_batch_uses_the_data_column() {
    let batch = RecordBatch::from_payload(Int64Array::from_values(vec![1, 2]).into_array_ref());
    assert_eq!(
        batch.schema().field(0).map(Field::name),
        Some(astrs_data::DATA_COLUMN)
    );
    assert!(batch.payload_column().is_some());
    assert!(!batch.schema().fields()[0].is_nullable());

    let nullable =
        RecordBatch::from_payload(Int64Array::from_opt_iter(vec![None, Some(1)]).into_array_ref());
    assert!(nullable.schema().fields()[0].is_nullable());
}

#[test]
fn empty_batch_matches_its_schema() {
    let schema = Arc::new(Schema::new(vec![
        Field::nullable("s", DataType::Utf8),
        Field::nullable("b", DataType::Bool),
    ]));
    let batch = RecordBatch::try_new_empty(Arc::clone(&schema)).unwrap();
    assert_eq!(batch.num_rows(), 0);
    assert_eq!(batch.num_columns(), 2);
    assert_eq!(batch.schema(), &schema);
}

#[test]
fn slicing_clamps_and_stays_zero_copy() {
    let schema = Arc::new(Schema::new(vec![
        Field::required("a", DataType::Int32),
        Field::nullable("s", DataType::Utf8),
    ]));
    let batch = RecordBatch::try_new(
        schema,
        vec![
            Int32Array::from_values(vec![1, 2, 3, 4]).into_array_ref(),
            StringArray::from_opt_iter(vec![Some("a"), None, Some("c"), Some("d")])
                .into_array_ref(),
        ],
    )
    .unwrap();

    let window = batch.slice(1, 2);
    assert_eq!(window.num_rows(), 2);
    assert_eq!(window.columns()[0].len(), 2);
    assert_eq!(window.columns()[1].null_count(), 1);

    assert_eq!(batch.slice(4, 4).num_rows(), 0);
    assert_eq!(batch.slice(99, 4).num_rows(), 0);
    assert_eq!(batch.slice(2, 99).num_rows(), 2);
}

#[test]
fn try_slice_reports_out_of_range() {
    let batch = RecordBatch::from_payload(Int32Array::from_values(vec![1, 2, 3]).into_array_ref());
    assert_eq!(batch.try_slice(1, 2).unwrap().num_rows(), 2);
    assert_eq!(
        batch.try_slice(2, 2).unwrap_err(),
        DataError::SliceOutOfBounds {
            offset: 2,
            len: 2,
            available: 3
        }
    );
    assert!(batch.try_slice(1, usize::MAX).is_err());
}

#[test]
fn projection_reorders_and_drops() {
    let schema = Arc::new(Schema::new(vec![
        Field::required("a", DataType::Int32),
        Field::required("b", DataType::Bool),
        Field::nullable("c", DataType::Utf8),
    ]));
    let batch = RecordBatch::try_new(
        schema,
        vec![
            Int32Array::from_values(vec![1]).into_array_ref(),
            BooleanArray::from_values(vec![true]).into_array_ref(),
            StringArray::from_values(vec!["z"]).into_array_ref(),
        ],
    )
    .unwrap();

    let projected = batch.project(&[2, 0]).unwrap();
    assert_eq!(projected.num_columns(), 2);
    assert_eq!(projected.schema().field(0).map(Field::name), Some("c"));
    assert_eq!(projected.num_rows(), 1);

    assert!(batch.project(&[9]).is_err());

    let by_name = batch.project_by_name(&["b"]).unwrap();
    assert_eq!(by_name.schema().field(0).map(Field::name), Some("b"));
    assert!(batch.project_by_name(&["missing"]).is_err());
}

#[test]
fn projecting_nothing_keeps_the_row_count() {
    let batch = RecordBatch::from_payload(Int32Array::from_values(vec![1, 2, 3]).into_array_ref());
    let projected = batch.project(&[]).unwrap();
    assert_eq!(projected.num_columns(), 0);
    assert_eq!(projected.num_rows(), 3);
}

#[test]
fn column_lookup_by_name_and_index() {
    let batch = RecordBatch::from_payload(Int32Array::from_values(vec![1]).into_array_ref());
    assert!(batch.column(0).is_some());
    assert!(batch.column(1).is_none());
    assert!(batch.try_column(1).is_err());
    assert!(batch.column_by_name(astrs_data::DATA_COLUMN).is_some());
    assert!(batch.column_by_name("nope").is_none());
    assert_eq!(
        batch.try_column_by_name("nope").unwrap_err(),
        DataError::FieldNotFound {
            name: "nope".to_owned()
        }
    );
}

#[test]
fn duplicate_names_resolve_to_the_first_column() {
    let schema = Arc::new(Schema::new(vec![
        Field::required("dup", DataType::Int32),
        Field::required("dup", DataType::Int64),
    ]));
    let batch = RecordBatch::try_new(
        schema,
        vec![
            Int32Array::from_values(vec![1]).into_array_ref(),
            Int64Array::from_values(vec![2]).into_array_ref(),
        ],
    )
    .unwrap();
    assert_eq!(
        batch.column_by_name("dup").map(|c| c.data_type().clone()),
        Some(DataType::Int32)
    );
}

#[test]
fn schema_can_be_replaced_when_compatible() {
    let batch = RecordBatch::from_payload(Int32Array::from_values(vec![1, 2]).into_array_ref());
    let renamed = Arc::new(Schema::new(vec![Field::required("x", DataType::Int32)]));
    let batch = batch
        .try_with_schema(renamed, RecordBatchOptions::default())
        .unwrap();
    assert!(batch.column_by_name("x").is_some());

    let wrong = Arc::new(Schema::new(vec![Field::required("x", DataType::Int64)]));
    assert!(
        batch
            .try_with_schema(wrong, RecordBatchOptions::default())
            .is_err()
    );
}

#[test]
fn replacing_a_schema_on_a_zero_column_batch_keeps_the_row_count() {
    let batch = RecordBatch::try_new_with_row_count(Arc::new(Schema::default()), Vec::new(), 5)
        .unwrap();
    let batch = batch
        .try_with_schema(Arc::new(Schema::default()), RecordBatchOptions::default())
        .unwrap();
    assert_eq!(batch.num_rows(), 5);
}

#[test]
fn metadata_entries_are_attached_to_the_schema() {
    let batch = RecordBatch::from_payload(Int32Array::from_values(vec![1]).into_array_ref())
        .with_metadata_entry("_schema_hash", "0x1234")
        .with_metadata_entry("producer", "camera");
    assert_eq!(
        batch.schema().metadata_value("_schema_hash"),
        Some("0x1234")
    );
    assert_eq!(batch.schema().metadata_value("producer"), Some("camera"));
}

#[test]
fn equality_compares_values_not_provenance() {
    let long =
        RecordBatch::from_payload(Int32Array::from_values(vec![9, 1, 2, 9]).into_array_ref());
    let window = long.slice(1, 2);
    let direct = RecordBatch::from_payload(Int32Array::from_values(vec![1, 2]).into_array_ref());
    assert_eq!(window, direct);

    let other = RecordBatch::from_payload(Int32Array::from_values(vec![1, 3]).into_array_ref());
    assert_ne!(window, other);
}

#[test]
fn equality_distinguishes_schema_metadata() {
    let a = RecordBatch::from_payload(Int32Array::from_values(vec![1]).into_array_ref());
    let b = a.clone().with_metadata_entry("k", "v");
    assert_ne!(a, b);
    assert!(a.layout_eq(&b));
}

#[test]
fn layout_equality_ignores_labels() {
    let a = RecordBatch::from_payload(Int32Array::from_values(vec![1, 2]).into_array_ref());
    let renamed = Arc::new(Schema::new(vec![Field::nullable("other", DataType::Int32)]));
    let b = a
        .clone()
        .try_with_schema(renamed, RecordBatchOptions::default())
        .unwrap();
    assert!(a.layout_eq(&b));
    assert_ne!(a, b);

    let shorter = a.slice(0, 1);
    assert!(!a.layout_eq(&shorter));
}

#[test]
fn iteration_pairs_fields_with_columns() {
    let schema = Arc::new(Schema::new(vec![
        Field::required("a", DataType::Int32),
        Field::required("b", DataType::Bool),
    ]));
    let batch = RecordBatch::try_new(
        schema,
        vec![
            Int32Array::from_values(vec![1]).into_array_ref(),
            BooleanArray::from_values(vec![false]).into_array_ref(),
        ],
    )
    .unwrap();

    let names: Vec<_> = batch.iter().into_iter().map(|(field, _)| field.name()).collect();
    assert_eq!(names, vec!["a", "b"]);

    let types: Vec<_> = batch
        .iter()
        .into_iter()
        .map(|(_, column)| column.data_type().clone())
        .collect();
    assert_eq!(types, vec![DataType::Int32, DataType::Bool]);
}

#[test]
fn null_columns_are_ordinary_columns() {
    let schema = Arc::new(Schema::new(vec![Field::nullable("n", DataType::Null)]));
    let batch = RecordBatch::try_new(schema, vec![NullArray::new(4).into_array_ref()]).unwrap();
    assert_eq!(batch.num_rows(), 4);
    assert_eq!(batch.columns()[0].null_count(), 4);
    assert_eq!(batch.slice(1, 2).num_rows(), 2);
}

#[test]
fn null_column_under_a_required_field_is_rejected() {
    let schema = Arc::new(Schema::new(vec![Field::required("n", DataType::Null)]));
    assert!(RecordBatch::try_new(schema, vec![NullArray::new(1).into_array_ref()]).is_err());
}

#[test]
fn buffer_memory_is_reported() {
    let batch =
        RecordBatch::from_payload(Int32Array::from_values(vec![1, 2, 3, 4]).into_array_ref());
    assert!(batch.buffer_memory_size() >= 16);
    let empty = RecordBatch::try_new(Arc::new(Schema::default()), Vec::new()).unwrap();
    assert_eq!(empty.buffer_memory_size(), 0);
}

#[test]
fn debug_names_the_row_count() {
    let batch = RecordBatch::from_payload(Int32Array::from_values(vec![1]).into_array_ref());
    let text = format!("{batch:?}");
    assert!(text.contains("RecordBatch"), "{text}");
    assert!(text.contains("rows"), "{text}");
}

#[test]
fn options_are_composable() {
    let options = RecordBatchOptions::new()
        .with_row_count(3)
        .with_column_types(ColumnTypeCheck::Unchecked)
        .with_nullability_check(false);
    assert_eq!(options.row_count, Some(3));
    assert_eq!(options.column_types, ColumnTypeCheck::Unchecked);
    assert!(!options.check_nullability);

    // With every check relaxed only the length still matters.
    let schema = Arc::new(Schema::new(vec![Field::required("a", DataType::Utf8)]));
    let column = Int32Array::from_opt_iter(vec![Some(1), None, Some(3)]).into_array_ref();
    assert!(RecordBatch::try_new_with_options(schema, vec![column], options).is_ok());
}
