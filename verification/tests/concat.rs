use astrs_data::array::{
    BinaryArray, BooleanArray, FixedSizeBinaryArray, FixedSizeListArray, Float32Array, Int32Array, ListArray,
    NullArray, StringArray, StructArray, TimestampArray, UInt16Array, F32,
};
use astrs_data::kernel;
use astrs_data::kernel::concat_batches;
use astrs_data::{ArrayRef, DataError, DataType, Field, RecordBatch, Schema};
use std::sync::Arc;

/// The column of single-precision numbers.
fn f32s(values: Vec<f32>) -> Float32Array {
    Float32Array::from_values(values.into_iter().map(|v| F32::from_bits(v.to_bits())).collect())
}

#[test]
fn zero_arrays_is_an_error() {
    assert_eq!(
        kernel::concat(&[]).unwrap_err(),
        DataError::ColumnCountMismatch {
            fields: 1,
            columns: 0
        }
    );
}

#[test]
fn one_array_is_a_pointer_clone() {
    let array = Int32Array::from_values(vec![1, 2, 3]).into_array_ref();
    let result = kernel::concat(std::slice::from_ref(&array)).unwrap();
    assert!(Arc::ptr_eq(&array, &result));
}

#[test]
fn mismatched_types_are_rejected() {
    let a = Int32Array::from_values(vec![1]).into_array_ref();
    let b = StringArray::from_values(vec!["x"]).into_array_ref();
    assert!(matches!(
        kernel::concat(&[a, b]).unwrap_err(),
        DataError::TypeMismatch { .. }
    ));
}

#[test]
fn concat_null() {
    let a = NullArray::new(2).into_array_ref();
    let b = NullArray::new(3).into_array_ref();
    let result = kernel::concat(&[a, b]).unwrap();
    assert_eq!(result.len(), 5);
    assert_eq!(result.null_count(), 5);
}

#[test]
fn concat_boolean_propagates_absent_and_present_validity() {
    let a = BooleanArray::from_values(vec![true, false]).into_array_ref(); // no validity buffer
    let b = BooleanArray::from_opt_iter(vec![Some(true), None]).into_array_ref();
    let result = kernel::concat(&[a, b]).unwrap();
    let result = BooleanArray::try_from_array(&result).unwrap();
    assert_eq!(result.null_count(), 1);
    assert_eq!(
        result.iter(),
        vec![Some(true), Some(false), Some(true), None]
    );
}

#[test]
fn concat_primitive_three_way_with_mixed_validity() {
    let a = Int32Array::from_values(vec![1, 2]).into_array_ref();
    let b = Int32Array::from_opt_iter(vec![None, Some(30)]).into_array_ref();
    let c = Int32Array::from_values(vec![40]).into_array_ref();
    let result = kernel::concat(&[a, b, c]).unwrap();
    let result = Int32Array::try_from_array(&result).unwrap();
    assert_eq!(
        result.iter(),
        vec![Some(1), Some(2), None, Some(30), Some(40)]
    );
}

#[test]
fn concat_primitive_of_a_sliced_array_only_takes_the_window() {
    let full = Int32Array::from_values((0..10).collect());
    let window = full.slice(2, 3); // [2, 3, 4]
    let other = Int32Array::from_values(vec![100]);
    let result = kernel::concat(&[window.into_array_ref(), other.into_array_ref()]).unwrap();
    let result = Int32Array::try_from_array(&result).unwrap();
    assert_eq!(result.values(), vec![2, 3, 4, 100]);
}

#[test]
fn concat_timestamp_keeps_its_type() {
    let a = TimestampArray::from_nanos(vec![1, 2]).into_array_ref();
    let b = TimestampArray::from_nanos(vec![3]).into_array_ref();
    let result = kernel::concat(&[a, b]).unwrap();
    assert_eq!(result.data_type(), &DataType::Timestamp);
    assert_eq!(result.len(), 3);
}

#[test]
fn concat_utf8_re_bases_offsets_across_sliced_inputs() {
    let full = StringArray::from_values(vec!["aa", "bb", "cc"]);
    let window = full.slice(1, 2); // ["bb", "cc"], offsets not starting at 0
    let other = StringArray::from_values(vec!["dd"]);
    let result = kernel::concat(&[window.into_array_ref(), other.into_array_ref()]).unwrap();
    let result = StringArray::try_from_array(&result).unwrap();
    assert_eq!(result.get(0), Some("bb"));
    assert_eq!(result.get(1), Some("cc"));
    assert_eq!(result.get(2), Some("dd"));
    assert_eq!(result.value_offsets(), vec![0, 2, 4, 6]);
}

#[test]
fn concat_utf8_preserves_nulls() {
    let a = StringArray::from_opt_iter(vec![Some("x"), None]).into_array_ref();
    let b = StringArray::from_values(vec!["y"]).into_array_ref();
    let result = kernel::concat(&[a, b]).unwrap();
    let result = StringArray::try_from_array(&result).unwrap();
    assert_eq!(result.get(0), Some("x"));
    assert_eq!(result.get(1), None);
    assert_eq!(result.get(2), Some("y"));
}

#[test]
fn concat_binary_re_bases_like_utf8() {
    let full = BinaryArray::from_values(vec![&b"aa"[..], &b"bb"[..], &b"cc"[..]]);
    let window = full.slice(1, 2);
    let result = kernel::concat(&[
        window.into_array_ref(),
        BinaryArray::from_values(vec![&b"dd"[..]]).into_array_ref(),
    ])
    .unwrap();
    let result = BinaryArray::try_from_array(&result).unwrap();
    assert_eq!(result.get(0), Some(&b"bb"[..]));
    assert_eq!(result.get(1), Some(&b"cc"[..]));
    assert_eq!(result.get(2), Some(&b"dd"[..]));
}

#[test]
fn concat_fixed_size_binary() {
    let a = FixedSizeBinaryArray::try_from_values(2, vec![&b"aa"[..], &b"bb"[..]]).unwrap();
    let b = FixedSizeBinaryArray::try_from_values(2, vec![&b"cc"[..]]).unwrap();
    let result = kernel::concat(&[a.into_array_ref(), b.into_array_ref()]).unwrap();
    let result = FixedSizeBinaryArray::try_from_array(&result).unwrap();
    assert_eq!(result.len(), 3);
    assert_eq!(result.get(2), Some(&b"cc"[..]));
}

#[test]
fn concat_fixed_size_list_of_a_sliced_array_only_takes_the_window() {
    let field = Field::required("v", DataType::Int32);
    let full = FixedSizeListArray::try_new(
        field,
        3,
        Int32Array::from_values((0..12).collect()).into_array_ref(),
        None,
    )
    .unwrap();
    let sliced = full.slice(1, 2); // rows 1..3, child narrowed to exactly [3..9)
    let result = kernel::concat(&[sliced.into_array_ref()]).unwrap();
    let result = FixedSizeListArray::try_from_array(&result).unwrap();
    assert_eq!(result.len(), 2);
    assert_eq!(
        result.values().len(),
        6,
        "the child window, not the whole backing array"
    );
}

#[test]
fn concat_fixed_size_list_combines_children_and_validity() {
    let field = Field::required("v", DataType::Int32);
    let a = FixedSizeListArray::try_new(
        field.clone(),
        2,
        Int32Array::from_values(vec![1, 2, 3, 4]).into_array_ref(),
        Some(vec![true, false]),
    )
    .unwrap();
    let b = FixedSizeListArray::try_new(
        field,
        2,
        Int32Array::from_values(vec![5, 6]).into_array_ref(),
        None,
    )
    .unwrap();
    let result = kernel::concat(&[a.into_array_ref(), b.into_array_ref()]).unwrap();
    let result = FixedSizeListArray::try_from_array(&result).unwrap();
    assert_eq!(result.len(), 3);
    assert_eq!(result.null_count(), 1);
    assert!(result.get(1).is_none());
    let third = result.get(2).unwrap();
    let third = Int32Array::try_from_array(&third).unwrap();
    assert_eq!(third.values(), vec![5, 6]);
}

#[test]
fn concat_list_re_bases_child_windows_across_sliced_inputs() {
    let field = Field::required("v", DataType::Int32);
    let full = ListArray::try_from_lengths(
        field.clone(),
        vec![2, 0, 3],
        Int32Array::from_values((0..5).collect()).into_array_ref(),
    )
    .unwrap();
    let window = full.slice(1, 2); // rows: [] and [2,3,4], child NOT narrowed by ListArray::slice
    let other =
        ListArray::try_from_lengths(field, vec![1], Int32Array::from_values(vec![99]).into_array_ref())
            .unwrap();
    let result = kernel::concat(&[window.into_array_ref(), other.into_array_ref()]).unwrap();
    let result = ListArray::try_from_array(&result).unwrap();
    assert_eq!(result.len(), 3);
    assert_eq!(result.value_length(0), Some(0));
    let row1 = result.get(1).unwrap();
    let row1 = Int32Array::try_from_array(&row1).unwrap();
    assert_eq!(row1.values(), vec![2, 3, 4]);
    let row2 = result.get(2).unwrap();
    let row2 = Int32Array::try_from_array(&row2).unwrap();
    assert_eq!(row2.values(), vec![99]);
    // The child must not have dragged in the skipped [0,1] window from `full`.
    assert_eq!(result.values().len(), 4);
}

#[test]
fn concat_list_preserves_null_lists_distinct_from_empty_ones() {
    let field = Field::required("v", DataType::Int32);
    let a = ListArray::try_from_lengths(
        field.clone(),
        vec![2, 0],
        Int32Array::from_values(vec![1, 2]).into_array_ref(),
    )
    .unwrap()
    .with_validity(Some(vec![true, false]))
    .unwrap();
    let b =
        ListArray::try_from_lengths(field, vec![1], Int32Array::from_values(vec![9]).into_array_ref())
            .unwrap();
    let result = kernel::concat(&[a.into_array_ref(), b.into_array_ref()]).unwrap();
    let result = ListArray::try_from_array(&result).unwrap();
    assert!(result.get(0).is_some());
    assert!(result.get(1).is_none(), "null list, not merely empty");
    assert_eq!(result.value_length(1), Some(0));
    assert!(result.get(2).is_some());
}

#[test]
fn concat_list_carries_a_null_rows_nonzero_offset_span_without_corruption() {
    // Arrow's List layout does not require a null row's own offset span
    // to be zero-length — nulling a slot is a validity-bitmap fact, not
    // an offset-rewriting one. `[3, 2]`-length rows means row 1 spans
    // two elements ([3, 5)) *before* it is nulled, so this is a
    // genuinely different fixture from the existing "null row happens
    // to also be empty" coverage above.
    let field = Field::required("v", DataType::Int32);
    let a = ListArray::try_from_lengths(
        field.clone(),
        vec![3, 2],
        Int32Array::from_values((0..5).collect()).into_array_ref(),
    )
    .unwrap()
    .with_validity(Some(vec![true, false]))
    .unwrap();
    let b =
        ListArray::try_from_lengths(field, vec![1], Int32Array::from_values(vec![99]).into_array_ref())
            .unwrap();
    let result = kernel::concat(&[a.into_array_ref(), b.into_array_ref()]).unwrap();
    let result = ListArray::try_from_array(&result).unwrap();
    assert_eq!(result.len(), 3);
    assert!(result.get(1).is_none(), "row 1 is null");
    assert_eq!(
        result.value_length(1),
        Some(2),
        "a null row's own offset span is transported as-is, not collapsed to zero"
    );
    let row2 = result.get(2).unwrap();
    let row2 = Int32Array::try_from_array(&row2).unwrap();
    assert_eq!(row2.values(), vec![99]);
    assert_eq!(
        result.values().len(),
        6,
        "5 elements from `a` plus 1 from `b`, none dropped or duplicated around the null row"
    );
}

#[test]
fn concat_struct_concatenates_every_column_and_row_validity() {
    let fields = vec![
        Field::required("id", DataType::Int32),
        Field::nullable("name", DataType::Utf8),
    ];
    let a = StructArray::try_new(
        fields.clone(),
        vec![
            Int32Array::from_values(vec![1, 2]).into_array_ref(),
            StringArray::from_values(vec!["a", "b"]).into_array_ref(),
        ],
        Some(vec![true, false]),
    )
    .unwrap();
    let b = StructArray::try_new(
        fields,
        vec![
            Int32Array::from_values(vec![3]).into_array_ref(),
            StringArray::from_values(vec!["c"]).into_array_ref(),
        ],
        None,
    )
    .unwrap();
    let result = kernel::concat(&[a.into_array_ref(), b.into_array_ref()]).unwrap();
    let result = StructArray::try_from_array(&result).unwrap();
    assert_eq!(result.len(), 3);
    assert_eq!(result.null_count(), 1);
    assert!(result.get(1).is_none());
    assert!(result.get(2).is_some());
    let ids = Int32Array::try_from_array(&result.columns()[0]).unwrap();
    assert_eq!(ids.values(), vec![1, 2, 3]);
}

#[test]
fn concat_struct_with_zero_fields_still_tracks_row_count_and_validity() {
    let a = StructArray::try_new_with_len(Vec::new(), Vec::new(), 2, None).unwrap();
    let b = StructArray::try_new_with_len(
        Vec::new(),
        Vec::new(),
        1,
        Some(vec![false]),
    )
    .unwrap();
    let result = kernel::concat(&[a.into_array_ref(), b.into_array_ref()]).unwrap();
    assert_eq!(result.len(), 3);
    assert_eq!(result.null_count(), 1);
}

#[test]
fn concat_nested_struct_of_lists() {
    let inner_field = Field::required("v", DataType::Int32);
    let struct_fields = vec![Field::required("xs", DataType::list(inner_field.clone()))];
    let a = StructArray::try_new(
        struct_fields.clone(),
        vec![
            ListArray::try_from_lengths(
                inner_field.clone(),
                vec![2],
                Int32Array::from_values(vec![1, 2]).into_array_ref(),
            )
            .unwrap()
            .into_array_ref(),
        ],
        None,
    )
    .unwrap();
    let b = StructArray::try_new(
        struct_fields,
        vec![
            ListArray::try_from_lengths(
                inner_field,
                vec![1],
                Int32Array::from_values(vec![9]).into_array_ref(),
            )
            .unwrap()
            .into_array_ref(),
        ],
        None,
    )
    .unwrap();
    let result = kernel::concat(&[a.into_array_ref(), b.into_array_ref()]).unwrap();
    assert_eq!(result.len(), 2);
}

#[test]
fn concat_empty_arrays_of_every_family_produces_an_empty_result() {
    let cases: Vec<ArrayRef> = vec![
        NullArray::new(0).into_array_ref(),
        BooleanArray::from_values(Vec::new()).into_array_ref(),
        Int32Array::from_values(Vec::new()).into_array_ref(),
        Float32Array::from_values(Vec::new()).into_array_ref(),
        StringArray::from_values(Vec::new()).into_array_ref(),
        BinaryArray::from_values(Vec::new()).into_array_ref(),
    ];
    for array in cases {
        let pair = [Arc::clone(&array), Arc::clone(&array)];
        let result = kernel::concat(&pair).unwrap();
        assert!(result.is_empty(), "{:?}", array.data_type());
        assert_eq!(result.data_type(), array.data_type());
    }
}

#[test]
fn concat_batches_stitches_rows_across_a_multi_column_schema() {
    let schema = Arc::new(Schema::new(vec![
        Field::required("id", DataType::Int32),
        Field::nullable("weight", DataType::Float32),
    ]));
    let a = RecordBatch::try_new(
        schema.clone(),
        vec![
            Int32Array::from_values(vec![1, 2]).into_array_ref(),
            Float32Array::from_opt_iter(vec![Some(F32::from_bits(1.5f32.to_bits())), None]).into_array_ref(),
        ],
    )
    .unwrap();
    let b = RecordBatch::try_new(
        schema,
        vec![
            Int32Array::from_values(vec![3]).into_array_ref(),
            f32s(vec![2.5]).into_array_ref(),
        ],
    )
    .unwrap();
    let combined = concat_batches(&[a, b]).unwrap();
    assert_eq!(combined.num_rows(), 3);
    let ids = Int32Array::try_from_array(&combined.columns()[0]).unwrap();
    assert_eq!(ids.values(), vec![1, 2, 3]);
}

#[test]
fn concat_batches_rejects_mismatched_schemas() {
    let a = RecordBatch::from_payload(Int32Array::from_values(vec![1]).into_array_ref());
    let other_schema = Arc::new(Schema::new(vec![Field::required("x", DataType::UInt16)]));
    let b = RecordBatch::try_new(
        other_schema,
        vec![UInt16Array::from_values(vec![1u16]).into_array_ref()],
    )
    .unwrap();
    assert!(matches!(
        concat_batches(&[a, b]),
        Err(DataError::TypeMismatch { .. })
    ));
}

#[test]
fn concat_batches_zero_is_an_error_and_one_is_a_clone() {
    assert!(concat_batches(&[]).is_err());
    let batch = RecordBatch::from_payload(Int32Array::from_values(vec![1]).into_array_ref());
    let result = concat_batches(std::slice::from_ref(&batch)).unwrap();
    assert_eq!(result, batch);
}

#[test]
fn concat_batches_adds_up_the_rows_of_batches_without_columns() {
    let bare = |rows| RecordBatch::try_new_with_row_count(Arc::new(Schema::default()), Vec::new(), rows).unwrap();
    let two = concat_batches(&[bare(5), bare(7)]).unwrap();
    assert_eq!((two.num_rows(), two.num_columns()), (12, 0));
    assert_eq!(concat_batches(&[bare(1), bare(0), bare(2)]).unwrap().num_rows(), 3);
}
