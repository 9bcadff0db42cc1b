use arrow_array::{Array, ArrayRef as ArrowArrayRef};
use arrow_schema::{DataType as ArrowDataType, TimeUnit};
use astrs_data::array::{
    slice_array, BinaryArray, BooleanArray, DurationArray, FixedSizeBinaryArray, FixedSizeListArray, Float16Array,
    Float32Array, Int32Array, Int8Array, ListArray, NullArray, StringArray, StructArray, TimestampArray, F16, F32,
};
use astrs_data::interop::{to_array_data, InteropError};
use astrs_data::array::Array as Column;
use astrs_data::buffer::Offsets;
use astrs_data::{ArrayRef, Bitmap, Buffer, DataType, Field};
use std::sync::Arc;

/// The column as arrow has it.
fn to_arrow_array(array: &ArrayRef) -> Result<ArrowArrayRef, InteropError> {
    to_array_data(array).map(arrow_array::make_array)
}

/// Single-precision numbers.
fn f32s(values: Vec<f32>) -> Float32Array {
    Float32Array::from_values(values.into_iter().map(|v| F32::from_bits(v.to_bits())).collect())
}

#[test]
fn null_array_has_no_buffers_and_no_nulls() {
    let array = NullArray::new(5).into_array_ref();
    let arrow_array = to_arrow_array(&array).unwrap();
    assert_eq!(arrow_array.len(), 5);
    // That every slot is null is implicit in the type.
    assert_eq!(arrow_array.null_count(), 0);
    assert_eq!(arrow_array.logical_null_count(), 5);
    assert_eq!(arrow_array.data_type(), &ArrowDataType::Null);
}

#[test]
fn primitive_values_convert() {
    let array = Int32Array::from_values(vec![1, 2, 3]);
    let array = array.into_array_ref();
    let arrow_array = to_arrow_array(&array).unwrap();
    assert_eq!(arrow_array.data_type(), &ArrowDataType::Int32);
    let downcast = arrow_array.as_any().downcast_ref::<arrow_array::Int32Array>().unwrap();
    assert_eq!(downcast.values(), &[1, 2, 3]);
}

#[test]
fn float16_converts_by_raw_bytes_no_half_dependency_needed() {
    let array =
        Float16Array::from_values(vec![F16::from_bits(0x3E00), F16::from_bits(0xC000)]).into_array_ref();
    let arrow_array = to_arrow_array(&array).unwrap();
    let downcast = arrow_array.as_any().downcast_ref::<arrow_array::Float16Array>().unwrap();
    assert_eq!(downcast.value(0).to_f32(), 1.5);
    assert_eq!(downcast.value(1).to_f32(), -2.0);
}

#[test]
fn timestamp_and_duration_use_the_pinned_nanosecond_unit() {
    let stamps = TimestampArray::from_nanos(vec![1, 2]).into_array_ref();
    let arrow_stamps = to_arrow_array(&stamps).unwrap();
    assert_eq!(
        arrow_stamps.data_type(),
        &ArrowDataType::Timestamp(TimeUnit::Nanosecond, None)
    );

    let gaps = DurationArray::from_nanos(vec![9]).into_array_ref();
    let arrow_gaps = to_arrow_array(&gaps).unwrap();
    assert_eq!(
        arrow_gaps.data_type(),
        &ArrowDataType::Duration(TimeUnit::Nanosecond)
    );
}

#[test]
fn boolean_values_convert_at_a_non_byte_aligned_offset() {
    let source: Vec<bool> = (0..40).map(|i| i % 5 == 0).collect();
    let full = BooleanArray::from_values(source.clone()).into_array_ref();
    let sliced = slice_array(&full, 11, 21);
    assert_ne!(to_array_data(&sliced).unwrap().offset() % 8, 0, "the interesting case");

    let arrow_array = to_arrow_array(&sliced).unwrap();
    let downcast = arrow_array.as_any().downcast_ref::<arrow_array::BooleanArray>().unwrap();
    assert_eq!(downcast.len(), 21);
    for i in 0..21 {
        assert_eq!(downcast.value(i), source[11 + i], "index {i}");
    }
}

#[test]
fn binary_and_string_families_carry_offsets_and_values() {
    let source = BinaryArray::from_opt_iter(vec![Some(&b"aa"[..]), None, Some(&b"cccc"[..])]);
    let array = source.into_array_ref();
    let arrow_array = to_arrow_array(&array).unwrap();
    let downcast = arrow_array.as_any().downcast_ref::<arrow_array::BinaryArray>().unwrap();
    assert_eq!(downcast.value(0), b"aa");
    assert!(downcast.is_null(1));
    assert_eq!(downcast.value(2), b"cccc");

    let strings = StringArray::from_values(vec!["lidar", "camera"]).into_array_ref();
    let arrow_strings = to_arrow_array(&strings).unwrap();
    let downcast = arrow_strings.as_any().downcast_ref::<arrow_array::StringArray>().unwrap();
    assert_eq!(downcast.value(0), "lidar");
    assert_eq!(downcast.value(1), "camera");
}

#[test]
fn fixed_size_binary_converts() {
    let source =
        FixedSizeBinaryArray::try_from_values(4, vec![b"abcd".as_slice(), b"efgh"]).unwrap();
    let array = source.into_array_ref();
    let arrow_array = to_arrow_array(&array).unwrap();
    let downcast = arrow_array.as_any().downcast_ref::<arrow_array::FixedSizeBinaryArray>().unwrap();
    assert_eq!(downcast.value(0), b"abcd");
    assert_eq!(downcast.value(1), b"efgh");
}

#[test]
fn list_of_primitives_converts_with_its_child() {
    let array = ListArray::try_from_lengths(
        Field::new("item", DataType::Int32, true),
        vec![2usize, 0, 3],
        Int32Array::from_values(vec![1, 2, 3, 4, 5]).into_array_ref(),
    )
    .unwrap()
    .into_array_ref();
    let arrow_array = to_arrow_array(&array).unwrap();
    let downcast = arrow_array.as_any().downcast_ref::<arrow_array::ListArray>().unwrap();
    assert_eq!(downcast.len(), 3);
    assert_eq!(downcast.value_length(0), 2);
    assert_eq!(downcast.value_length(1), 0);
    assert_eq!(downcast.value_length(2), 3);
}

#[test]
fn fixed_size_list_converts_with_its_windowed_child() {
    let values = f32s(vec![1.0, 2.0, 3.0, 4.0, 5.0, 6.0]);
    let array = FixedSizeListArray::try_new(
        Field::new("xyz", DataType::Float32, false),
        3,
        values.into_array_ref(),
        None,
    )
    .unwrap();
    let full = array.into_array_ref();
    let sliced = slice_array(&full, 1, 1);
    let arrow_array = to_arrow_array(&sliced).unwrap();
    let downcast = arrow_array.as_any().downcast_ref::<arrow_array::FixedSizeListArray>().unwrap();
    assert_eq!(downcast.len(), 1);
    assert_eq!(downcast.value_length(), 3);
}

#[test]
fn struct_array_converts_every_column() {
    let a = Int32Array::from_values(vec![1, 2]).into_array_ref();
    let b = StringArray::from_values(vec!["x", "y"]).into_array_ref();
    let array = StructArray::try_new(
        vec![
            Field::new("a", DataType::Int32, false),
            Field::new("b", DataType::Utf8, false),
        ],
        vec![a, b],
        None,
    )
    .unwrap()
    .into_array_ref();
    let arrow_array = to_arrow_array(&array).unwrap();
    let downcast = arrow_array.as_any().downcast_ref::<arrow_array::StructArray>().unwrap();
    assert_eq!(downcast.num_columns(), 2);
    assert_eq!(downcast.column(0).len(), 2);
}

#[test]
fn nested_struct_of_list_round_trips_the_shape() {
    let child = ListArray::try_from_lengths(
        Field::new("item", DataType::Int8, true),
        vec![1usize, 3],
        Int8Array::from_values(vec![1, 2, 3, 4]).into_array_ref(),
    )
    .unwrap()
    .into_array_ref();
    let array = StructArray::try_new(
        vec![Field::new(
            "seq",
            DataType::list(Field::new("item", DataType::Int8, true)),
            false,
        )],
        vec![child],
        None,
    )
    .unwrap()
    .into_array_ref();
    let arrow_array = to_arrow_array(&array).unwrap();
    let downcast = arrow_array.as_any().downcast_ref::<arrow_array::StructArray>().unwrap();
    let list_col = downcast
        .column(0)
        .as_any()
        .downcast_ref::<arrow_array::ListArray>()
        .unwrap();
    assert_eq!(list_col.value_length(0), 1);
    assert_eq!(list_col.value_length(1), 3);
}

#[test]
fn what_arrow_refuses_is_reported_with_its_text() {
    let child = Int32Array::from_opt_iter(vec![Some(1), None]).into_array_ref();
    let array = ListArray::try_from_lengths(Field::new("item", DataType::Int32, false), vec![2usize], child)
        .unwrap()
        .into_array_ref();
    match to_array_data(&array).unwrap_err() {
        InteropError::Arrow(text) => assert!(text.contains("non-nullable child"), "{text}"),
        other => panic!("{other:?}"),
    }
}

#[test]
fn booleans_with_nulls_start_where_they_did() {
    let values: Vec<Option<bool>> = (0..40).map(|i| if i % 7 == 0 { None } else { Some(i % 3 == 0) }).collect();
    let sliced = slice_array(&BooleanArray::from_opt_iter(values.clone()).into_array_ref(), 11, 21);
    let data = to_array_data(&sliced).unwrap();
    assert_eq!(data.offset(), 3);
    let arrow_array = arrow_array::make_array(data);
    let downcast = arrow_array.as_any().downcast_ref::<arrow_array::BooleanArray>().unwrap();
    for i in 0..21 {
        let got = if downcast.is_null(i) { None } else { Some(downcast.value(i)) };
        assert_eq!(got, values[11 + i], "index {i}");
    }
}

#[test]
fn booleans_past_the_bytes_of_their_validity_start_anew() {
    let source: Vec<bool> = (0..20).map(|i| i % 3 == 0).collect();
    let bits = Bitmap::from_bools(&source).slice(13, 5);
    let validity = Bitmap::from_bools(&[true, false, true, true, true]);
    let array: ArrayRef = Arc::new(Column::boolean(bits, Some(validity)).unwrap());
    let data = to_array_data(&array).unwrap();
    assert_eq!(data.offset(), 0);
    let arrow_array = arrow_array::make_array(data);
    let downcast = arrow_array.as_any().downcast_ref::<arrow_array::BooleanArray>().unwrap();
    assert_eq!(downcast.null_count(), 1);
    assert!(downcast.is_null(1));
    for i in [0, 2, 3, 4] {
        assert_eq!(downcast.value(i), source[13 + i], "index {i}");
    }
}

#[test]
fn text_parted_inside_a_character_is_refused_by_arrow() {
    let text = Buffer::from_slice("\u{e9}!".as_bytes());
    let inside = Offsets::from_vec(vec![1, 1]);
    let array = Column::var(DataType::Utf8, inside, text.slice(0, 3), None).unwrap();
    match to_array_data(&(Arc::new(array) as ArrayRef)) {
        Err(InteropError::Arrow(text)) => assert!(text.contains("incomplete utf-8 byte sequence"), "{text}"),
        other => panic!("{other:?}"),
    }
    let between = Offsets::from_vec(vec![2, 2]);
    let array = Column::var(DataType::Utf8, between, text, None).unwrap();
    let arrow_array = to_arrow_array(&(Arc::new(array) as ArrayRef)).unwrap();
    let downcast = arrow_array.as_any().downcast_ref::<arrow_array::StringArray>().unwrap();
    assert_eq!(downcast.value(0), "");
}
