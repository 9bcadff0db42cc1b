use arrow_array::builder::{BooleanBuilder, Int32Builder, ListBuilder, StringBuilder};
use arrow_array::{Array, ArrayRef as ArrowArrayRef, Int32Array as ArrowInt32Array};
use arrow_schema::{DataType as ArrowDataType, Field as ArrowField, Fields as ArrowFields};
use astrs_data::array::{
    BinaryArray, BooleanArray, FixedSizeBinaryArray, FixedSizeListArray, Float16Array, Int32Array, ListArray, StringArray,
    StructArray, TimestampArray, F16,
};
use astrs_data::interop::{from_arrow_array, to_array_data, InteropError};
use astrs_data::{DataError, DataType};
use std::sync::Arc;

#[test]
fn null_array_converts_by_length_only() {
    let arrow_array = arrow_array::NullArray::new(4);
    let array = from_arrow_array(&arrow_array.to_data()).unwrap();
    assert_eq!(array.len(), 4);
    assert_eq!(array.null_count(), 4);
}

#[test]
fn primitive_array_round_trips_nulls() {
    let arrow_array = ArrowInt32Array::from(vec![Some(1), None, Some(3)]);
    let array = from_arrow_array(&arrow_array.to_data()).unwrap();
    let downcast = Int32Array::try_from_array(&array).unwrap();
    assert_eq!(downcast.get(0), Some(1));
    assert_eq!(downcast.get(1), None);
    assert_eq!(downcast.get(2), Some(3));
}

#[test]
fn float16_round_trips_without_this_crate_ever_naming_half() {
    let original =
        Float16Array::from_values(vec![F16::from_bits(0x3E00), F16::from_bits(0xC000)]);
    let arrow_array = arrow_array::make_array(to_array_data(&original.into_array_ref()).unwrap());
    let array = from_arrow_array(&arrow_array.to_data()).unwrap();
    let downcast = Float16Array::try_from_array(&array).unwrap();
    assert_eq!(downcast.get(0), Some(F16::from_bits(0x3E00)));
    assert_eq!(downcast.get(1), Some(F16::from_bits(0xC000)));
}

#[test]
fn timestamp_and_duration_decode_from_the_pinned_unit() {
    let arrow_stamps = arrow_array::TimestampNanosecondArray::from(vec![1_i64, 2]);
    let array = from_arrow_array(&arrow_stamps.to_data()).unwrap();
    assert_eq!(array.data_type(), &DataType::Timestamp);
    let downcast = TimestampArray::try_from_array(&array).unwrap();
    assert_eq!(downcast.get(0), Some(1));

    let arrow_gaps = arrow_array::DurationNanosecondArray::from(vec![9_i64]);
    let array = from_arrow_array(&arrow_gaps.to_data()).unwrap();
    assert_eq!(array.data_type(), &DataType::Duration);
}

#[test]
fn boolean_array_round_trips() {
    let mut builder = BooleanBuilder::new();
    builder.append_value(true);
    builder.append_null();
    builder.append_value(false);
    let arrow_array = builder.finish();
    let array = from_arrow_array(&arrow_array.to_data()).unwrap();
    let downcast = BooleanArray::try_from_array(&array).unwrap();
    assert_eq!(downcast.get(0), Some(true));
    assert_eq!(downcast.get(1), None);
    assert_eq!(downcast.get(2), Some(false));
}

#[test]
fn binary_and_string_families_decode() {
    let arrow_array = arrow_array::BinaryArray::from_opt_vec(vec![
        Some(b"aa".as_slice()),
        None,
        Some(b"cccc"),
    ]);
    let array = from_arrow_array(&arrow_array.to_data()).unwrap();
    let downcast = BinaryArray::try_from_array(&array).unwrap();
    assert_eq!(downcast.get(0), Some(&b"aa"[..]));
    assert_eq!(downcast.get(1), None);
    assert_eq!(downcast.get(2), Some(&b"cccc"[..]));

    let mut builder = StringBuilder::new();
    builder.append_value("lidar");
    builder.append_value("camera");
    let arrow_strings = builder.finish();
    let array = from_arrow_array(&arrow_strings.to_data()).unwrap();
    let downcast = StringArray::try_from_array(&array).unwrap();
    assert_eq!(downcast.get(0), Some("lidar"));
    assert_eq!(downcast.get(1), Some("camera"));
}

#[test]
fn fixed_size_binary_decodes() {
    let arrow_array = arrow_array::FixedSizeBinaryArray::try_from_iter(
        [b"abcd".as_slice(), b"efgh"].into_iter(),
    )
    .unwrap();
    let array = from_arrow_array(&arrow_array.to_data()).unwrap();
    let downcast = FixedSizeBinaryArray::try_from_array(&array).unwrap();
    assert_eq!(downcast.get(0), Some(&b"abcd"[..]));
    assert_eq!(downcast.get(1), Some(&b"efgh"[..]));
}

#[test]
fn list_decodes_with_its_child() {
    let mut builder = ListBuilder::new(Int32Builder::new());
    builder.values().append_value(1);
    builder.values().append_value(2);
    builder.append(true);
    builder.append(false);
    builder.values().append_value(3);
    builder.append(true);
    let arrow_array = builder.finish();

    let array = from_arrow_array(&arrow_array.to_data()).unwrap();
    let downcast = ListArray::try_from_array(&array).unwrap();
    assert_eq!(downcast.value_length(0), Some(2));
    assert!(downcast.is_null(1), "null slot");
    assert_eq!(downcast.value_length(2), Some(1));
}

#[test]
fn struct_decodes_every_column() {
    let a: ArrowArrayRef = Arc::new(ArrowInt32Array::from(vec![1, 2]));
    let b: ArrowArrayRef = Arc::new(arrow_array::StringArray::from(vec!["x", "y"]));
    let fields = ArrowFields::from(vec![
        ArrowField::new("a", ArrowDataType::Int32, false),
        ArrowField::new("b", ArrowDataType::Utf8, false),
    ]);
    let arrow_array = arrow_array::StructArray::new(fields, vec![a, b], None);

    let array = from_arrow_array(&arrow_array.to_data()).unwrap();
    let downcast = StructArray::try_from_array(&array).unwrap();
    assert_eq!(downcast.columns().len(), 2);
    assert_eq!(downcast.columns()[0].len(), 2);
}

#[test]
fn unmappable_arrow_type_is_rejected_before_any_downcast() {
    let arrow_array = arrow_array::Date32Array::from(vec![1]);
    let err = from_arrow_array(&arrow_array.to_data()).unwrap_err();
    assert!(matches!(err, InteropError::UnmappableArrowType { .. }));
}

#[test]
fn parts_at_an_offset_are_narrowed() {
    let numbers = ArrowInt32Array::from(vec![Some(1), None, Some(3), Some(4)]).to_data().slice(1, 2);
    assert_eq!(numbers.offset(), 1);
    let array = Int32Array::try_from_array(&from_arrow_array(&numbers).unwrap()).unwrap();
    assert_eq!(array.iter(), vec![None, Some(3)]);

    let texts = arrow_array::StringArray::from(vec!["a", "bb", "ccc"]).to_data().slice(1, 2);
    assert_eq!(texts.offset(), 1);
    let array = StringArray::try_from_array(&from_arrow_array(&texts).unwrap()).unwrap();
    assert_eq!(array.get(0), Some("bb"));
    assert_eq!(array.get(1), Some("ccc"));

    let empty = arrow_array::StringArray::from(Vec::<&str>::new()).to_data();
    assert_eq!(from_arrow_array(&empty).unwrap().len(), 0);
}

#[test]
fn nested_parts_at_an_offset_narrow_their_children() {
    let values = ArrowInt32Array::from(vec![1, 2, 3, 4, 5, 6]);
    let field = Arc::new(ArrowField::new("item", ArrowDataType::Int32, false));
    let lists = arrow_array::FixedSizeListArray::new(field, 2, Arc::new(values), None).to_data();
    let part = lists.into_builder().offset(1).len(2).build().unwrap();
    let array = FixedSizeListArray::try_from_array(&from_arrow_array(&part).unwrap()).unwrap();
    assert_eq!(Int32Array::try_from_array(&array.values()).unwrap().values(), vec![3, 4, 5, 6]);

    let a: ArrowArrayRef = Arc::new(ArrowInt32Array::from(vec![7, 8, 9]));
    let fields = ArrowFields::from(vec![ArrowField::new("a", ArrowDataType::Int32, false)]);
    let rows = arrow_array::StructArray::new(fields, vec![a], None).to_data();
    let part = rows.into_builder().offset(1).len(2).build().unwrap();
    let array = StructArray::try_from_array(&from_arrow_array(&part).unwrap()).unwrap();
    assert_eq!(Int32Array::try_from_array(&array.columns()[0]).unwrap().values(), vec![8, 9]);
}

#[test]
fn a_struct_without_fields_has_no_length() {
    let rows = arrow_array::StructArray::new_empty_fields(3, None).to_data();
    assert_eq!(
        from_arrow_array(&rows).unwrap_err(),
        InteropError::Data(DataError::UnknownStructLength)
    );
}

#[test]
fn lists_of_no_size_are_refused() {
    let field = Arc::new(ArrowField::new("item", ArrowDataType::Int32, false));
    let lists = arrow_array::FixedSizeListArray::new_null(field, 0, 2).to_data();
    assert_eq!(
        from_arrow_array(&lists).unwrap_err(),
        InteropError::Data(DataError::InvalidFixedSize { size: 0 })
    );
}
