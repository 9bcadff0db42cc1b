use astrs_data::ipc::layout::{
    buffer_count, buffer_roles, check_nesting_depth, children_of, nesting_depth, node_count, offset_byte_width,
    schema_buffer_count, schema_node_count, validity_byte_len, value_byte_width, values_byte_len, BufferRole,
    MAX_NESTING_DEPTH,
};
use astrs_data::ipc::IpcError;
use astrs_data::{DataType, Field};

fn every_leaf_type() -> Vec<DataType> {
    vec![
        DataType::Null,
        DataType::Bool,
        DataType::Int8,
        DataType::Int16,
        DataType::Int32,
        DataType::Int64,
        DataType::UInt8,
        DataType::UInt16,
        DataType::UInt32,
        DataType::UInt64,
        DataType::Float16,
        DataType::Float32,
        DataType::Float64,
        DataType::Binary,
        DataType::LargeBinary,
        DataType::Utf8,
        DataType::LargeUtf8,
        DataType::FixedSizeBinary(3),
        DataType::Timestamp,
        DataType::Duration,
    ]
}

#[test]
fn leaf_types_have_no_children_and_one_node() {
    for data_type in every_leaf_type() {
        assert_eq!(node_count(&data_type), 1, "{data_type:?}");
        assert_eq!(nesting_depth(&data_type), 1, "{data_type:?}");
        assert_eq!(
            buffer_count(&data_type),
            buffer_roles(&data_type).len(),
            "{data_type:?}"
        );
    }
}

#[test]
fn buffer_counts_match_the_specification_table() {
    assert_eq!(buffer_count(&DataType::Null), 0);
    assert_eq!(buffer_count(&DataType::Bool), 2);
    assert_eq!(buffer_count(&DataType::Int32), 2);
    assert_eq!(buffer_count(&DataType::FixedSizeBinary(4)), 2);
    assert_eq!(buffer_count(&DataType::Binary), 3);
    assert_eq!(buffer_count(&DataType::LargeUtf8), 3);
    let item = Field::new("item", DataType::Int8, true);
    assert_eq!(buffer_count(&DataType::list(item.clone())), 2 + 2);
    assert_eq!(
        buffer_count(&DataType::fixed_size_list(item.clone(), 2)),
        1 + 2
    );
    assert_eq!(buffer_count(&DataType::strukt(vec![item])), 1 + 2);
}

#[test]
fn nested_counts_add_up_depth_first() {
    // List<Struct<a: Int32, b: Utf8>>
    let inner = DataType::strukt(vec![
        Field::new("a", DataType::Int32, true),
        Field::new("b", DataType::Utf8, true),
    ]);
    let list = DataType::list(Field::new("item", inner, true));
    assert_eq!(node_count(&list), 4, "list + struct + 2 children");
    assert_eq!(
        buffer_count(&list),
        2 + 1 + 2 + 3,
        "list(v,o) + struct(v) + int(v,v) + utf8(v,o,v)"
    );
    assert_eq!(nesting_depth(&list), 3);
}

#[test]
fn struct_with_no_children_still_has_one_node_and_one_buffer() {
    let empty = DataType::strukt(vec![]);
    assert_eq!(node_count(&empty), 1);
    assert_eq!(buffer_count(&empty), 1);
    assert!(children_of(&empty).is_empty());
}

#[test]
fn schema_totals_sum_field_totals() {
    let fields = vec![
        Field::new("a", DataType::Null, true),
        Field::new("b", DataType::Utf8, true),
        Field::new(
            "c",
            DataType::fixed_size_list(Field::new("item", DataType::Float32, false), 3),
            false,
        ),
    ];
    assert_eq!(schema_node_count(&fields), 1 + 1 + 2);
    // `Null` contributes no buffer, `Utf8` three (validity, offsets,
    // values), the `FixedSizeList` one (validity) plus its `Float32`
    // child's two.
    let (null_buffers, utf8_buffers, list_buffers, child_buffers) = (0, 3, 1, 2);
    assert_eq!(
        schema_buffer_count(&fields),
        null_buffers + utf8_buffers + list_buffers + child_buffers
    );
}

#[test]
fn value_and_offset_widths() {
    assert_eq!(value_byte_width(&DataType::Float16), Some(2));
    assert_eq!(value_byte_width(&DataType::Timestamp), Some(8));
    assert_eq!(value_byte_width(&DataType::Duration), Some(8));
    assert_eq!(value_byte_width(&DataType::FixedSizeBinary(-1)), None);
    assert_eq!(value_byte_width(&DataType::Utf8), None);
    assert_eq!(offset_byte_width(&DataType::Binary), Some(4));
    assert_eq!(
        offset_byte_width(&DataType::list(Field::new("item", DataType::Int8, true))),
        Some(4)
    );
    assert_eq!(offset_byte_width(&DataType::Bool), None);
    assert_eq!(values_byte_len(&DataType::Bool, 0), Some(0));
    assert_eq!(values_byte_len(&DataType::Float64, 5), Some(40));
    assert_eq!(values_byte_len(&DataType::FixedSizeBinary(3), 4), Some(12));
}

#[test]
fn depth_limit_rejects_absurd_nesting() {
    let mut data_type = DataType::Int32;
    for _ in 0..MAX_NESTING_DEPTH {
        data_type = DataType::list(Field::new("item", data_type, true));
    }
    assert!(nesting_depth(&data_type) > MAX_NESTING_DEPTH);
    let err = check_nesting_depth(&data_type).unwrap_err();
    assert!(matches!(err, IpcError::NestingTooDeep { .. }), "{err:?}");
    assert!(err.is_malformed());
    assert!(check_nesting_depth(&DataType::Utf8).is_ok());
}

#[test]
fn buffer_roles_are_named() {
    for role in [
        BufferRole::Validity,
        BufferRole::Offsets,
        BufferRole::Values,
    ] {
        assert!(!role.name().is_empty());
    }
    assert_eq!(BufferRole::Validity.name(), "validity");
    assert_eq!(BufferRole::Values.name(), "values");
}

#[test]
fn validity_lengths_round_up() {
    for rows in 0..=64usize {
        assert_eq!(validity_byte_len(rows), rows.div_ceil(8));
    }
}
