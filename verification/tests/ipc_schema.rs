use astrs_data::ipc::fb::builder::FbBuilder;
use astrs_data::ipc::fb::reader::root_table;
use astrs_data::ipc::format::{
    endianness, field, schema as schema_slot, time_unit, type_code, type_table,
};
use astrs_data::ipc::schema::{
    decode_field, decode_schema, decode_schema_bytes, decode_type, empty_table, encode_field, encode_metadata,
    encode_schema_bytes, int_table, scalar_i16_table,
};
use astrs_data::ipc::{IpcError, MAX_NESTING_DEPTH};
use astrs_data::schema::Metadata;
use astrs_data::{DataType, Field, Schema};

fn round_trip(schema: &Schema) -> Schema {
    let bytes = encode_schema_bytes(schema).expect("encode");
    decode_schema_bytes(&bytes).expect("decode")
}

fn every_type() -> Vec<DataType> {
    let item = Field::new("item", DataType::Int32, true);
    vec![
        DataType::Null,
        DataType::Bool,
        DataType::Int8,
        DataType::Int16,
        DataType::Int32,
        DataType::Int64,
        DataType::UInt8,
        DataType::UInt16,
        DataType::UInt32,
        DataType::UInt64,
        DataType::Float16,
        DataType::Float32,
        DataType::Float64,
        DataType::Binary,
        DataType::LargeBinary,
        DataType::Utf8,
        DataType::LargeUtf8,
        DataType::FixedSizeBinary(11),
        DataType::fixed_size_list(item.clone(), 3),
        DataType::list(item.clone()),
        DataType::strukt(vec![
            Field::new("a", DataType::Int8, false),
            Field::new("b", DataType::Utf8, true),
        ]),
        DataType::Timestamp,
        DataType::Duration,
        // Deeply nested: List<Struct<FixedSizeList<Utf8, 2>>>
        DataType::list(Field::new(
            "item",
            DataType::strukt(vec![Field::new(
                "grid",
                DataType::fixed_size_list(Field::new("item", DataType::Utf8, true), 2),
                false,
            )]),
            true,
        )),
    ]
}

#[test]
fn every_type_round_trips() {
    for data_type in every_type() {
        let schema = Schema::new(vec![Field::new("f", data_type.clone(), true)]);
        let decoded = round_trip(&schema);
        assert_eq!(decoded, schema, "{data_type:?}");
    }
}

#[test]
fn nullability_and_names_round_trip() {
    let schema = Schema::new(vec![
        Field::new("required", DataType::Int32, false),
        Field::new("optional", DataType::Int32, true),
        Field::new("速度 🦀", DataType::Float64, true),
        Field::new("", DataType::Bool, false),
    ]);
    assert_eq!(round_trip(&schema), schema);
}

#[test]
fn metadata_round_trips_sorted() {
    let schema = Schema::new(vec![Field::new("data", DataType::UInt8, false)])
        .with_metadata_entry("z", "last")
        .with_metadata_entry("a", "first")
        .with_metadata_entry("empty", "");
    let decoded = round_trip(&schema);
    assert_eq!(decoded, schema);
    assert_eq!(decoded.metadata_value("empty"), Some(""));
    let keys: Vec<&str> = decoded.metadata().keys();
    assert_eq!(keys, ["a", "empty", "z"]);
}

#[test]
fn schema_empty_schema_round_trips() {
    let schema = Schema::new(Vec::new());
    let decoded = round_trip(&schema);
    assert_eq!(decoded.len(), 0);
    assert!(decoded.metadata().is_empty());
}

#[test]
fn nested_child_names_and_nullability_survive() {
    let inner = Field::new("element", DataType::Float32, false);
    let schema = Schema::new(vec![Field::new(
        "xyz",
        DataType::fixed_size_list(inner, 3),
        true,
    )]);
    let decoded = round_trip(&schema);
    assert_eq!(decoded, schema);
    let Some(DataType::FixedSizeList(child, size)) =
        decoded.field(0).map(|f| f.data_type().clone())
    else {
        panic!("expected a fixed size list");
    };
    assert_eq!(size, 3);
    assert_eq!(child.name(), "element");
    assert!(!child.is_nullable());
}

#[test]
fn unsupported_types_are_named() {
    // Hand-build a Field whose type is `Map` (17), which AstRS rejects.
    let mut builder = FbBuilder::new();
    let name = builder.create_string("labels");
    let children = builder.create_offset_vector(&[]);
    let type_offset = empty_table(&mut builder);
    let table = builder.start_table();
    builder.push_slot_offset(field::NAME, name);
    builder.push_slot_u8(field::TYPE_TYPE, type_code::MAP, 0);
    builder.push_slot_offset(field::TYPE, type_offset);
    builder.push_slot_offset(field::CHILDREN, children);
    let root = builder.end_table(table);
    builder.finish(root);
    let bytes = builder.finished_bytes().to_vec();

    let table = root_table(&bytes).unwrap();
    let err = decode_field(&table, 1).unwrap_err();
    match err {
        IpcError::UnsupportedType { code, name, field } => {
            assert_eq!(code, type_code::MAP);
            assert_eq!(name, "Map");
            assert_eq!(field, "labels");
        }
        other => panic!("unexpected {other:?}"),
    }
}

#[test]
fn unsupported_int_widths_are_rejected() {
    let mut builder = FbBuilder::new();
    let name = builder.create_string("weird");
    let children = builder.create_offset_vector(&[]);
    let type_offset = int_table(&mut builder, 96, true);
    let table = builder.start_table();
    builder.push_slot_offset(field::NAME, name);
    builder.push_slot_u8(field::TYPE_TYPE, type_code::INT, 0);
    builder.push_slot_offset(field::TYPE, type_offset);
    builder.push_slot_offset(field::CHILDREN, children);
    let root = builder.end_table(table);
    builder.finish(root);
    let bytes = builder.finished_bytes().to_vec();

    let err = decode_field(&root_table(&bytes).unwrap(), 1).unwrap_err();
    assert!(err.is_unsupported(), "{err:?}");
    assert!(err.to_string().contains("96-bit signed"), "{err:?}");
}

#[test]
fn non_nanosecond_temporals_are_rejected() {
    for (code, slot, unit, family) in [
        (
            type_code::TIMESTAMP,
            type_table::TIMESTAMP_UNIT,
            time_unit::MICROSECOND,
            "Timestamp",
        ),
        (
            type_code::DURATION,
            type_table::DURATION_UNIT,
            time_unit::SECOND,
            "Duration",
        ),
    ] {
        let mut builder = FbBuilder::new();
        // Both defaults differ from the value written, so the slot lands.
        let type_offset = scalar_i16_table(&mut builder, slot, unit, -1);
        builder.finish(type_offset);
        let bytes = builder.finished_bytes().to_vec();
        let table = root_table(&bytes).unwrap();
        let err = decode_type(code, &table, "stamp", Vec::new()).unwrap_err();
        let text = err.to_string();
        assert!(text.contains(family), "{text}");
        assert!(text.contains(time_unit::name(unit)), "{text}");
    }
}

#[test]
fn timestamps_with_a_time_zone_are_rejected() {
    let mut builder = FbBuilder::new();
    let zone = builder.create_string("UTC");
    let table = builder.start_table();
    builder.push_slot_i16(
        type_table::TIMESTAMP_UNIT,
        time_unit::NANOSECOND,
        time_unit::SECOND,
    );
    builder.push_slot_offset(type_table::TIMESTAMP_TIMEZONE, zone);
    let root = builder.end_table(table);
    builder.finish(root);
    let bytes = builder.finished_bytes().to_vec();
    let table = root_table(&bytes).unwrap();
    let err = decode_type(type_code::TIMESTAMP, &table, "stamp", Vec::new()).unwrap_err();
    assert!(err.to_string().contains("UTC"), "{err:?}");
}

#[test]
fn wrong_child_counts_are_rejected() {
    let mut builder = FbBuilder::new();
    let table = empty_table(&mut builder);
    builder.finish(table);
    let bytes = builder.finished_bytes().to_vec();
    let table = root_table(&bytes).unwrap();

    let err = decode_type(type_code::LIST, &table, "l", Vec::new()).unwrap_err();
    assert!(matches!(err, IpcError::ChildCountMismatch { .. }), "{err:?}");
    let two = vec![
        Field::new("a", DataType::Int8, true),
        Field::new("b", DataType::Int8, true),
    ];
    let err = decode_type(type_code::LIST, &table, "l", two).unwrap_err();
    assert!(err.to_string().contains("2 child field(s)"), "{err:?}");
}

#[test]
fn non_positive_fixed_sizes_are_rejected() {
    let mut builder = FbBuilder::new();
    // A zero byte width is the flatbuffer default, so the slot is elided
    // and the reader falls back to 0 — which must still be rejected.
    let table = empty_table(&mut builder);
    builder.finish(table);
    let bytes = builder.finished_bytes().to_vec();
    let table = root_table(&bytes).unwrap();
    for code in [type_code::FIXED_SIZE_BINARY, type_code::FIXED_SIZE_LIST] {
        let children = vec![Field::new("item", DataType::Int8, true)];
        let err = decode_type(code, &table, "f", children).unwrap_err();
        assert!(err.is_unsupported(), "{err:?}");
    }
}

#[test]
fn dictionary_encoded_fields_are_rejected() {
    let mut builder = FbBuilder::new();
    let name = builder.create_string("dict");
    let children = builder.create_offset_vector(&[]);
    let type_offset = empty_table(&mut builder);
    let dictionary = empty_table(&mut builder);
    let table = builder.start_table();
    builder.push_slot_offset(field::NAME, name);
    builder.push_slot_u8(field::TYPE_TYPE, type_code::UTF8, 0);
    builder.push_slot_offset(field::TYPE, type_offset);
    builder.push_slot_offset(field::DICTIONARY, dictionary);
    builder.push_slot_offset(field::CHILDREN, children);
    let root = builder.end_table(table);
    builder.finish(root);
    let bytes = builder.finished_bytes().to_vec();

    let err = decode_field(&root_table(&bytes).unwrap(), 1).unwrap_err();
    assert!(matches!(err, IpcError::UnsupportedDictionary), "{err:?}");
}

#[test]
fn big_endian_schemas_are_rejected() {
    let mut builder = FbBuilder::new();
    let fields = builder.create_offset_vector(&[]);
    let table = builder.start_table();
    builder.push_slot_i16(schema_slot::ENDIANNESS, endianness::BIG, endianness::LITTLE);
    builder.push_slot_offset(schema_slot::FIELDS, fields);
    let root = builder.end_table(table);
    builder.finish(root);
    let bytes = builder.finished_bytes().to_vec();

    let err = decode_schema(&root_table(&bytes).unwrap()).unwrap_err();
    assert!(
        matches!(err, IpcError::UnsupportedEndianness { endianness: 1 }),
        "{err:?}"
    );
}

#[test]
fn a_schema_without_fields_is_malformed() {
    let mut builder = FbBuilder::new();
    let table = builder.start_table();
    let root = builder.end_table(table);
    builder.finish(root);
    let bytes = builder.finished_bytes().to_vec();
    let err = decode_schema(&root_table(&bytes).unwrap()).unwrap_err();
    assert!(matches!(err, IpcError::MissingField { .. }), "{err:?}");
}

#[test]
fn a_field_without_a_type_is_malformed() {
    let mut builder = FbBuilder::new();
    let name = builder.create_string("x");
    let table = builder.start_table();
    builder.push_slot_offset(field::NAME, name);
    let root = builder.end_table(table);
    builder.finish(root);
    let bytes = builder.finished_bytes().to_vec();
    let err = decode_field(&root_table(&bytes).unwrap(), 1).unwrap_err();
    assert!(matches!(err, IpcError::MissingField { .. }), "{err:?}");
}

#[test]
fn deep_nesting_is_rejected_on_both_sides() {
    let mut data_type = DataType::Int32;
    for _ in 0..MAX_NESTING_DEPTH {
        data_type = DataType::list(Field::new("item", data_type, true));
    }
    let schema = Schema::new(vec![Field::new("deep", data_type, true)]);
    let err = encode_schema_bytes(&schema).unwrap_err();
    assert!(matches!(err, IpcError::NestingTooDeep { .. }), "{err:?}");
}

#[test]
fn truncated_schema_buffers_never_panic() {
    let schema = Schema::new(vec![
        Field::new("a", DataType::Int32, true),
        Field::new(
            "b",
            DataType::list(Field::new("item", DataType::Utf8, true)),
            true,
        ),
    ]);
    let bytes = encode_schema_bytes(&schema).expect("encode");
    for cut in 0..bytes.len() {
        let _ = decode_schema_bytes(&bytes[..cut]);
    }
    assert_eq!(decode_schema_bytes(&bytes).expect("full"), schema);
}

#[test]
fn duplicate_field_names_are_accepted() {
    let mut builder = FbBuilder::new();
    let mut offsets = Vec::new();
    for _ in 0..2 {
        offsets.push(
            encode_field(&mut builder, &Field::new("data", DataType::Int8, true), 1)
                .expect("field"),
        );
    }
    let fields = builder.create_offset_vector(&offsets);
    let table = builder.start_table();
    builder.push_slot_offset(schema_slot::FIELDS, fields);
    let root = builder.end_table(table);
    builder.finish(root);
    let bytes = builder.finished_bytes().to_vec();

    let decoded = decode_schema(&root_table(&bytes).unwrap()).expect("decode");
    assert_eq!(decoded.len(), 2);
    assert_eq!(decoded.index_of("data"), Some(0));
}

#[test]
fn field_metadata_is_dropped_not_rejected() {
    let mut builder = FbBuilder::new();
    let name = builder.create_string("m");
    let children = builder.create_offset_vector(&[]);
    let type_offset = empty_table(&mut builder);
    let map = Metadata::new().insert("k", "v");
    let metadata = encode_metadata(&mut builder, &map).expect("metadata");
    let table = builder.start_table();
    builder.push_slot_offset(field::NAME, name);
    builder.push_slot_u8(field::TYPE_TYPE, type_code::BOOL, 0);
    builder.push_slot_offset(field::TYPE, type_offset);
    builder.push_slot_offset(field::CHILDREN, children);
    builder.push_slot_offset(field::CUSTOM_METADATA, metadata);
    let root = builder.end_table(table);
    builder.finish(root);
    let bytes = builder.finished_bytes().to_vec();

    let decoded = decode_field(&root_table(&bytes).unwrap(), 1).expect("decode");
    assert_eq!(decoded, Field::new("m", DataType::Bool, false));
}

#[test]
fn empty_metadata_is_not_encoded() {
    let mut builder = FbBuilder::new();
    assert!(encode_metadata(&mut builder, &Metadata::new()).is_none());
}
