use arrow_schema::{DataType as ArrowDataType, Field as ArrowField, TimeUnit};
use astrs_data::interop::{
    from_arrow_data_type, from_arrow_field, from_arrow_schema, to_arrow_data_type, to_arrow_field, to_arrow_schema,
    InteropError,
};
use astrs_data::{DataType, Field, Schema};
use std::collections::HashMap;
use std::sync::Arc;

fn every_astrs_type() -> Vec<DataType> {
    vec![
        DataType::Null,
        DataType::Bool,
        DataType::Int8,
        DataType::Int16,
        DataType::Int32,
        DataType::Int64,
        DataType::UInt8,
        DataType::UInt16,
        DataType::UInt32,
        DataType::UInt64,
        DataType::Float16,
        DataType::Float32,
        DataType::Float64,
        DataType::Binary,
        DataType::LargeBinary,
        DataType::Utf8,
        DataType::LargeUtf8,
        DataType::FixedSizeBinary(4),
        DataType::fixed_size_list(Field::new("xyz", DataType::Float32, false), 3),
        DataType::list(Field::new("item", DataType::Utf8, true)),
        DataType::strukt(vec![
            Field::new("a", DataType::Int32, true),
            Field::new("b", DataType::Bool, false),
        ]),
        DataType::Timestamp,
        DataType::Duration,
    ]
}

#[test]
fn every_p0_type_round_trips() {
    for data_type in every_astrs_type() {
        let arrow_type = to_arrow_data_type(&data_type)
            .unwrap_or_else(|e| panic!("{data_type:?}: to_arrow failed: {e:?}"));
        let back = from_arrow_data_type(&arrow_type)
            .unwrap_or_else(|e| panic!("{data_type:?}: from_arrow failed: {e:?}"));
        assert_eq!(back, data_type, "arrow_type={arrow_type}");
    }
}

#[test]
fn bool_maps_to_boolean() {
    assert_eq!(
        to_arrow_data_type(&DataType::Bool).unwrap(),
        ArrowDataType::Boolean
    );
    assert_eq!(
        from_arrow_data_type(&ArrowDataType::Boolean).unwrap(),
        DataType::Bool
    );
}

#[test]
fn temporal_types_pin_to_nanoseconds_and_no_timezone() {
    assert_eq!(
        to_arrow_data_type(&DataType::Timestamp).unwrap(),
        ArrowDataType::Timestamp(TimeUnit::Nanosecond, None)
    );
    assert_eq!(
        to_arrow_data_type(&DataType::Duration).unwrap(),
        ArrowDataType::Duration(TimeUnit::Nanosecond)
    );

    for rejected in [
        ArrowDataType::Timestamp(TimeUnit::Second, None),
        ArrowDataType::Timestamp(TimeUnit::Millisecond, None),
        ArrowDataType::Timestamp(TimeUnit::Microsecond, None),
        ArrowDataType::Timestamp(TimeUnit::Nanosecond, Some("UTC".into())),
    ] {
        assert!(
            matches!(
                from_arrow_data_type(&rejected),
                Err(InteropError::UnsupportedTemporalUnit {
                    kind: "Timestamp",
                    ..
                })
            ),
            "{rejected} should be rejected"
        );
    }
    assert!(matches!(
        from_arrow_data_type(&ArrowDataType::Duration(TimeUnit::Microsecond)),
        Err(InteropError::UnsupportedTemporalUnit {
            kind: "Duration",
            ..
        })
    ));
}

#[test]
fn types_outside_the_p0_set_are_rejected() {
    for rejected in [
        ArrowDataType::Date32,
        ArrowDataType::Date64,
        ArrowDataType::Time32(TimeUnit::Second),
        ArrowDataType::Time64(TimeUnit::Nanosecond),
        ArrowDataType::Decimal128(10, 2),
        ArrowDataType::BinaryView,
        ArrowDataType::Utf8View,
        ArrowDataType::LargeList(Arc::new(ArrowField::new("item", ArrowDataType::Int8, true))),
        ArrowDataType::Dictionary(
            Box::new(ArrowDataType::Int32),
            Box::new(ArrowDataType::Utf8),
        ),
    ] {
        assert!(
            matches!(
                from_arrow_data_type(&rejected),
                Err(InteropError::UnmappableArrowType { .. })
            ),
            "{rejected} should be rejected"
        );
    }
}

#[test]
fn fields_preserve_name_type_and_nullability_but_not_metadata() {
    let field = Field::new("range", DataType::Float32, true);
    let arrow_field = to_arrow_field(&field).unwrap();
    assert_eq!(arrow_field.name(), "range");
    assert_eq!(arrow_field.data_type(), &ArrowDataType::Float32);
    assert!(arrow_field.is_nullable());

    let mut with_metadata = arrow_field.clone();
    with_metadata.set_metadata(HashMap::from([("k".to_owned(), "v".to_owned())]));
    let back = from_arrow_field(&with_metadata).unwrap();
    assert_eq!(back, field, "arrow-side metadata is dropped, not merged in");
}

#[test]
fn nested_struct_and_list_fields_recurse() {
    let data_type = DataType::list(Field::new(
        "row",
        DataType::strukt(vec![Field::new("x", DataType::Int32, false)]),
        true,
    ));
    let arrow_type = to_arrow_data_type(&data_type).unwrap();
    let back = from_arrow_data_type(&arrow_type).unwrap();
    assert_eq!(back, data_type);
}

#[test]
fn schema_round_trips_with_metadata() {
    let schema = Schema::new(vec![
        Field::new("a", DataType::Int32, true),
        Field::new("b", DataType::Utf8, false),
    ])
    .with_metadata_entry("_schema_hash", "deadbeef")
    .with_metadata_entry("producer", "camera");

    let arrow_schema = to_arrow_schema(&schema).unwrap();
    assert_eq!(arrow_schema.fields().len(), 2);
    assert_eq!(
        arrow_schema.metadata().get("producer").map(String::as_str),
        Some("camera")
    );

    let back = from_arrow_schema(&arrow_schema).unwrap();
    assert_eq!(back, schema);
}

#[test]
fn datatype_empty_schema_round_trips() {
    let schema = Schema::default();
    let arrow_schema = to_arrow_schema(&schema).unwrap();
    assert_eq!(arrow_schema.fields().len(), 0);
    assert_eq!(from_arrow_schema(&arrow_schema).unwrap(), schema);
}

#[test]
fn refused_types_are_named_as_arrow_names_them() {
    assert_eq!(
        from_arrow_data_type(&ArrowDataType::Duration(TimeUnit::Second)).unwrap_err(),
        InteropError::UnsupportedTemporalUnit {
            kind: "Duration",
            arrow_type: ArrowDataType::Duration(TimeUnit::Second).to_string(),
        }
    );
    assert_eq!(
        from_arrow_data_type(&ArrowDataType::Date32).unwrap_err(),
        InteropError::UnmappableArrowType { arrow_type: "Date32".to_owned() }
    );
}

#[test]
fn arrow_types_return_but_for_the_metadata_of_their_fields() {
    let entries = HashMap::from([("unit".to_owned(), "m".to_owned())]);
    let inner = ArrowField::new("x", ArrowDataType::Float32, false);
    let marked = inner.clone().with_metadata(entries.clone());
    for (with, without) in [
        (ArrowDataType::List(Arc::new(marked.clone())), ArrowDataType::List(Arc::new(inner.clone()))),
        (ArrowDataType::FixedSizeList(Arc::new(marked.clone()), 3), ArrowDataType::FixedSizeList(Arc::new(inner.clone()), 3)),
        (ArrowDataType::Struct(vec![marked].into()), ArrowDataType::Struct(vec![inner].into())),
    ] {
        assert_ne!(with, without);
        assert_eq!(to_arrow_data_type(&from_arrow_data_type(&with).unwrap()).unwrap(), without);
    }
    let schema = arrow_schema::Schema::new_with_metadata(
        vec![ArrowField::new("a", ArrowDataType::Int8, true).with_metadata(entries.clone())],
        entries.clone(),
    );
    let back = to_arrow_schema(&from_arrow_schema(&schema).unwrap()).unwrap();
    assert_eq!(back.metadata(), &entries);
    assert_eq!(back.field(0), &ArrowField::new("a", ArrowDataType::Int8, true));
}
