use astrs_data::array::{
    BinaryArray, BooleanArray, DurationArray, FixedSizeBinaryArray, FixedSizeListArray, Float16Array, Float32Array,
    Float64Array, Int16Array, Int32Array, Int64Array, Int8Array, LargeBinaryArray, LargeStringArray, ListArray,
    NullArray, StringArray, StructArray, TimestampArray, UInt16Array, UInt32Array, UInt64Array, UInt8Array, F16, F32,
    F64,
};
use astrs_data::ipc::{decode_payload, encode_payload, to_ipc_bytes, IpcStreamReader};
use astrs_data::{ArrayRef, DataType, Field, RecordBatch, Schema};
use std::sync::Arc;

/// A single-precision number.
fn f32_of(v: f32) -> F32 {
    F32::from_bits(v.to_bits())
}

/// A double-precision number.
fn f64_of(v: f64) -> F64 {
    F64::from_bits(v.to_bits())
}

/// One array of every type in the closed set, three rows each, with a null
/// in the middle wherever the type allows one.
fn every_type_columns() -> Vec<(Field, ArrayRef)> {
    let mask = [Some(0usize), None, Some(2)];
    let struct_fields = vec![
        Field::new("a", DataType::Int16, true),
        Field::new("b", DataType::Binary, true),
    ];
    let inner = StructArray::try_new(
        struct_fields.clone(),
        vec![
            Int16Array::from_opt_iter(vec![Some(1), Some(2), None]).into_array_ref(),
            BinaryArray::from_opt_iter(vec![Some(&b"q"[..]), None, Some(&b"rr"[..])])
                .into_array_ref(),
        ],
        Some(vec![true, true, false]),
    )
    .expect("struct");

    vec![
        (
            Field::new("null", DataType::Null, true),
            NullArray::new(3).into_array_ref(),
        ),
        (
            Field::new("bool", DataType::Bool, true),
            BooleanArray::from_opt_iter(vec![Some(true), None, Some(false)]).into_array_ref(),
        ),
        (
            Field::new("i8", DataType::Int8, true),
            Int8Array::from_opt_iter(vec![Some(-128), None, Some(127)]).into_array_ref(),
        ),
        (
            Field::new("i16", DataType::Int16, true),
            Int16Array::from_opt_iter(vec![Some(i16::MIN), None, Some(i16::MAX)]).into_array_ref(),
        ),
        (
            Field::new("i32", DataType::Int32, true),
            Int32Array::from_opt_iter(vec![Some(i32::MIN), None, Some(i32::MAX)]).into_array_ref(),
        ),
        (
            Field::new("i64", DataType::Int64, true),
            Int64Array::from_opt_iter(vec![Some(i64::MIN), None, Some(i64::MAX)])
                .into_array_ref(),
        ),
        (
            Field::new("u8", DataType::UInt8, true),
            UInt8Array::from_opt_iter(vec![Some(0), None, Some(255)]).into_array_ref(),
        ),
        (
            Field::new("u16", DataType::UInt16, true),
            UInt16Array::from_opt_iter(vec![Some(0), None, Some(u16::MAX)]).into_array_ref(),
        ),
        (
            Field::new("u32", DataType::UInt32, true),
            UInt32Array::from_opt_iter(vec![Some(0), None, Some(u32::MAX)]).into_array_ref(),
        ),
        (
            Field::new("u64", DataType::UInt64, true),
            UInt64Array::from_opt_iter(vec![Some(0), None, Some(u64::MAX)]).into_array_ref(),
        ),
        (
            Field::new("f16", DataType::Float16, true),
            Float16Array::from_opt_iter(vec![
                Some(F16::from_bits(0x3C00)),
                None,
                Some(F16::from_bits(0xC100)),
            ])
            .into_array_ref(),
        ),
        (
            Field::new("f32", DataType::Float32, true),
            Float32Array::from_opt_iter(vec![Some(f32_of(f32::NAN)), None, Some(f32_of(-0.0))]).into_array_ref(),
        ),
        (
            Field::new("f64", DataType::Float64, true),
            Float64Array::from_opt_iter(vec![Some(f64_of(f64::INFINITY)), None, Some(f64_of(-2.5))])
                .into_array_ref(),
        ),
        (
            Field::new("bin", DataType::Binary, true),
            BinaryArray::from_opt_iter(vec![Some(&b"ab"[..]), None, Some(&b""[..])])
                .into_array_ref(),
        ),
        (
            Field::new("lbin", DataType::LargeBinary, true),
            LargeBinaryArray::from_opt_iter(vec![Some(&b""[..]), None, Some(&b"cd"[..])])
                .into_array_ref(),
        ),
        (
            Field::new("utf8", DataType::Utf8, true),
            StringArray::from_opt_iter(vec![Some("hi"), None, Some("")]).into_array_ref(),
        ),
        (
            Field::new("lutf8", DataType::LargeUtf8, true),
            LargeStringArray::from_opt_iter(vec![Some(""), None, Some("速度")]).into_array_ref(),
        ),
        (
            Field::new("fsb", DataType::FixedSizeBinary(3), true),
            FixedSizeBinaryArray::try_from_opt_iter(
                3,
                vec![Some(&[1u8, 2, 3][..]), None, Some(&[9, 8, 7][..])],
            )
            .expect("fsb")
            .into_array_ref(),
        ),
        (
            Field::new(
                "fsl",
                DataType::fixed_size_list(Field::new("item", DataType::Int8, false), 2),
                true,
            ),
            FixedSizeListArray::try_new(
                Field::new("item", DataType::Int8, false),
                2,
                Int8Array::from_values(vec![1, -2, 3, -4, 5, -6]).into_array_ref(),
                Some(mask.iter().map(Option::is_some).collect()),
            )
            .expect("fsl")
            .into_array_ref(),
        ),
        (
            Field::new(
                "list",
                DataType::list(Field::new("item", DataType::Float64, true)),
                true,
            ),
            ListArray::try_new(
                Field::new("item", DataType::Float64, true),
                vec![0i32, 2, 2, 3],
                Float64Array::from_opt_iter(vec![Some(f64_of(1.5)), None, Some(f64_of(-0.25))]).into_array_ref(),
                Some(mask.iter().map(Option::is_some).collect()),
            )
            .expect("list")
            .into_array_ref(),
        ),
        (
            Field::new("struct", DataType::Struct(struct_fields), true),
            inner.into_array_ref(),
        ),
        (
            Field::new("ts", DataType::Timestamp, true),
            TimestampArray::from_opt_nanos(vec![Some(0), None, Some(1_700_000_000_123_456_789)])
                .into_array_ref(),
        ),
        (
            Field::new("dur", DataType::Duration, true),
            DurationArray::from_opt_nanos(vec![Some(-1), None, Some(1_000_000_000)])
                .into_array_ref(),
        ),
    ]
}

fn every_type_batch() -> RecordBatch {
    let (fields, columns): (Vec<Field>, Vec<ArrayRef>) =
        every_type_columns().into_iter().unzip();
    RecordBatch::try_new(Arc::new(Schema::new(fields)), columns).expect("batch")
}

#[test]
fn every_type_survives_a_stream_round_trip() {
    let batch = every_type_batch();
    let bytes = to_ipc_bytes(std::slice::from_ref(&batch)).expect("write");
    let mut reader = IpcStreamReader::from_slice(bytes.as_slice()).expect("reader");
    let decoded = reader.next_batch().expect("decode").expect("batch");
    assert_eq!(decoded.schema(), batch.schema());
    assert_eq!(decoded, batch);
}

#[test]
fn every_type_survives_a_payload_round_trip_column_by_column() {
    for (field, column) in every_type_columns() {
        let batch = RecordBatch::try_new(
            Arc::new(Schema::new(vec![field.clone()])),
            vec![Arc::clone(&column)],
        )
        .expect("batch");
        let payload = encode_payload(&batch).expect("encode");
        let decoded = decode_payload(payload.as_slice()).expect("decode");
        assert_eq!(decoded.num_rows(), 3, "{}", field.name());
        assert_eq!(
            decoded.column(0).map(|c| c.data_type().clone()),
            Some(field.data_type().clone()),
            "{}",
            field.name()
        );
        assert_eq!(decoded, batch, "{}", field.name());
    }
}
