use astrs_data::array::{
    Float32Array, Int64Array, StringArray, StructArray, UInt8Array, F32,
};
use astrs_data::ipc::message::scan_message;
use astrs_data::ipc::payload::check_payload_size;
use astrs_data::ipc::{
    decode_payload, decode_payload_buffer, encode_payload, to_ipc_bytes, to_ipc_bytes_with, IpcError, MessageLimits,
    WriteOptions, PAYLOAD_ALIGNMENT,
};
use astrs_data::{Buffer, DataType, Field, RecordBatch, Schema};
use std::sync::Arc;

/// A single-precision number.
fn f32_of(v: f32) -> F32 {
    F32::from_bits(v.to_bits())
}

#[test]
fn payloads_round_trip() {
    let batch = RecordBatch::from_payload(
        Int64Array::from_opt_iter(vec![Some(1), None, Some(3)]).into_array_ref(),
    );
    let payload = encode_payload(&batch).expect("encode");
    assert_eq!(decode_payload(payload.as_slice()).expect("decode"), batch);
}

#[test]
fn payload_lengths_are_aligned() {
    for rows in [0usize, 1, 7, 64, 1000] {
        let column = UInt8Array::from_values((0..rows).map(|i| i as u8).collect::<Vec<_>>())
            .into_array_ref();
        let payload = encode_payload(&RecordBatch::from_payload(column)).expect("encode");
        assert_eq!(payload.len() % PAYLOAD_ALIGNMENT, 0, "rows {rows}");
    }
}

#[test]
fn every_message_and_body_buffer_is_64_byte_aligned() {
    let batch = RecordBatch::from_payload(
        Float32Array::from_opt_iter(vec![Some(f32_of(1.0)), None, Some(f32_of(3.0))]).into_array_ref(),
    );
    let payload = encode_payload(&batch).expect("encode");
    let limits = MessageLimits::default();
    let mut pos = 0usize;
    while let Some(message) = scan_message(payload.as_slice(), pos, &limits).expect("scan") {
        assert_eq!(pos % 64, 0, "message start");
        assert_eq!(message.body.start % 64, 0, "body start");
        pos = message.next;
    }
}

#[test]
fn decoding_a_buffer_is_zero_copy() {
    let batch = RecordBatch::from_payload(
        UInt8Array::from_values((0..200u8).collect::<Vec<_>>()).into_array_ref(),
    );
    let payload = encode_payload(&batch).expect("encode");
    let buffer = Buffer::from_vec(payload);
    let before = buffer.share_count();
    let decoded = decode_payload_buffer(buffer.clone()).expect("decode");
    assert_eq!(decoded, batch);
    assert!(buffer.share_count() > before, "the decoded column must share the payload allocation");
}

#[test]
fn a_stream_with_two_batches_is_not_a_payload() {
    let batch = RecordBatch::from_payload(Int64Array::from_values(vec![1]).into_array_ref());
    let bytes = to_ipc_bytes(&[batch.clone(), batch]).expect("write");
    let err = decode_payload(bytes.as_slice()).unwrap_err();
    assert!(
        matches!(err, IpcError::NotASinglePayload { count: 2 }),
        "{err:?}"
    );
}

#[test]
fn a_schema_only_stream_is_not_a_payload() {
    let schema = Arc::new(Schema::payload(DataType::Int64, true));
    let bytes =
        to_ipc_bytes_with(schema, &[], WriteOptions::new()).expect("write");
    let err = decode_payload(bytes.as_slice()).unwrap_err();
    assert!(
        matches!(err, IpcError::NotASinglePayload { count: 0 }),
        "{err:?}"
    );
}

#[test]
fn oversized_inputs_are_refused() {
    let err = check_payload_size(astrs_data::MAX_PAYLOAD_BYTES + 1).unwrap_err();
    assert!(
        matches!(
            err,
            IpcError::TooLarge {
                what: "payload",
                ..
            }
        ),
        "{err:?}"
    );
    assert!(check_payload_size(astrs_data::MAX_PAYLOAD_BYTES).is_ok());
}

#[test]
fn the_data_column_convention_survives_the_round_trip() {
    let batch =
        RecordBatch::from_payload(StringArray::from_values(vec!["a", "bb"]).into_array_ref());
    let payload = encode_payload(&batch).expect("encode");
    let decoded = decode_payload(payload.as_slice()).expect("decode");
    assert_eq!(
        decoded.schema().field(0).map(Field::name),
        Some(astrs_data::DATA_COLUMN)
    );
    assert!(decoded.payload_column().is_some());
}

#[test]
fn nested_payloads_round_trip() {
    let fields = vec![
        Field::new("x", DataType::Float32, false),
        Field::new("y", DataType::Float32, false),
    ];
    let columns = vec![
        Float32Array::from_values(vec![f32_of(1.0), f32_of(2.0)]).into_array_ref(),
        Float32Array::from_values(vec![f32_of(3.0), f32_of(4.0)]).into_array_ref(),
    ];
    let strukt = StructArray::try_new(fields, columns, None).expect("struct");
    let batch = RecordBatch::from_payload(strukt.into_array_ref());
    let payload = encode_payload(&batch).expect("encode");
    let decoded = decode_payload(payload.as_slice()).expect("decode");
    assert_eq!(decoded, batch);
    assert_eq!(decoded.column(0).map(|c| c.len()), Some(2));
}

#[test]
fn trailing_padding_does_not_disturb_the_reader() {
    let batch = RecordBatch::from_payload(Int64Array::from_values(vec![9]).into_array_ref());
    let payload = encode_payload(&batch).expect("encode");
    let unpadded =
        to_ipc_bytes(std::slice::from_ref(&batch)).expect("write");
    assert!(payload.len() >= unpadded.len());
    assert!(
        payload.as_slice()[unpadded.len()..].iter().all(|b| *b == 0),
        "padding is zero"
    );
    assert_eq!(decode_payload(payload.as_slice()).expect("decode"), batch);
}
