use astrs_data::array::{Int32Array, StringArray};
use astrs_data::ipc::format::{message_header, CONTINUATION_MARKER};
use astrs_data::ipc::fb::builder::FbBuilder;
use astrs_data::ipc::message::{decode_message, scan_message, write_end_of_stream};
use astrs_data::ipc::writer::{open_stream, write_frame};
use astrs_data::ipc::{
    to_ipc_bytes, write_ipc_stream, write_ipc_stream_with, IpcError, IpcStreamWriter, MessageLimits, WriteOptions,
};
use astrs_data::{DataType, Field, RecordBatch, Schema};
use std::sync::Arc;

fn sample_batch() -> RecordBatch {
    let schema = Arc::new(Schema::new(vec![
        Field::new("i", DataType::Int32, true),
        Field::new("s", DataType::Utf8, true),
    ]));
    RecordBatch::try_new(
        schema,
        vec![
            Int32Array::from_opt_iter(vec![Some(1), None, Some(3)]).into_array_ref(),
            StringArray::from_opt_iter(vec![Some("aa"), Some("bbb"), None]).into_array_ref(),
        ],
    )
    .expect("batch")
}

fn messages(stream: &[u8]) -> Vec<(u8, usize, usize)> {
    let limits = MessageLimits::default();
    let mut out = Vec::new();
    let mut pos = 0usize;
    while let Some(message) = scan_message(stream, pos, &limits).expect("scan") {
        let info = decode_message(&stream[message.metadata.clone()]).expect("decode");
        out.push((info.header_type, message.metadata.len(), message.body.len()));
        pos = message.next;
    }
    out
}

#[test]
fn a_stream_is_schema_then_batches_then_the_marker() {
    let batch = sample_batch();
    let mut stream = Vec::new();
    let written = write_ipc_stream(&mut stream, &[batch.clone(), batch]).expect("write");
    assert_eq!(written, stream.len());

    let seen = messages(&stream);
    assert_eq!(seen.len(), 3);
    assert_eq!(seen[0].0, message_header::SCHEMA);
    assert_eq!(seen[1].0, message_header::RECORD_BATCH);
    assert_eq!(seen[2].0, message_header::RECORD_BATCH);

    let tail = &stream[stream.len() - 8..];
    assert_eq!(tail[..4], CONTINUATION_MARKER.to_le_bytes());
    assert_eq!(tail[4..], 0i32.to_le_bytes());
}

#[test]
fn every_message_starts_on_the_alignment() {
    for alignment in [8usize, 16, 32, 64, 256] {
        let batch = sample_batch();
        let mut stream = Vec::new();
        write_ipc_stream_with(
            &mut stream,
            batch.schema_ref(),
            std::slice::from_ref(&batch),
            WriteOptions::new().with_alignment(alignment),
        )
        .expect("write");

        let limits = MessageLimits::default();
        let mut pos = 0usize;
        while let Some(message) = scan_message(&stream, pos, &limits).expect("scan") {
            assert_eq!(
                pos % alignment,
                0,
                "message at {pos}, alignment {alignment}"
            );
            assert_eq!(message.body.start % alignment, 0);
            pos = message.next;
        }
        assert_eq!(pos % alignment, 0);
    }
}

#[test]
fn a_schema_only_stream_is_valid() {
    let schema = Arc::new(Schema::new(vec![Field::new("a", DataType::Bool, true)]));
    let mut stream = Vec::new();
    write_ipc_stream_with(&mut stream, schema, &[], WriteOptions::new()).expect("write");
    let seen = messages(&stream);
    assert_eq!(seen.len(), 1);
    assert_eq!(seen[0].0, message_header::SCHEMA);
    assert_eq!(seen[0].2, 0, "a schema message has no body");
}

#[test]
fn writing_without_batches_needs_a_schema() {
    let err = write_ipc_stream(&mut Vec::new(), &[]).unwrap_err();
    assert!(matches!(err, IpcError::MissingSchema), "{err:?}");
    let err = to_ipc_bytes(&[]).unwrap_err();
    assert!(matches!(err, IpcError::MissingSchema), "{err:?}");
}

#[test]
fn a_batch_with_a_different_schema_is_rejected() {
    let first = sample_batch();
    let other = RecordBatch::from_payload(Int32Array::from_values(vec![1]).into_array_ref());
    let mut stream = Vec::new();
    let err = write_ipc_stream(&mut stream, &[first, other]).unwrap_err();
    assert!(
        matches!(err, IpcError::SchemaMismatch { index: 1 }),
        "{err:?}"
    );
}

#[test]
fn the_writer_reports_its_own_counters() {
    let batch = sample_batch();
    let mut writer = IpcStreamWriter::try_new(Vec::new(), batch.schema_ref()).expect("writer");
    assert_eq!(writer.batches_written(), 0);
    assert!(writer.bytes_written() > 0);
    assert_eq!(writer.options().alignment(), 64);
    assert_eq!(writer.schema().len(), 2);
    let batch_bytes = writer.write(&batch).expect("write");
    assert!(batch_bytes > 0);
    assert_eq!(writer.batches_written(), 1);
    let end = writer.finish().expect("finish");
    assert_eq!(end, 8);
    assert_eq!(writer.finish().expect("idempotent"), 0);
    assert_eq!(writer.bytes_written(), writer.sink().len());
}

#[test]
fn into_inner_finishes_the_stream() {
    let batch = sample_batch();
    let writer = IpcStreamWriter::try_new(Vec::new(), batch.schema_ref()).expect("writer");
    let sink = writer.into_inner().expect("inner");
    assert_eq!(
        &sink[sink.len() - 8..sink.len() - 4],
        &CONTINUATION_MARKER.to_le_bytes()
    );
}

#[test]
fn output_in_memory_matches_the_sink_output() {
    let batch = sample_batch();
    let mut stream = Vec::new();
    write_ipc_stream(&mut stream, std::slice::from_ref(&batch)).expect("write");
    let bytes = to_ipc_bytes(std::slice::from_ref(&batch)).expect("write");
    assert_eq!(bytes.as_slice(), stream.as_slice());
}

#[test]
fn alignment_is_rounded_to_a_power_of_two() {
    assert_eq!(WriteOptions::new().with_alignment(0).alignment(), 8);
    assert_eq!(WriteOptions::new().with_alignment(1).alignment(), 8);
    assert_eq!(WriteOptions::new().with_alignment(8).alignment(), 8);
    assert_eq!(WriteOptions::new().with_alignment(9).alignment(), 16);
    assert_eq!(WriteOptions::new().with_alignment(64).alignment(), 64);
    assert_eq!(WriteOptions::new().with_alignment(129).alignment(), 256);
    assert_eq!(WriteOptions::default(), WriteOptions::new());
}

#[test]
fn body_lengths_are_declared_exactly() {
    let batch = sample_batch();
    let mut stream = Vec::new();
    write_ipc_stream(&mut stream, std::slice::from_ref(&batch)).expect("write");
    let limits = MessageLimits::default();
    let schema_message = scan_message(&stream, 0, &limits)
        .expect("scan")
        .expect("msg");
    let batch_message = scan_message(&stream, schema_message.next, &limits)
        .expect("scan")
        .expect("msg");
    let info = decode_message(&stream[batch_message.metadata.clone()]).expect("decode");
    assert_eq!(
        usize::try_from(info.body_length).expect("body"),
        batch_message.body.len()
    );
    assert_eq!(batch_message.body.len() % 64, 0);
}

#[test]
fn messages_written_one_by_one_are_the_stream() {
    let batch = sample_batch();
    let options = WriteOptions::new();
    let mut builder = FbBuilder::new();
    let mut stream = Vec::new();
    let mut message = Vec::new();
    open_stream(&mut message, &mut builder, batch.schema(), options).expect("open");
    stream.extend_from_slice(&message);
    for index in 0..2 {
        message.clear();
        let written = write_frame(&mut message, &mut builder, batch.schema(), &batch, index, options).expect("write");
        assert_eq!(written, message.len());
        stream.extend_from_slice(&message);
    }
    message.clear();
    write_end_of_stream(&mut message).expect("end");
    stream.extend_from_slice(&message);
    assert_eq!(stream, to_ipc_bytes(&[batch.clone(), batch]).expect("write"));

    let other = RecordBatch::from_payload(Int32Array::from_values(vec![1]).into_array_ref());
    let held = message.clone();
    let refused = write_frame(&mut message, &mut builder, sample_batch().schema(), &other, 2, options);
    assert!(matches!(refused, Err(IpcError::SchemaMismatch { index: 2 })));
    assert_eq!(message, held);
}
