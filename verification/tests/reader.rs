use astrs_data::array::{Int32Array, StringArray, UInt8Array};
use astrs_data::ipc::format::CONTINUATION_MARKER;
use astrs_data::ipc::{
    read_ipc_stream, read_ipc_stream_from, to_ipc_bytes, write_ipc_stream_with, IpcError, IpcStreamReader,
    IpcStreamWriter, MessageLimits, ReadOptions, WriteOptions, DEFAULT_MAX_STREAM_BYTES,
};
use astrs_data::{Buffer, DataType, Field, RecordBatch, Schema};
use std::sync::Arc;

fn sample_batch(seed: i32) -> RecordBatch {
    let schema = Arc::new(Schema::new(vec![
        Field::new("i", DataType::Int32, true),
        Field::new("s", DataType::Utf8, true),
    ]));
    RecordBatch::try_new(
        schema,
        vec![
            Int32Array::from_opt_iter(vec![Some(seed), None, Some(seed + 2)]).into_array_ref(),
            StringArray::from_opt_iter(vec![Some("aa"), Some("bbb"), None]).into_array_ref(),
        ],
    )
    .expect("batch")
}

#[test]
fn a_stream_round_trips_through_the_reader() {
    let batches = vec![sample_batch(1), sample_batch(10)];
    let bytes = to_ipc_bytes(&batches).expect("write");
    let (schema, decoded) = read_ipc_stream(bytes.as_slice()).expect("read");
    assert_eq!(schema, batches[0].schema_ref());
    assert_eq!(decoded, batches);
}

#[test]
fn the_reader_is_an_iterator() {
    let batches = vec![sample_batch(1), sample_batch(2), sample_batch(3)];
    let bytes = to_ipc_bytes(&batches).expect("write");
    let mut reader = IpcStreamReader::from_slice(bytes.as_slice()).expect("reader");
    let collected: Result<Vec<RecordBatch>, IpcError> = std::iter::from_fn(|| reader.next()).collect();
    assert_eq!(collected.expect("batches"), batches);
}

#[test]
fn decoding_is_zero_copy_from_an_owned_buffer() {
    let batch = RecordBatch::from_payload(
        UInt8Array::from_values((0..255u8).collect::<Vec<_>>()).into_array_ref(),
    );
    let bytes = to_ipc_bytes(std::slice::from_ref(&batch)).expect("write");
    let buffer = Buffer::from_vec(bytes);
    let before = buffer.share_count();
    let mut reader = IpcStreamReader::new(buffer).expect("reader");
    let decoded = reader.next_batch().expect("decode").expect("batch");
    assert_eq!(decoded, batch);
    assert!(reader.bytes().share_count() > before, "columns must window into the stream");
    assert_eq!(reader.bytes().len(), reader.position() + 8);
}

#[test]
fn a_schema_only_stream_yields_no_batches() {
    let schema = Arc::new(Schema::new(vec![Field::new("a", DataType::Bool, true)]));
    let mut bytes = Vec::new();
    write_ipc_stream_with(&mut bytes, Arc::clone(&schema), &[], WriteOptions::new())
        .expect("write");
    let (decoded, batches) = read_ipc_stream(&bytes).expect("read");
    assert_eq!(decoded, schema);
    assert!(batches.is_empty());
}

#[test]
fn a_stream_without_a_terminator_still_reads() {
    let batch = sample_batch(4);
    let mut writer = IpcStreamWriter::try_new(Vec::new(), batch.schema_ref()).expect("writer");
    writer.write(&batch).expect("write");
    // No `finish()`.
    let (_, batches) = read_ipc_stream(writer.sink()).expect("read");
    assert_eq!(batches, vec![batch]);
}

#[test]
fn an_empty_stream_is_an_error() {
    let err = IpcStreamReader::from_slice(&[]).unwrap_err();
    assert!(matches!(err, IpcError::EmptyStream), "{err:?}");
    let mut only_marker = Vec::new();
    only_marker.extend_from_slice(&CONTINUATION_MARKER.to_le_bytes());
    only_marker.extend_from_slice(&0i32.to_le_bytes());
    let err = IpcStreamReader::from_slice(&only_marker).unwrap_err();
    assert!(matches!(err, IpcError::EmptyStream), "{err:?}");
}

#[test]
fn a_truncated_prefix_is_an_end_of_stream_error() {
    let err = IpcStreamReader::from_slice(&[0xFF, 0xFF, 0xFF, 0xFF, 0x10]).unwrap_err();
    assert!(
        matches!(err, IpcError::UnexpectedEndOfStream { .. }),
        "{err:?}"
    );
}

#[test]
fn every_truncation_of_a_stream_is_rejected_or_short() {
    let batch = sample_batch(7);
    let bytes = to_ipc_bytes(std::slice::from_ref(&batch)).expect("write");
    for cut in 0..bytes.len() {
        match IpcStreamReader::from_slice(&bytes.as_slice()[..cut]) {
            Ok(mut reader) => {
                // A truncated stream may still hold a valid schema; what
                // it must never do is yield a bogus batch.
                if let Ok(Some(decoded)) = reader.next_batch() {
                    assert_eq!(decoded, batch, "cut {cut}");
                }
            }
            Err(IpcError::EmptyStream) => assert_eq!(cut, 0, "only an empty input is empty"),
            Err(err) => assert!(err.is_malformed(), "cut {cut}: {err:?}"),
        }
    }
}

#[test]
fn a_batch_before_the_schema_is_rejected() {
    let batch = sample_batch(1);
    let bytes = to_ipc_bytes(std::slice::from_ref(&batch)).expect("write");
    // Skip the schema message: the first message is then a RecordBatch.
    let mut reader = IpcStreamReader::from_slice(bytes.as_slice()).expect("reader");
    let start = reader.position();
    let err = IpcStreamReader::from_slice(&bytes.as_slice()[start..]).unwrap_err();
    match err {
        IpcError::UnexpectedMessage { expected, found } => {
            assert_eq!(expected, "Schema");
            assert_eq!(found, "RecordBatch");
        }
        other => panic!("unexpected {other:?}"),
    }
    assert!(reader.next_batch().expect("batch").is_some());
}

#[test]
fn oversized_streams_are_refused_when_slurped() {
    let batch = sample_batch(1);
    let bytes = to_ipc_bytes(std::slice::from_ref(&batch)).expect("write");
    let options = ReadOptions::new().with_max_stream_bytes(16);
    let err = IpcStreamReader::from_reader_with_options(bytes.as_slice(), options).unwrap_err();
    assert!(
        matches!(err, IpcError::TooLarge { what: "stream", .. }),
        "{err:?}"
    );
}

#[test]
fn reading_from_an_io_source_matches_reading_from_memory() {
    let batches = vec![sample_batch(1), sample_batch(2)];
    let bytes = to_ipc_bytes(&batches).expect("write");
    let (_, from_reader) = read_ipc_stream_from(bytes.as_slice()).expect("read");
    assert_eq!(from_reader, batches);
}

#[test]
fn counters_track_progress() {
    let batches = vec![sample_batch(1), sample_batch(2)];
    let bytes = to_ipc_bytes(&batches).expect("write");
    let mut reader = IpcStreamReader::from_slice(bytes.as_slice()).expect("reader");
    assert_eq!(reader.batches_read(), 0);
    assert!(!reader.is_finished());
    while reader.next_batch().expect("batch").is_some() {}
    assert_eq!(reader.batches_read(), 2);
    assert!(reader.is_finished());
    assert_eq!(reader.position(), bytes.len() - 8);
    assert!(reader.next_batch().expect("done").is_none());
}

#[test]
fn options_are_configurable() {
    let options = ReadOptions::new()
        .with_max_stream_bytes(99)
        .with_limits(MessageLimits::new().with_max_body_bytes(7));
    assert_eq!(options.max_stream_bytes, 99);
    assert_eq!(options.limits.max_body_bytes, 7);
    assert_eq!(
        ReadOptions::default().max_stream_bytes,
        DEFAULT_MAX_STREAM_BYTES
    );
}
