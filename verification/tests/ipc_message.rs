use astrs_data::ipc::fb::builder::FbBuilder;
use astrs_data::ipc::format::{message, message_header, MetadataVersion, CONTINUATION_MARKER};
use astrs_data::ipc::message::{
    build_message, decode_message, encode_schema_message, scan_message, write_end_of_stream, write_message,
    write_padding, write_schema_message, MessageLimits, LEGACY_PREFIX_LEN,
};
use astrs_data::ipc::schema::encode_schema;
use astrs_data::ipc::IpcError;
use astrs_data::{DataType, Field, Schema};

fn schema() -> Schema {
    Schema::new(vec![Field::new("a", DataType::Int32, true)])
}

#[test]
fn envelopes_are_aligned_and_self_describing() {
    for alignment in [8usize, 16, 32, 64, 128] {
        let mut stream = Vec::new();
        let written = write_schema_message(&mut stream, &schema(), alignment).expect("write");
        assert_eq!(written, stream.len());
        assert_eq!(stream.len() % alignment, 0, "alignment {alignment}");

        let message = scan_message(&stream, 0, &MessageLimits::default())
            .expect("scan")
            .expect("message");
        assert!(message.continued);
        assert_eq!(message.body.len(), 0);
        assert_eq!(message.next, stream.len());

        let info = decode_message(&stream[message.metadata]).expect("decode");
        assert_eq!(info.version, MetadataVersion::V5);
        assert_eq!(info.header_type, message_header::SCHEMA);
        assert_eq!(info.body_length, 0);
    }
}

#[test]
fn end_of_stream_is_reported_as_none() {
    let mut stream = Vec::new();
    write_schema_message(&mut stream, &schema(), 8).expect("write");
    let end = stream.len();
    write_end_of_stream(&mut stream).expect("eos");
    assert_eq!(stream.len(), end + 8);

    let limits = MessageLimits::default();
    let first = scan_message(&stream, 0, &limits)
        .expect("scan")
        .expect("msg");
    assert!(
        scan_message(&stream, first.next, &limits)
            .expect("scan")
            .is_none()
    );
}

#[test]
fn a_clean_eof_is_the_end_of_the_stream() {
    let mut stream = Vec::new();
    write_schema_message(&mut stream, &schema(), 8).expect("write");
    let limits = MessageLimits::default();
    let first = scan_message(&stream, 0, &limits)
        .expect("scan")
        .expect("msg");
    assert_eq!(first.next, stream.len());
    assert!(
        scan_message(&stream, stream.len(), &limits)
            .expect("scan")
            .is_none(),
        "no terminator is still a valid end of stream"
    );
}

#[test]
fn legacy_framing_is_accepted() {
    // Same message, but with the 4-byte prefix the pre-0.15 encoding uses.
    let metadata = encode_schema_message(&schema()).expect("encode");
    let padded = (LEGACY_PREFIX_LEN + metadata.len()).next_multiple_of(8);
    let metadata_length = padded - LEGACY_PREFIX_LEN;
    let mut stream = Vec::new();
    stream.extend_from_slice(&(metadata_length as i32).to_le_bytes());
    stream.extend_from_slice(&metadata);
    stream.resize(padded, 0);

    let message = scan_message(&stream, 0, &MessageLimits::default())
        .expect("scan")
        .expect("message");
    assert!(!message.continued);
    let info = decode_message(&stream[message.metadata]).expect("decode");
    assert_eq!(info.header_type, message_header::SCHEMA);
}

#[test]
fn truncated_prefixes_and_bodies_are_rejected() {
    let mut stream = Vec::new();
    write_schema_message(&mut stream, &schema(), 8).expect("write");
    let limits = MessageLimits::default();
    for cut in 1..stream.len() {
        match scan_message(&stream[..cut], 0, &limits) {
            Ok(Some(_)) => panic!("a truncated stream must not yield a message at {cut}"),
            Ok(None) => panic!("a truncated stream is not an empty one at {cut}"),
            Err(err) => assert!(err.is_malformed(), "{err:?}"),
        }
    }
}

#[test]
fn negative_and_oversized_lengths_are_rejected() {
    let limits = MessageLimits::default();
    let mut stream = Vec::new();
    stream.extend_from_slice(&CONTINUATION_MARKER.to_le_bytes());
    stream.extend_from_slice(&(-4i32).to_le_bytes());
    stream.resize(64, 0);
    let err = scan_message(&stream, 0, &limits).unwrap_err();
    assert!(
        matches!(err, IpcError::NegativeMetadataLength { length: -4, .. }),
        "{err:?}"
    );

    let mut stream = Vec::new();
    stream.extend_from_slice(&CONTINUATION_MARKER.to_le_bytes());
    stream.extend_from_slice(&1_000_000i32.to_le_bytes());
    stream.resize(64, 0);
    let tight = MessageLimits::default().with_max_metadata_bytes(1024);
    let err = scan_message(&stream, 0, &tight).unwrap_err();
    assert!(
        matches!(
            err,
            IpcError::TooLarge {
                what: "metadata",
                ..
            }
        ),
        "{err:?}"
    );
}

#[test]
fn an_absurd_legacy_prefix_is_rejected() {
    let mut stream = vec![0u8; 32];
    stream[..4].copy_from_slice(&0xFFFF_FFFEu32.to_le_bytes());
    let err = scan_message(&stream, 0, &MessageLimits::default()).unwrap_err();
    assert!(matches!(err, IpcError::InvalidContinuation { .. }), "{err:?}");
}

#[test]
fn oversized_bodies_are_rejected_before_indexing() {
    // A well-formed schema message whose body length claims 4 GiB.
    let mut builder = FbBuilder::new();
    builder.reset();
    let header = encode_schema(&mut builder, &schema()).expect("schema");
    let message = build_message(&mut builder, message_header::SCHEMA, header, 1 << 32);
    builder.finish(message);
    let metadata = builder.finished_bytes().to_vec();

    let mut stream = Vec::new();
    write_message(&mut stream, &metadata, 8).expect("write");
    let err = scan_message(&stream, 0, &MessageLimits::default()).unwrap_err();
    assert!(
        matches!(err, IpcError::TooLarge { what: "body", .. }),
        "{err:?}"
    );
}

#[test]
fn unsupported_metadata_versions_are_rejected() {
    let mut builder = FbBuilder::new();
    let header = encode_schema(&mut builder, &schema()).expect("schema");
    let table = builder.start_table();
    builder.push_slot_i16(message::VERSION, 1, 0);
    builder.push_slot_u8(message::HEADER_TYPE, message_header::SCHEMA, 0);
    builder.push_slot_offset(message::HEADER, header);
    let message = builder.end_table(table);
    builder.finish(message);
    let metadata = builder.finished_bytes().to_vec();

    let err = decode_message(&metadata).unwrap_err();
    assert!(
        matches!(err, IpcError::UnsupportedMetadataVersion { version: 1 }),
        "{err:?}"
    );
}

#[test]
fn a_message_without_a_header_is_malformed() {
    let mut builder = FbBuilder::new();
    let table = builder.start_table();
    builder.push_slot_i16(message::VERSION, MetadataVersion::V5.as_raw(), 0);
    let message = builder.end_table(table);
    builder.finish(message);
    let metadata = builder.finished_bytes().to_vec();
    let err = decode_message(&metadata).unwrap_err();
    assert!(matches!(err, IpcError::MissingField { .. }), "{err:?}");
}

#[test]
fn padding_writes_exact_counts() {
    for count in [0usize, 1, 7, 64, 65, 200] {
        let mut sink = Vec::new();
        write_padding(&mut sink, count, "test").expect("pad");
        assert_eq!(sink.len(), count);
        assert!(sink.iter().all(|b| *b == 0));
    }
}

#[test]
fn limits_are_configurable() {
    let limits = MessageLimits::new()
        .with_max_body_bytes(7)
        .with_max_metadata_bytes(9);
    assert_eq!(limits.max_body_bytes, 7);
    assert_eq!(limits.max_metadata_bytes, 9);
    assert_eq!(
        MessageLimits::default().max_body_bytes,
        astrs_data::MAX_PAYLOAD_BYTES
    );
}

#[test]
fn any_alignment_divides_an_envelope() {
    for (alignment, len) in [(1usize, 16usize), (3, 18), (5, 20), (6, 24), (7, 28), (8, 16), (24, 24), (100, 100)] {
        let mut stream = Vec::new();
        let written = write_message(&mut stream, &[0u8; 8], alignment).expect("write");
        assert_eq!(written, len, "alignment {alignment}");
        assert_eq!(stream.len(), len, "alignment {alignment}");
        assert_eq!(stream.len() % alignment, 0);
    }
    let mut stream = Vec::new();
    assert_eq!(write_message(&mut stream, &[0u8; 9], 0).expect("write"), 24);
}

#[test]
fn a_built_message_decodes_to_what_it_was_built_of() {
    for body_length in [0i64, 64, 1 << 32] {
        let mut builder = FbBuilder::new();
        let header = encode_schema(&mut builder, &schema()).expect("schema");
        let message = build_message(&mut builder, message_header::RECORD_BATCH, header, body_length);
        builder.finish(message);
        let metadata = builder.finished_bytes().to_vec();
        let info = decode_message(&metadata).expect("decode");
        assert_eq!(info.version, MetadataVersion::V5);
        assert_eq!(info.header_type, message_header::RECORD_BATCH);
        assert_eq!(info.body_length, body_length);
    }
}

#[test]
fn a_schema_message_is_found_whole_and_refused_when_cut() {
    for width in [4, 0, -1] {
        let schema = Schema::new(vec![Field::new("id", DataType::FixedSizeBinary(width), true)]);
        let mut stream = Vec::new();
        write_schema_message(&mut stream, &schema, 64).expect("write");
        let limits = MessageLimits::default();
        let message = scan_message(&stream, 0, &limits).expect("scan").expect("message");
        assert_eq!(message.metadata, 8..stream.len());
        assert_eq!(message.next, stream.len());
        for cut in 1..stream.len() {
            assert!(scan_message(&stream[..cut], 0, &limits).unwrap_err().is_malformed(), "cut {cut}");
        }
    }
}
