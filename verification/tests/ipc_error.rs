use astrs_data::ipc::error::ByteCount;
use astrs_data::ipc::IpcError;
use astrs_data::DataError;

#[test]
fn io_errors_carry_context() {
    let err = IpcError::io(
        "writing the schema message",
        std::io::Error::new(std::io::ErrorKind::BrokenPipe, "gone").to_string(),
    );
    let text = err.to_string();
    assert!(text.contains("writing the schema message"), "{text}");
    assert!(text.contains("gone"), "{text}");
}

#[test]
fn malformed_classification_is_exclusive() {
    let malformed = [
        IpcError::malformed("x", 0),
        IpcError::missing("Message", "header"),
        IpcError::UnexpectedEndOfStream {
            context: "metadata",
            available: 1,
            expected: 8,
        },
    ];
    for err in malformed {
        assert!(err.is_malformed(), "{err:?}");
        assert!(!err.is_unsupported(), "{err:?}");
    }
    let unsupported = [
        IpcError::UnsupportedDictionary,
        IpcError::UnsupportedMetadataVersion { version: 1 },
        IpcError::UnsupportedCompression { codec: 0 },
    ];
    for err in unsupported {
        assert!(err.is_unsupported(), "{err:?}");
        assert!(!err.is_malformed(), "{err:?}");
    }
}

#[test]
fn data_errors_convert() {
    let err: IpcError = DataError::UnknownStructLength.into();
    assert!(matches!(err, IpcError::Data(_)));
    assert!(!err.is_malformed());
}

#[test]
fn byte_count_formats_units() {
    assert_eq!(ByteCount(512).to_string(), "512 B");
    assert_eq!(ByteCount(2048).to_string(), "2.0 KiB");
    assert_eq!(ByteCount(256 * 1024 * 1024).to_string(), "256.0 MiB");
}

#[test]
fn huge_byte_counts_round_as_doubles_do() {
    assert_eq!(ByteCount(131_073 * (1 << 38) + 1).to_string(), "32768.2 TiB");
    assert_eq!(ByteCount(u64::MAX).to_string(), format!("{:.1} TiB", u64::MAX as f64 / (1u64 << 40) as f64));
}

#[test]
fn messages_name_the_offending_value() {
    let err = IpcError::UnsupportedType {
        code: 17,
        name: "Map",
        field: "labels".into(),
    };
    let text = err.to_string();
    assert!(text.contains("Map"), "{text}");
    assert!(text.contains("labels"), "{text}");

    let err = IpcError::BufferOutOfBounds {
        index: 3,
        offset: 64,
        length: 4096,
        body_len: 128,
    };
    assert!(err.to_string().contains("128-byte body"));
}
