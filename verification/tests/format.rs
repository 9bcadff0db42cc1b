use astrs_data::ipc::format::{
    field, message, message_header, time_unit, type_code, MetadataVersion, DEFAULT_MESSAGE_ALIGNMENT,
    MIN_MESSAGE_ALIGNMENT,
};

#[test]
fn metadata_versions_round_trip() {
    for version in [MetadataVersion::V4, MetadataVersion::V5] {
        assert_eq!(MetadataVersion::from_raw(version.as_raw()), Some(version));
    }
    for raw in [i16::MIN, -1, 0, 1, 2, 5, i16::MAX] {
        assert_eq!(MetadataVersion::from_raw(raw), None, "raw {raw}");
    }
    assert!(MetadataVersion::V4 < MetadataVersion::V5);
}

#[test]
fn type_codes_are_dense_and_named() {
    for code in 0..=26u8 {
        assert_ne!(type_code::name(code), "unknown", "code {code}");
    }
    assert_eq!(type_code::name(27), "unknown");
    // Spot-check the values that decide wire compatibility.
    assert_eq!(type_code::NULL, 1);
    assert_eq!(type_code::INT, 2);
    assert_eq!(type_code::FLOATING_POINT, 3);
    assert_eq!(type_code::BINARY, 4);
    assert_eq!(type_code::UTF8, 5);
    assert_eq!(type_code::BOOL, 6);
    assert_eq!(type_code::TIMESTAMP, 10);
    assert_eq!(type_code::LIST, 12);
    assert_eq!(type_code::STRUCT, 13);
    assert_eq!(type_code::FIXED_SIZE_BINARY, 15);
    assert_eq!(type_code::FIXED_SIZE_LIST, 16);
    assert_eq!(type_code::DURATION, 18);
    assert_eq!(type_code::LARGE_BINARY, 19);
    assert_eq!(type_code::LARGE_UTF8, 20);
}

#[test]
fn message_headers_are_named() {
    for header in 0..=5u8 {
        assert_ne!(message_header::name(header), "unknown");
    }
    assert_eq!(message_header::name(6), "unknown");
}

#[test]
fn time_units_are_named() {
    for unit in 0..=3i16 {
        assert_ne!(time_unit::name(unit), "unknown");
    }
    assert_eq!(time_unit::name(4), "unknown");
}

#[test]
fn union_slots_are_adjacent() {
    assert_eq!(message::HEADER, message::HEADER_TYPE + 1);
    assert_eq!(field::TYPE, field::TYPE_TYPE + 1);
}

#[test]
fn alignments_are_powers_of_two() {
    assert!(MIN_MESSAGE_ALIGNMENT.is_power_of_two());
    assert!(DEFAULT_MESSAGE_ALIGNMENT.is_power_of_two());
    assert!(DEFAULT_MESSAGE_ALIGNMENT >= MIN_MESSAGE_ALIGNMENT);
    assert_eq!(DEFAULT_MESSAGE_ALIGNMENT, astrs_data::ALIGNMENT);
}
