use astrs_data::ipc::fb::builder::FbBuilder;
use astrs_data::ipc::fb::reader::{read_i16, read_i64, read_i8, read_u16, read_u8, root_table};
use astrs_data::ipc::IpcError;

fn simple_table() -> Vec<u8> {
    let mut b = FbBuilder::new();
    let name = b.create_string("lidar");
    let table = b.start_table();
    b.push_slot_offset(0, name);
    b.push_slot_i32(1, -7, 0);
    b.push_slot_bool(2, true, false);
    b.push_slot_i64(3, i64::MIN, 0);
    let root = b.end_table(table);
    b.finish(root);
    b.finished_bytes().to_vec()
}

#[test]
fn round_trips_scalars_and_strings() {
    let bytes = simple_table();
    let root = root_table(&bytes).unwrap();
    assert_eq!(root.string(0).unwrap(), Some("lidar"));
    assert_eq!(root.i32(1, 0).unwrap(), -7);
    assert!(root.bool(2, false).unwrap());
    assert_eq!(root.i64(3, 0).unwrap(), i64::MIN);
    assert_eq!(root.i32(9, 123).unwrap(), 123);
    assert_eq!(root.string(9).unwrap(), None);
    assert!(root.slot_count() >= 4);
}

#[test]
fn defaults_are_not_encoded() {
    let mut b = FbBuilder::new();
    let table = b.start_table();
    b.push_slot_i32(0, 5, 5);
    b.push_slot_i32(1, 6, 5);
    let root = b.end_table(table);
    b.finish(root);
    let bytes = b.finished_bytes().to_vec();
    let root = root_table(&bytes).unwrap();
    assert!(root.field(0).unwrap().is_none(), "default was elided");
    assert_eq!(root.i32(0, 5).unwrap(), 5);
    assert_eq!(root.i32(1, 5).unwrap(), 6);
}

#[test]
fn truncated_buffers_are_rejected_not_panicked() {
    let bytes = simple_table();
    for cut in 0..bytes.len() {
        let head = &bytes[..cut];
        match root_table(head) {
            Ok(table) => {
                // Every getter must still refuse rather than panic.
                let _ = table.string(0);
                let _ = table.i32(1, 0);
                let _ = table.i64(3, 0);
                let _ = table.vector(0, 4);
            }
            Err(err) => assert!(err.is_malformed(), "{err:?}"),
        }
    }
}

#[test]
fn zero_uoffset_is_rejected() {
    let buf = [0u8; 8];
    let err = root_table(&buf).unwrap_err();
    assert!(matches!(err, IpcError::MalformedFlatbuffer { .. }));
}

#[test]
fn absurd_root_offset_is_rejected() {
    let mut buf = vec![0u8; 16];
    buf[..4].copy_from_slice(&u32::MAX.to_le_bytes());
    assert!(root_table(&buf).is_err());
}

#[test]
fn vectors_of_tables_and_strings() {
    let mut b = FbBuilder::new();
    let strings: Vec<_> = ["a", "bb", "ccc"]
        .into_iter()
        .map(|s| b.create_string(s))
        .collect();
    let vector = b.create_offset_vector(&strings);
    let table = b.start_table();
    b.push_slot_offset(0, vector);
    let root = b.end_table(table);
    b.finish(root);
    let bytes = b.finished_bytes().to_vec();

    let root = root_table(&bytes).unwrap();
    let span = root.vector(0, 4).unwrap().expect("vector present");
    assert_eq!(span.len(), 3);
    assert!(!span.is_empty());
    assert_eq!(span.string(0).unwrap(), "a");
    assert_eq!(span.string(2).unwrap(), "ccc");
    assert!(span.string(3).is_err());
    assert!(span.element(3).is_none());
}

#[test]
fn struct_vectors_read_pairs() {
    let mut b = FbBuilder::new();
    let vector = b.create_struct_pair_vector(&[(1, 2), (3, 4), (i64::MAX, i64::MIN)]);
    let table = b.start_table();
    b.push_slot_offset(0, vector);
    let root = b.end_table(table);
    b.finish(root);
    let bytes = b.finished_bytes().to_vec();

    let root = root_table(&bytes).unwrap();
    let span = root.vector(0, 16).unwrap().expect("vector present");
    assert_eq!(span.len(), 3);
    assert_eq!(span.struct_pair(0).unwrap(), (1, 2));
    assert_eq!(span.struct_pair(2).unwrap(), (i64::MAX, i64::MIN));
    assert!(span.struct_pair(3).is_err());
}

#[test]
fn negative_soffsets_are_followed() {
    // Hand-built: a table whose vtable sits *after* it, which is what
    // vtable de-duplication produces in the second and later tables.
    let mut buf = Vec::new();
    buf.extend_from_slice(&8u32.to_le_bytes()); // root offset -> 8
    buf.extend_from_slice(&[0, 0, 0, 0]); // padding
    buf.extend_from_slice(&(-8i32).to_le_bytes()); // table @8, vtable @16
    buf.extend_from_slice(&99u32.to_le_bytes()); // inline field @12
    buf.extend_from_slice(&6u16.to_le_bytes()); // vtable @16: len 6
    buf.extend_from_slice(&8u16.to_le_bytes()); // table size 8
    buf.extend_from_slice(&4u16.to_le_bytes()); // slot 0 -> table+4
    buf.extend_from_slice(&[0, 0]); // padding

    let root = root_table(&buf).unwrap();
    assert_eq!(root.i32(0, 0).unwrap(), 99);
}

#[test]
fn vtable_shorter_than_header_is_rejected() {
    let mut buf = Vec::new();
    buf.extend_from_slice(&8u32.to_le_bytes());
    buf.extend_from_slice(&[0, 0, 0, 0]);
    buf.extend_from_slice(&4i32.to_le_bytes()); // table @8 -> vtable @4
    buf.extend_from_slice(&[0, 0, 0, 0]);
    // vtable at 4 reads len = 0 -> rejected
    assert!(root_table(&buf).is_err());
}

#[test]
fn read_helpers_report_positions() {
    let buf = [1u8, 2, 3];
    let err = read_i64(&buf, 0, "test").unwrap_err();
    match err {
        IpcError::MalformedFlatbuffer { context, position } => {
            assert_eq!(context, "test");
            assert_eq!(position, 0);
        }
        other => panic!("unexpected {other:?}"),
    }
    assert_eq!(read_u8(&buf, 2, "test").unwrap(), 3);
    assert!(read_u8(&buf, 3, "test").is_err());
    assert_eq!(read_u16(&buf, 0, "test").unwrap(), 0x0201);
    assert_eq!(read_i16(&buf, 0, "test").unwrap(), 0x0201);
    assert_eq!(read_i8(&buf, 0, "test").unwrap(), 1);
}
