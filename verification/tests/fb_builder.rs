use astrs_data::ipc::fb::builder::FbBuilder;
use astrs_data::ipc::fb::reader::{root_table, Table};

#[test]
fn finished_length_matches_alignment() {
    let mut b = FbBuilder::new();
    let table = b.start_table();
    b.push_slot_i64(0, 1, 0);
    let root = b.end_table(table);
    b.finish(root);
    assert_eq!(b.min_alignment(), 8);
    assert_eq!(b.finished_bytes().len() % 8, 0);
}

#[test]
fn interior_objects_land_on_their_alignment() {
    let mut b = FbBuilder::new();
    let s = b.create_string("abcdefghij");
    let table = b.start_table();
    b.push_slot_offset(0, s);
    b.push_slot_i64(1, -1, 0);
    b.push_slot_i16(2, 7, 0);
    let root = b.end_table(table);
    b.finish(root);

    let bytes = b.finished_bytes();
    let root = root_table(bytes).unwrap();
    // The i64 field must sit on an 8-byte boundary inside the buffer.
    let at = root.field(1).unwrap().expect("field present");
    assert_eq!(at % 8, 0, "i64 field at {at}");
    assert_eq!(root.i64(1, 0).unwrap(), -1);
    assert_eq!(root.i16(2, 0).unwrap(), 7);
    assert_eq!(root.string(0).unwrap(), Some("abcdefghij"));
}

#[test]
fn vtables_are_deduplicated() {
    let mut b = FbBuilder::new();
    let mut tables = Vec::new();
    for value in 0..6i32 {
        let t = b.start_table();
        b.push_slot_i32(0, value + 1, 0);
        b.push_slot_bool(1, true, false);
        tables.push(b.end_table(t));
    }
    assert_eq!(b.vtable_count(), 1, "identical layouts share one vtable");

    let vector = b.create_offset_vector(&tables);
    let root_start = b.start_table();
    b.push_slot_offset(0, vector);
    let root = b.end_table(root_start);
    b.finish(root);

    let bytes = b.finished_bytes().to_vec();
    let root = root_table(&bytes).unwrap();
    let span = root.vector(0, 4).unwrap().expect("vector");
    assert_eq!(span.len(), 6);
    for value in 0..6usize {
        let t = span.table(value).unwrap();
        assert_eq!(t.i32(0, 0).unwrap(), value as i32 + 1);
        assert!(t.bool(1, false).unwrap());
    }
}

#[test]
fn empty_table_and_empty_vector() {
    let mut b = FbBuilder::new();
    let empty_vec = b.create_offset_vector(&[]);
    let inner = b.start_table();
    let inner = b.end_table(inner);
    let outer = b.start_table();
    b.push_slot_offset(0, empty_vec);
    b.push_slot_offset(1, inner);
    let root = b.end_table(outer);
    b.finish(root);

    let bytes = b.finished_bytes().to_vec();
    let root = root_table(&bytes).unwrap();
    assert_eq!(root.vector(0, 4).unwrap().expect("vector").len(), 0);
    let nested = root.table(1).unwrap().expect("table");
    assert_eq!(nested.slot_count(), 0);
    assert_eq!(nested.i32(0, 11).unwrap(), 11);
}

#[test]
fn struct_vectors_preserve_field_order() {
    let mut b = FbBuilder::new();
    let v = b.create_struct_pair_vector(&[(10, 20), (30, 40)]);
    let t = b.start_table();
    b.push_slot_offset(0, v);
    let root = b.end_table(t);
    b.finish(root);

    let bytes = b.finished_bytes().to_vec();
    let root = root_table(&bytes).unwrap();
    let span = root.vector(0, 16).unwrap().expect("vector");
    assert_eq!(span.struct_pair(0).unwrap(), (10, 20));
    assert_eq!(span.struct_pair(1).unwrap(), (30, 40));
    // Struct elements must be 8-aligned.
    assert_eq!(span.element(0).expect("element") % 8, 0);
}

#[test]
fn regrow_preserves_content() {
    let mut b = FbBuilder::with_capacity(8);
    let strings: Vec<_> = (0..64)
        .map(|i| b.create_string(&format!("field-name-number-{i:03}")))
        .collect();
    let vector = b.create_offset_vector(&strings);
    let t = b.start_table();
    b.push_slot_offset(0, vector);
    let root = b.end_table(t);
    b.finish(root);

    let bytes = b.finished_bytes().to_vec();
    let root = root_table(&bytes).unwrap();
    let span = root.vector(0, 4).unwrap().expect("vector");
    assert_eq!(span.len(), 64);
    for i in 0..64usize {
        assert_eq!(span.string(i).unwrap(), format!("field-name-number-{i:03}"));
    }
}

#[test]
fn reset_reuses_the_allocation() {
    let mut b = FbBuilder::new();
    let s = b.create_string("first");
    let t = b.start_table();
    b.push_slot_offset(0, s);
    let root = b.end_table(t);
    b.finish(root);
    let first_len = b.finished_bytes().len();

    b.reset();
    assert_eq!(b.used(), 0);
    let s = b.create_string("second");
    let t = b.start_table();
    b.push_slot_offset(0, s);
    let root = b.end_table(t);
    b.finish(root);
    assert!(b.finished_bytes().len() >= first_len);

    // A reset builder must produce exactly what a fresh one would.
    let mut fresh = FbBuilder::new();
    let s = fresh.create_string("second");
    let t = fresh.start_table();
    fresh.push_slot_offset(0, s);
    let root = fresh.end_table(t);
    fresh.finish(root);
    assert_eq!(b.finished_bytes(), fresh.finished_bytes());

    let bytes = b.finished_bytes().to_vec();
    let root = root_table(&bytes).unwrap();
    assert_eq!(root.string(0).unwrap(), Some("second"));
}

#[test]
fn deeply_nested_tables_round_trip() {
    // Build a right-leaning chain of 32 tables, each pointing at the one
    // created before it.
    let mut b = FbBuilder::new();
    let leaf = b.start_table();
    b.push_slot_i32(0, 0, -1);
    let mut current = b.end_table(leaf);
    for depth in 1..32i32 {
        let t = b.start_table();
        b.push_slot_i32(0, depth, -1);
        b.push_slot_offset(1, current);
        current = b.end_table(t);
    }
    b.finish(current);

    let bytes = b.finished_bytes().to_vec();
    let mut table: Table<'_> = root_table(&bytes).unwrap();
    for depth in (0..32i32).rev() {
        assert_eq!(table.i32(0, -1).unwrap(), depth);
        match table.table(1).unwrap() {
            Some(child) => table = child,
            None => assert_eq!(depth, 0),
        }
    }
}

#[test]
fn strings_with_multibyte_and_empty_content() {
    let mut b = FbBuilder::new();
    let empty = b.create_string("");
    let uni = b.create_string("速度 🦀");
    let t = b.start_table();
    b.push_slot_offset(0, empty);
    b.push_slot_offset(1, uni);
    let root = b.end_table(t);
    b.finish(root);

    let bytes = b.finished_bytes().to_vec();
    let root = root_table(&bytes).unwrap();
    assert_eq!(root.string(0).unwrap(), Some(""));
    assert_eq!(root.string(1).unwrap(), Some("速度 🦀"));
}

#[test]
fn wip_offsets_expose_their_distance() {
    let mut b = FbBuilder::new();
    let s = b.create_string("x");
    assert!(s.value() > 0);
    assert_eq!(b.used(), s.value());
}

#[test]
fn default_builder_matches_new() {
    let a = FbBuilder::default();
    let b = FbBuilder::new();
    assert_eq!(a.used(), b.used());
    assert_eq!(a.min_alignment(), b.min_alignment());
}

#[test]
fn a_finished_length_is_a_multiple_of_four_at_least() {
    for count in 0..9 {
        let mut b = FbBuilder::new();
        let text = b.create_string(&"x".repeat(count));
        let table = b.start_table();
        b.push_slot_offset(0, text);
        b.push_slot_u8(1, 7, 0);
        let root = b.end_table(table);
        b.finish(root);
        assert_eq!(b.min_alignment(), 4);
        assert_eq!(b.finished_bytes().len() % 4, 0, "{count}");
        b.reset();
        assert_eq!((b.used(), b.min_alignment()), (0, 1));
    }
}
