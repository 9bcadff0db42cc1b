use astrs_data::array::{
    slice_array, Int32Array, ListArray, NullArray, StringArray, StructArray, UInt8Array,
};
use astrs_data::ipc::BatchLayout;
use astrs_data::{DataType, Field, RecordBatch, Schema};
use std::sync::Arc;

fn plan(batch: &RecordBatch, alignment: usize) -> BatchLayout {
    BatchLayout::plan(batch, alignment).expect("plan")
}

fn body_of(layout: &BatchLayout) -> Vec<u8> {
    let mut sink = Vec::new();
    let written = layout.write_body(&mut sink).expect("body");
    assert_eq!(written, sink.len());
    sink
}

#[test]
fn a_null_column_contributes_a_node_and_no_buffers() {
    let batch = RecordBatch::from_payload(NullArray::new(4).into_array_ref());
    let layout = plan(&batch, 8);
    assert_eq!(layout.nodes(), &[(4, 4)], "every slot of a Null is null");
    assert!(layout.buffers().is_empty());
    assert_eq!(layout.body_length(), 0);
    assert!(body_of(&layout).is_empty());
}

#[test]
fn a_column_without_nulls_writes_an_empty_validity_buffer() {
    let batch = RecordBatch::from_payload(Int32Array::from_values(vec![1, 2, 3]).into_array_ref());
    let layout = plan(&batch, 8);
    assert_eq!(layout.nodes(), &[(3, 0)]);
    assert_eq!(layout.buffers(), &[(0, 0), (0, 12)]);
    assert_eq!(layout.body_length(), 16);
    assert_eq!(body_of(&layout).len(), 16);
}

#[test]
fn buffers_land_on_the_requested_alignment() {
    let batch = RecordBatch::from_payload(
        StringArray::from_opt_iter(vec![Some("aa"), None, Some("bbb")]).into_array_ref(),
    );
    for alignment in [8usize, 16, 64, 128] {
        let layout = plan(&batch, alignment);
        for (offset, _) in layout.buffers() {
            assert_eq!(
                *offset as usize % alignment,
                0,
                "alignment {alignment}, offset {offset}"
            );
        }
        assert_eq!(layout.body_length() as usize % alignment, 0);
        assert_eq!(body_of(&layout).len(), layout.body_length() as usize);
    }
}

#[test]
fn slicing_rebases_offsets_and_narrows_the_child() {
    let column = StringArray::from_values(vec!["zero", "one", "two", "three"]).into_array_ref();
    let sliced = slice_array(&column, 2, 2);
    let batch = RecordBatch::from_payload(sliced);
    let layout = plan(&batch, 8);

    assert_eq!(layout.nodes(), &[(2, 0)]);
    let values = layout.body_buffers().last().expect("values buffer");
    assert_eq!(values.as_slice(), b"twothree");
    let offsets = &layout.body_buffers()[1];
    let typed: Vec<i32> = offsets
        .as_slice()
        .chunks(4)
        .map(|c| i32::from_le_bytes([c[0], c[1], c[2], c[3]]))
        .collect();
    assert_eq!(typed, vec![0, 3, 8], "offsets are re-based to zero");
}

#[test]
fn a_sliced_bitmap_is_repacked() {
    let column =
        Int32Array::from_opt_iter(vec![Some(1), None, Some(3), None, Some(5), Some(6), None, None])
            .into_array_ref();
    let sliced = slice_array(&column, 3, 4);
    let batch = RecordBatch::from_payload(sliced);
    let layout = plan(&batch, 8);
    // Rows 3..7 of the source are null, 5, 6, null.
    assert_eq!(layout.nodes(), &[(4, 2)]);
    let validity = &layout.body_buffers()[0];
    assert_eq!(validity.len(), 1, "one byte covers four slots");
    assert_eq!(
        validity.as_slice()[0] & 0x0f,
        0b0110,
        "the bitmap is repacked to bit offset zero"
    );
}

#[test]
fn nested_types_emit_depth_first_nodes() {
    let child = Int32Array::from_values(vec![1, 2, 3, 4]).into_array_ref();
    let lists = ListArray::try_from_lengths(
        Field::new("item", DataType::Int32, false),
        vec![2usize, 1, 1],
        child,
    )
    .expect("lists");
    let batch = RecordBatch::from_payload(lists.into_array_ref());
    let layout = plan(&batch, 8);
    assert_eq!(layout.nodes(), &[(3, 0), (4, 0)]);
    // list: validity, offsets; child: validity, values.
    assert_eq!(layout.buffers().len(), 4);
}

#[test]
fn struct_children_follow_the_parent() {
    let fields = vec![
        Field::new("a", DataType::Int32, true),
        Field::new("b", DataType::Utf8, true),
    ];
    let columns = vec![
        Int32Array::from_opt_iter(vec![Some(1), None]).into_array_ref(),
        StringArray::from_values(vec!["x", "y"]).into_array_ref(),
    ];
    let strukt = StructArray::try_new(fields, columns, None).expect("struct");
    let batch = RecordBatch::from_payload(strukt.into_array_ref());
    let layout = plan(&batch, 8);
    assert_eq!(layout.nodes(), &[(2, 0), (2, 1), (2, 0)]);
    assert_eq!(layout.buffers().len(), 1 + 2 + 3);
}

#[test]
fn payload_bytes_excludes_padding() {
    let batch = RecordBatch::from_payload(
        UInt8Array::from_values((0..100u8).collect::<Vec<_>>()).into_array_ref(),
    );
    let layout = plan(&batch, 64);
    assert_eq!(layout.payload_bytes(), 100);
    assert_eq!(layout.body_length(), 128);
}

#[test]
fn empty_batches_have_empty_bodies() {
    let schema = Arc::new(Schema::new(vec![
        Field::new("a", DataType::Utf8, true),
        Field::new("b", DataType::Bool, true),
    ]));
    let batch = RecordBatch::try_new_empty(schema).expect("empty");
    let layout = plan(&batch, 64);
    assert_eq!(layout.nodes(), &[(0, 0), (0, 0)]);
    // utf8: validity, offsets, values — then bool: validity, values. Only
    // the offset buffer carries anything, and only its single leading `0`.
    assert_eq!(
        layout.buffers(),
        &[(0, 0), (0, 4), (64, 0), (64, 0), (64, 0)]
    );
    assert_eq!(layout.payload_bytes(), 4);
    assert_eq!(body_of(&layout).len(), layout.body_length() as usize);
}

#[test]
fn zero_column_batches_carry_only_a_row_count() {
    let schema = Arc::new(Schema::new(Vec::new()));
    let batch =
        RecordBatch::try_new_with_row_count(schema, Vec::new(), 5).expect("zero columns");
    let layout = plan(&batch, 64);
    assert!(layout.nodes().is_empty());
    assert!(layout.buffers().is_empty());
    assert_eq!(layout.body_length(), 0);
}
