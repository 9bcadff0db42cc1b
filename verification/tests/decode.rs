use astrs_data::array::{
    BinaryArray, Float64Array, Int32Array, Int64Array, ListArray, NullArray, StringArray, F64,
};
use astrs_data::ipc::decode::{assemble_batch, decode_columns};
use astrs_data::ipc::{BatchDecoder, BatchLayout, IpcError, MAX_NESTING_DEPTH};
use astrs_data::{Buffer, DataType, Field, RecordBatch};

/// Round-trips a batch through the plan/decode pair without any framing.
fn round_trip(batch: &RecordBatch) -> RecordBatch {
    let layout = BatchLayout::plan(batch, 64).expect("plan");
    let mut body = Vec::new();
    layout.write_body(&mut body).expect("body");
    let buffer = Buffer::from_slice(&body);
    let columns = decode_columns(
        batch.schema().fields(),
        batch.num_rows(),
        &buffer,
        layout.nodes(),
        layout.buffers(),
    )
    .expect("decode");
    assemble_batch(batch.schema(), columns, batch.num_rows()).expect("assemble")
}

fn body_of(batch: &RecordBatch) -> (BatchLayout, Buffer) {
    let layout = BatchLayout::plan(batch, 64).expect("plan");
    let mut body = Vec::new();
    layout.write_body(&mut body).expect("body");
    (
        layout,
        Buffer::from_slice(&body),
    )
}

#[test]
fn primitives_round_trip_through_the_body() {
    let batch = RecordBatch::from_payload(
        Int32Array::from_opt_iter(vec![Some(1), None, Some(-3)]).into_array_ref(),
    );
    assert_eq!(round_trip(&batch), batch);
}

#[test]
fn strings_round_trip_and_validate() {
    let batch = RecordBatch::from_payload(
        StringArray::from_opt_iter(vec![Some("héllo"), None, Some("")])
            .into_array_ref(),
    );
    assert_eq!(round_trip(&batch), batch);
}

#[test]
fn invalid_utf8_is_rejected() {
    // A binary column whose bytes are not UTF-8, decoded as a string
    // column: the checked constructor must refuse it.
    let bytes = BinaryArray::from_values(vec![&[0xff, 0xfe][..]]);
    let batch = RecordBatch::from_payload(bytes.into_array_ref());
    let (layout, buffer) = body_of(&batch);
    let fields = vec![Field::new("data", DataType::Utf8, true)];
    let err =
        decode_columns(&fields, 1, &buffer, layout.nodes(), layout.buffers()).unwrap_err();
    assert!(matches!(err, IpcError::Data(_)), "{err:?}");
}

#[test]
fn a_short_values_buffer_is_reported() {
    let batch = RecordBatch::from_payload(
        Int64Array::from_values(vec![1, 2, 3]).into_array_ref(),
    );
    let (layout, buffer) = body_of(&batch);
    let mut buffers = layout.buffers().to_vec();
    buffers[1].1 = 8; // one value where three were promised
    let err = decode_columns(
        batch.schema().fields(),
        3,
        &buffer,
        layout.nodes(),
        &buffers,
    )
    .unwrap_err();
    match err {
        IpcError::BufferTooShort { role, required, .. } => {
            assert_eq!(role, "values");
            assert_eq!(required, 24);
        }
        other => panic!("unexpected {other:?}"),
    }
}

#[test]
fn buffers_outside_the_body_are_rejected() {
    let batch = RecordBatch::from_payload(
        Int64Array::from_values(vec![1, 2, 3]).into_array_ref(),
    );
    let (layout, buffer) = body_of(&batch);
    for bad in [(1_000_000i64, 8i64), (-8, 8), (0, -1)] {
        let mut buffers = layout.buffers().to_vec();
        buffers[1] = bad;
        let err = decode_columns(
            batch.schema().fields(),
            3,
            &buffer,
            layout.nodes(),
            &buffers,
        )
        .unwrap_err();
        assert!(
            matches!(err, IpcError::BufferOutOfBounds { .. }),
            "{bad:?}: {err:?}"
        );
    }
}

#[test]
fn wrong_vector_lengths_are_rejected() {
    let batch =
        RecordBatch::from_payload(Int64Array::from_values(vec![1]).into_array_ref());
    let (layout, buffer) = body_of(&batch);
    let err =
        decode_columns(batch.schema().fields(), 1, &buffer, &[], layout.buffers()).unwrap_err();
    assert!(matches!(err, IpcError::LayoutCountMismatch { .. }), "{err:?}");
    let err =
        decode_columns(batch.schema().fields(), 1, &buffer, layout.nodes(), &[]).unwrap_err();
    assert!(matches!(err, IpcError::LayoutCountMismatch { .. }), "{err:?}");
}

#[test]
fn absurd_field_nodes_are_rejected() {
    let batch =
        RecordBatch::from_payload(Int64Array::from_values(vec![1]).into_array_ref());
    let (layout, buffer) = body_of(&batch);
    for node in [(-1i64, 0i64), (1, 5), (1, -7)] {
        let err = decode_columns(
            batch.schema().fields(),
            1,
            &buffer,
            &[node],
            layout.buffers(),
        )
        .unwrap_err();
        assert!(
            matches!(err, IpcError::InvalidFieldNode { .. }),
            "{node:?}: {err:?}"
        );
    }
}

#[test]
fn nested_columns_round_trip() {
    let child = Float64Array::from_values([1.0f64, 2.0, 3.0, 4.0].iter().map(|v| F64::from_bits(v.to_bits())).collect()).into_array_ref();
    let lists = ListArray::try_from_lengths(
        Field::new("item", DataType::Float64, false),
        vec![2usize, 0, 2],
        child,
    )
    .expect("lists");
    let batch = RecordBatch::from_payload(lists.into_array_ref());
    assert_eq!(round_trip(&batch), batch);
}

#[test]
fn a_null_column_needs_no_buffers() {
    let batch = RecordBatch::from_payload(NullArray::new(3).into_array_ref());
    let (layout, buffer) = body_of(&batch);
    assert!(layout.buffers().is_empty());
    let columns =
        decode_columns(batch.schema().fields(), 3, &buffer, &[(3, 3)], &[]).expect("decode");
    assert_eq!(columns[0].len(), 3);
    assert_eq!(columns[0].data_type(), &DataType::Null);
}

#[test]
fn empty_offset_buffers_decode_as_empty_columns() {
    let fields = vec![Field::new("data", DataType::Utf8, true)];
    let buffer = Buffer::new();
    let columns = decode_columns(&fields, 0, &buffer, &[(0, 0)], &[(0, 0), (0, 0), (0, 0)])
        .expect("decode");
    assert_eq!(columns[0].len(), 0);
}

#[test]
fn deep_nesting_is_refused() {
    let mut data_type = DataType::Int32;
    for _ in 0..MAX_NESTING_DEPTH {
        data_type = DataType::list(Field::new("item", data_type, true));
    }
    let fields = vec![Field::new("deep", data_type, true)];
    let buffer = Buffer::new();
    let nodes = vec![(0i64, 0i64); MAX_NESTING_DEPTH + 1];
    let buffers = vec![(0i64, 0i64); 2 * MAX_NESTING_DEPTH + 2];
    let err = decode_columns(&fields, 0, &buffer, &nodes, &buffers).unwrap_err();
    assert!(matches!(err, IpcError::NestingTooDeep { .. }), "{err:?}");
}

#[test]
fn a_refused_column_leaves_what_was_looked_at_consumed() {
    let body = Buffer::from_slice(&[0u8; 8]);
    let field = Field::new("n", DataType::Int32, true);

    let mut bad_node = BatchDecoder::new(&body, &[(-5, 0)], &[(0, 0), (0, 8)]);
    assert!(matches!(bad_node.decode_column(&field, 1), Err(IpcError::InvalidFieldNode { index: 0, .. })));
    assert_eq!((bad_node.nodes_consumed(), bad_node.buffers_consumed()), (1, 0));

    let mut outside = BatchDecoder::new(&body, &[(2, 0)], &[(0, 0), (0, 9)]);
    assert!(matches!(outside.decode_column(&field, 1), Err(IpcError::BufferOutOfBounds { index: 1, .. })));
    assert_eq!((outside.nodes_consumed(), outside.buffers_consumed()), (1, 2));

    let mut missing = BatchDecoder::new(&body, &[], &[]);
    assert!(matches!(missing.decode_column(&field, 1), Err(IpcError::LayoutCountMismatch { .. })));
    assert_eq!((missing.nodes_consumed(), missing.buffers_consumed()), (0, 0));

    let list = Field::new("l", DataType::list(field.clone()), true);
    let mut child = BatchDecoder::new(&body, &[(1, 0), (3, 0)], &[(0, 0), (0, 8), (0, 0), (0, 8)]);
    assert!(matches!(child.decode_column(&list, 1), Err(IpcError::BufferTooShort { index: 3, .. })));
    assert_eq!((child.nodes_consumed(), child.buffers_consumed()), (2, 4));
}
