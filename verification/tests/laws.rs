use astrs_data::array::{
    array_equal, slice_array, BooleanArray, FixedSizeListArray, Float64Array, Int32Array, Int64Array, ListArray,
    StringArray, StructArray, F64,
};
use astrs_data::interop::{from_arrow_array, from_arrow_record_batch, to_array_data, to_arrow_record_batch};
use astrs_data::ipc::{to_ipc_bytes, write_ipc_stream_with, IpcStreamReader, WriteOptions};
use astrs_data::ipc::fb::builder::FbBuilder;
use astrs_data::ipc::fb::reader::root_table;
use astrs_data::kernel::{self, cast, filter, take, OverflowPolicy};
use astrs_data::{ArrayRef, Bitmap, DataType, Field, RecordBatch, Schema};
use std::sync::Arc;

fn integers(values: Vec<Option<i32>>) -> ArrayRef {
    Int32Array::from_opt_iter(values).into_array_ref()
}

fn two_columns(from: i32) -> RecordBatch {
    let schema = Arc::new(Schema::new(vec![
        Field::new("n", DataType::Int32, true),
        Field::new("s", DataType::Utf8, true),
    ]));
    RecordBatch::try_new(
        schema,
        vec![
            integers(vec![Some(from), None, Some(from + 2)]),
            StringArray::from_opt_iter(vec![Some("a"), Some(""), None]).into_array_ref(),
        ],
    )
    .unwrap()
}

#[test]
fn taking_twice_is_taking_once() {
    let array = integers(vec![Some(10), None, Some(12), Some(13)]);
    let first = Int64Array::from_opt_iter(vec![Some(3), None, Some(0), Some(1)]).into_array_ref();
    let second = Int64Array::from_opt_iter(vec![Some(2), Some(0), Some(1), None]).into_array_ref();
    let composed = take(&first, &second).unwrap();
    let twice = take(&take(&array, &first).unwrap(), &second).unwrap();
    let once = take(&array, &composed).unwrap();
    assert!(array_equal(&twice, &once));
    let slots = Int32Array::try_from_array(&once).unwrap();
    assert_eq!(slots.iter(), vec![Some(10), Some(13), None, None]);
}

#[test]
fn filtering_keeps_the_set_rows_in_order() {
    let array = integers(vec![Some(1), Some(2), None, Some(4)]);
    let mask = BooleanArray::from_opt_iter(vec![Some(true), None, Some(true), Some(false)]);
    let kept = Int32Array::try_from_array(&filter(&array, &mask).unwrap()).unwrap();
    assert_eq!(kept.iter(), vec![Some(1), None]);
}

#[test]
fn batches_are_equal_by_value_however_they_are_windowed() {
    let whole = two_columns(5);
    let rows = RecordBatch::try_new(
        whole.schema_ref(),
        vec![
            integers(vec![None, Some(7)]),
            StringArray::from_opt_iter(vec![Some(""), None]).into_array_ref(),
        ],
    )
    .unwrap();
    assert_eq!(whole.slice(1, 2), rows);
    assert_ne!(whole.slice(0, 2), rows);
}

#[test]
fn packed_bits_read_back() {
    let bits: Vec<bool> = (0..19).map(|i| i % 4 == 1).collect();
    let packed = Bitmap::from_bools(&bits);
    assert_eq!(packed.to_vec(), bits);
    assert_eq!(packed.slice(3, 9).to_canonical().to_vec(), bits[3..12].to_vec());
}

#[test]
fn integers_survive_wider_types() {
    let array = integers(vec![Some(i32::MIN), None, Some(i32::MAX)]);
    for wide in [DataType::Int64, DataType::Float64] {
        let there = cast(&array, &wide, OverflowPolicy::Error).unwrap();
        let back = cast(&there, &DataType::Int32, OverflowPolicy::Error).unwrap();
        assert!(array_equal(&back, &array));
    }
}

#[test]
fn columns_return_from_arrow_with_their_cells() {
    let numbers = Float64Array::from_opt_iter(vec![Some(F64::from_bits(1.5f64.to_bits())), None]).into_array_ref();
    let lists = ListArray::try_from_lengths(
        Field::new("item", DataType::Int32, true),
        vec![2usize, 1],
        integers(vec![Some(1), None, Some(3)]),
    )
    .unwrap()
    .into_array_ref();
    let pairs = FixedSizeListArray::try_new(
        Field::new("item", DataType::Int32, true),
        2,
        integers(vec![Some(1), None, Some(3), Some(4)]),
        Some(vec![true, false]),
    )
    .unwrap()
    .into_array_ref();
    let rows = StructArray::try_new(
        vec![Field::new("l", lists.data_type().clone(), true), Field::new("n", DataType::Float64, true)],
        vec![lists.clone(), numbers.clone()],
        Some(vec![false, true]),
    )
    .unwrap()
    .into_array_ref();
    for array in [numbers, lists, pairs, rows] {
        for column in [slice_array(&array, 0, 2), slice_array(&array, 1, 1)] {
            let back = from_arrow_array(&to_array_data(&column).unwrap()).unwrap();
            assert!(array_equal(&back, &column), "{column:?}");
        }
    }
    let batch = two_columns(1);
    assert_eq!(from_arrow_record_batch(&to_arrow_record_batch(&batch).unwrap()).unwrap(), batch);
}

#[test]
fn a_stream_cut_anywhere_yields_the_first_batches_only() {
    let batches = vec![two_columns(1), two_columns(100)];
    let bytes = to_ipc_bytes(&batches).unwrap();
    for cut in 0..bytes.len() {
        if let Ok(mut reader) = IpcStreamReader::from_slice(&bytes[..cut]) {
            let mut read = 0;
            while let Ok(Some(batch)) = reader.next_batch() {
                assert_eq!(batch, batches[read], "cut {cut}");
                read += 1;
            }
            assert!(read <= batches.len());
        }
    }
}

#[test]
fn two_halves_make_the_whole() {
    let lists = ListArray::try_from_lengths(
        Field::new("item", DataType::Int32, true),
        vec![2usize, 0, 1],
        integers(vec![Some(1), None, Some(3)]),
    )
    .unwrap()
    .into_array_ref();
    let strings = StringArray::from_opt_iter(vec![Some("a"), None, Some("")]).into_array_ref();
    for whole in [integers(vec![Some(1), None, Some(3)]), lists, strings] {
        for at in 0..=3 {
            let halves = [slice_array(&whole, 0, at), slice_array(&whole, at, 3 - at)];
            assert!(array_equal(&kernel::concat(&halves).unwrap(), &whole), "cut at {at}");
        }
    }
}

#[test]
fn a_table_gives_back_its_slots_and_their_defaults() {
    let mut b = FbBuilder::new();
    let table = b.start_table();
    b.push_slot_i64(3, -5, 0);
    b.push_slot_u8(0, 9, 0);
    b.push_slot_i16(2, 4, 4);
    let root = b.end_table(table);
    b.finish(root);
    let bytes = b.finished_bytes().to_vec();
    let table = root_table(&bytes).unwrap();
    assert_eq!(table.u8(0, 0).unwrap(), 9);
    assert_eq!(table.i32(1, 77).unwrap(), 77);
    assert_eq!(table.i16(2, 4).unwrap(), 4);
    assert_eq!(table.i64(3, 0).unwrap(), -5);
}

#[test]
fn every_write_is_a_multiple_of_the_alignment() {
    for alignment in [8usize, 64, 256] {
        let batch = two_columns(1);
        let options = WriteOptions::new().with_alignment(alignment);
        let mut stream = Vec::new();
        write_ipc_stream_with(&mut stream, batch.schema_ref(), &[batch.clone(), batch], options).unwrap();
        // The end of the stream is eight bytes.
        assert_eq!((stream.len() - 8) % alignment, 0);
    }
}
