use astrs_data::array::{
    BinaryArray, BooleanArray, FixedSizeBinaryArray, FixedSizeListArray, Float32Array, Int32Array, Int8Array,
    ListArray, NullArray, StringArray, StructArray, TimestampArray, F32,
};
use astrs_data::kernel::gather::gather;
use astrs_data::{DataType, Field};

/// The column of single-precision numbers.
fn f32s(values: Vec<f32>) -> Float32Array {
    Float32Array::from_values(values.into_iter().map(|v| F32::from_bits(v.to_bits())).collect())
}

#[test]
fn gather_primitive_handles_nulls_from_either_side() {
    let array = Int32Array::from_opt_iter(vec![Some(10), None, Some(30)]).into_array_ref();
    let result = gather(&array, &[Some(2), None, Some(1), Some(99)]).unwrap();
    let result = Int32Array::try_from_array(&result).unwrap();
    assert_eq!(
        result.iter(),
        vec![Some(30), None, None, None]
    );
}

#[test]
fn gather_dispatches_every_flat_family() {
    for array in [
        NullArray::new(3).into_array_ref(),
        BooleanArray::from_values(vec![true, false, true]).into_array_ref(),
        Int8Array::from_values(vec![1, 2, 3]).into_array_ref(),
        f32s(vec![1.0, 2.0, 3.0]).into_array_ref(),
        StringArray::from_values(vec!["a", "b", "c"]).into_array_ref(),
        BinaryArray::from_values(vec![&b"a"[..], &b"b"[..], &b"c"[..]]).into_array_ref(),
        TimestampArray::from_nanos(vec![1, 2, 3]).into_array_ref(),
        FixedSizeBinaryArray::try_from_values(2, vec![&b"aa"[..], &b"bb"[..], &b"cc"[..]])
            .unwrap()
            .into_array_ref(),
    ] {
        let result = gather(&array, &[Some(2), None, Some(0)]).unwrap();
        assert_eq!(result.len(), 3, "{:?}", array.data_type());
        assert_eq!(result.data_type(), array.data_type());
        assert!(result.is_null(1), "{:?}", array.data_type());
        // `Null` has no non-null slots at all, by definition — every
        // other family's row 0 came from a valid source position and
        // must not be null.
        if *array.data_type() != DataType::Null {
            assert!(!result.is_null(0), "{:?}", array.data_type());
        }
    }
}

#[test]
fn gather_nested_dispatches_through_concat() {

    let fsl = FixedSizeListArray::try_new(
        Field::required("v", DataType::Int32),
        2,
        Int32Array::from_values((0..8).collect()).into_array_ref(),
        None,
    )
    .unwrap()
    .into_array_ref();
    let list = ListArray::try_from_lengths(
        Field::required("v", DataType::Int32),
        vec![2, 0, 1],
        Int32Array::from_values((0..3).collect()).into_array_ref(),
    )
    .unwrap()
    .into_array_ref();
    let strukt = StructArray::try_new(
        vec![Field::required("a", DataType::Int32)],
        vec![Int32Array::from_values((0..4).collect()).into_array_ref()],
        None,
    )
    .unwrap()
    .into_array_ref();

    for array in [fsl, list, strukt] {
        let result = gather(&array, &[Some(1), None, Some(0)]).unwrap();
        assert_eq!(result.len(), 3);
        assert!(result.is_null(1));
    }
}

#[test]
fn gather_nested_handles_an_empty_position_list() {

    let fsl = FixedSizeListArray::try_new(
        Field::required("v", DataType::Int32),
        2,
        Int32Array::from_values((0..8).collect()).into_array_ref(),
        None,
    )
    .unwrap()
    .into_array_ref();
    let result = gather(&fsl, &[]).unwrap();
    assert!(result.is_empty());
}
