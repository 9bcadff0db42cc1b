use astrs_data::array::{
    Float32Array, ListArray, StructArray, UInt16Array, UInt32Array, UInt8Array, F32, F64,
};
use astrs_data::tensor::ImageView;
use astrs_data::{DataError, DataType, Field};

/// The fields of a column of images with samples of a type.
fn struct_fields(pixel: &str) -> Vec<Field> {
    let sample = match pixel {
        "mono8" | "rgb8" => DataType::UInt8,
        "mono16" => DataType::UInt16,
        "mono32f" => DataType::Float32,
        other => panic!("{other}"),
    };
    vec![
        Field::required("width", DataType::UInt32),
        Field::required("height", DataType::UInt32),
        Field::required("stride", DataType::UInt32),
        Field::required("channels", DataType::UInt8),
        Field::required("data", DataType::list(Field::required("sample", sample))),
    ]
}

/// The number that a sample is.
fn number(sample: Result<F64, DataError>) -> f64 {
    f64::from_bits(sample.unwrap().to_bits())
}

fn mono8_row(width: u32, height: u32, samples: Vec<u8>) -> StructArray {
    let data = ListArray::try_from_lengths(
        Field::required("sample", DataType::UInt8),
        vec![samples.len()],
        UInt8Array::from_values(samples).into_array_ref(),
    )
    .unwrap()
    .into_array_ref();
    StructArray::try_new(
        struct_fields("mono8"),
        vec![
            UInt32Array::from_values(vec![width]).into_array_ref(),
            UInt32Array::from_values(vec![height]).into_array_ref(),
            UInt32Array::from_values(vec![width]).into_array_ref(),
            UInt8Array::from_values(vec![1u8]).into_array_ref(),
            data,
        ],
        None,
    )
    .unwrap()
}

#[test]
fn a_mono8_row_round_trips() {
    let row = mono8_row(3, 2, vec![0, 1, 2, 3, 4, 5]);
    let view = ImageView::from_struct_row(&row, 0).unwrap();
    assert_eq!((view.height(), view.width(), view.channels()), (2, 3, 1));
    assert!(view.as_u8().is_some());
    assert!(view.as_u16().is_none());
    assert_eq!(number(view.get_f64(&[0, 0, 0])), 0.0);
    assert_eq!(number(view.get_f64(&[1, 2, 0])), 5.0);
}

#[test]
fn a_multi_channel_row_shapes_the_channel_axis() {
    // 2x2 rgb8: 2*2*3 = 12 samples.
    let data = ListArray::try_from_lengths(
        Field::required("sample", DataType::UInt8),
        vec![12],
        UInt8Array::from_values((0..12u8).collect()).into_array_ref(),
    )
    .unwrap()
    .into_array_ref();
    let row = StructArray::try_new(
        struct_fields("rgb8"),
        vec![
            UInt32Array::from_values(vec![2u32]).into_array_ref(),
            UInt32Array::from_values(vec![2u32]).into_array_ref(),
            UInt32Array::from_values(vec![6u32]).into_array_ref(),
            UInt8Array::from_values(vec![3u8]).into_array_ref(),
            data,
        ],
        None,
    )
    .unwrap();

    let view = ImageView::from_struct_row(&row, 0).unwrap();
    assert_eq!(view.shape(), &[2, 2, 3]);
    // Row-major over (height, width, channels): pixel (row=1, col=0)
    // starts at flat index 1*2*3 + 0*3 = 6, so its channels are 6,7,8.
    assert_eq!(number(view.get_f64(&[1, 0, 0])), 6.0);
    assert_eq!(number(view.get_f64(&[1, 0, 2])), 8.0);
    // Pixel (row=1, col=1) is the last one: samples 9,10,11.
    assert_eq!(number(view.get_f64(&[1, 1, 0])), 9.0);
    assert_eq!(number(view.get_f64(&[1, 1, 2])), 11.0);
}

#[test]
fn a_u16_row_selects_the_u16_variant() {
    let data = ListArray::try_from_lengths(
        Field::required("sample", DataType::UInt16),
        vec![4],
        UInt16Array::from_values(vec![100u16, 200, 300, 400]).into_array_ref(),
    )
    .unwrap()
    .into_array_ref();
    let row = StructArray::try_new(
        struct_fields("mono16"),
        vec![
            UInt32Array::from_values(vec![2u32]).into_array_ref(),
            UInt32Array::from_values(vec![2u32]).into_array_ref(),
            UInt32Array::from_values(vec![2u32]).into_array_ref(),
            UInt8Array::from_values(vec![1u8]).into_array_ref(),
            data,
        ],
        None,
    )
    .unwrap();

    let view = ImageView::from_struct_row(&row, 0).unwrap();
    assert!(view.as_u16().is_some());
    assert_eq!(number(view.get_f64(&[0, 1, 0])), 200.0);
}

#[test]
fn an_f32_row_selects_the_f32_variant() {
    let data = ListArray::try_from_lengths(
        Field::required("sample", DataType::Float32),
        vec![4],
        Float32Array::from_values(
            [1.5f32, 2.5, 3.5, 4.5].iter().map(|v| F32::from_bits(v.to_bits())).collect(),
        ).into_array_ref(),
    )
    .unwrap()
    .into_array_ref();
    let row = StructArray::try_new(
        struct_fields("mono32f"),
        vec![
            UInt32Array::from_values(vec![2u32]).into_array_ref(),
            UInt32Array::from_values(vec![2u32]).into_array_ref(),
            UInt32Array::from_values(vec![2u32]).into_array_ref(),
            UInt8Array::from_values(vec![1u8]).into_array_ref(),
            data,
        ],
        None,
    )
    .unwrap();

    let view = ImageView::from_struct_row(&row, 0).unwrap();
    assert!(view.as_f32().is_some());
    assert_eq!(number(view.get_f64(&[1, 1, 0])), 4.5);
}

#[test]
fn a_second_row_in_a_multi_row_batch_is_independent() {
    let data = ListArray::try_from_lengths(
        Field::required("sample", DataType::UInt8),
        vec![4, 4],
        UInt8Array::from_values(vec![0, 1, 2, 3, 10, 11, 12, 13]).into_array_ref(),
    )
    .unwrap()
    .into_array_ref();
    let row = StructArray::try_new(
        struct_fields("mono8"),
        vec![
            UInt32Array::from_values(vec![2u32, 2]).into_array_ref(),
            UInt32Array::from_values(vec![2u32, 2]).into_array_ref(),
            UInt32Array::from_values(vec![2u32, 2]).into_array_ref(),
            UInt8Array::from_values(vec![1u8, 1]).into_array_ref(),
            data,
        ],
        None,
    )
    .unwrap();

    let first = ImageView::from_struct_row(&row, 0).unwrap();
    let second = ImageView::from_struct_row(&row, 1).unwrap();
    assert_eq!(number(first.get_f64(&[0, 0, 0])), 0.0);
    assert_eq!(number(second.get_f64(&[0, 0, 0])), 10.0);
}

#[test]
fn a_missing_field_is_reported() {
    let fields = vec![Field::required("width", DataType::UInt32)];
    let row = StructArray::try_new(
        fields,
        vec![UInt32Array::from_values(vec![1u32]).into_array_ref()],
        None,
    )
    .unwrap();
    assert!(matches!(
        ImageView::from_struct_row(&row, 0),
        Err(DataError::FieldNotFound { .. })
    ));
}

#[test]
fn a_null_required_field_is_reported_precisely() {
    // A struct's own row-level validity (tested elsewhere on
    // `StructArray` itself) does not null out its children — Arrow
    // leaves their values at a null parent slot unspecified, not
    // necessarily null — so this nulls the `width` *column* directly,
    // the only way `read_u32_field` can actually observe a null here.
    let width = UInt32Array::from_opt_iter(vec![None]).into_array_ref();
    let height = UInt32Array::from_values(vec![2u32]).into_array_ref();
    let stride = UInt32Array::from_values(vec![2u32]).into_array_ref();
    let channels = UInt8Array::from_values(vec![1u8]).into_array_ref();
    let data = ListArray::try_from_lengths(
        Field::required("sample", DataType::UInt8),
        vec![4],
        UInt8Array::from_values(vec![0u8, 1, 2, 3]).into_array_ref(),
    )
    .unwrap()
    .into_array_ref();
    let row = StructArray::try_new(
        struct_fields("mono8"),
        vec![width, height, stride, channels, data],
        None,
    )
    .unwrap();

    assert!(matches!(
        ImageView::from_struct_row(&row, 0),
        Err(DataError::RequiredFieldIsNull { field, row: 0 }) if field == "width"
    ));
}

#[test]
fn an_out_of_range_row_is_index_out_of_bounds() {
    let row = mono8_row(2, 2, vec![0, 1, 2, 3]);
    assert!(matches!(
        ImageView::from_struct_row(&row, 5),
        Err(DataError::IndexOutOfBounds { index: 5, .. })
    ));
}

#[test]
fn a_shape_mismatch_is_reported() {
    // Declares 2x2x1 = 4 samples but the data column only holds 3.
    let data = ListArray::try_from_lengths(
        Field::required("sample", DataType::UInt8),
        vec![3],
        UInt8Array::from_values(vec![0u8, 1, 2]).into_array_ref(),
    )
    .unwrap()
    .into_array_ref();
    let row = StructArray::try_new(
        struct_fields("mono8"),
        vec![
            UInt32Array::from_values(vec![2u32]).into_array_ref(),
            UInt32Array::from_values(vec![2u32]).into_array_ref(),
            UInt32Array::from_values(vec![2u32]).into_array_ref(),
            UInt8Array::from_values(vec![1u8]).into_array_ref(),
            data,
        ],
        None,
    )
    .unwrap();
    assert!(matches!(
        ImageView::from_struct_row(&row, 0),
        Err(DataError::TensorShapeMismatch {
            expected: 4,
            actual: 3
        })
    ));
}

#[test]
fn a_null_row_has_null_fields() {
    let whole = mono8_row(1, 1, vec![7]);
    let row = StructArray::try_new(struct_fields("mono8"), whole.columns(), Some(vec![false])).unwrap();
    assert!(matches!(
        ImageView::from_struct_row(&row, 0),
        Err(DataError::RequiredFieldIsNull { field, row: 0 }) if field == "width"
    ));
}
