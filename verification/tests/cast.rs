use astrs_data::array::{
    ArrowNativeType, BinaryArray, BooleanArray, DurationArray, Float32Array, Float64Array, Int32Array, Int64Array,
    Int8Array, NullArray, PrimitiveArray, StringArray, TimestampArray, UInt64Array, UInt8Array, F16, F32, F64,
};
use astrs_data::float::FloatKind;
use astrs_data::kernel::numbers::infinite_bits;
use astrs_data::kernel::{cast, OverflowPolicy};
use astrs_data::{ArrayRef, DataError, DataType};
use std::sync::Arc;

/// The values of a column.
fn values<T: ArrowNativeType>(array: &ArrayRef) -> Vec<T> {
    PrimitiveArray::<T>::try_from_array(array).unwrap().values()
}

/// The column of double-precision numbers.
fn f64s(values: Vec<f64>) -> Float64Array {
    Float64Array::from_values(values.into_iter().map(|v| F64::from_bits(v.to_bits())).collect())
}

/// The column of single-precision numbers.
fn f32s(values: Vec<f32>) -> Float32Array {
    Float32Array::from_values(values.into_iter().map(|v| F32::from_bits(v.to_bits())).collect())
}

/// The numbers of a double-precision column.
fn doubles(array: &ArrayRef) -> Vec<f64> {
    values::<F64>(array).into_iter().map(|v| f64::from_bits(v.to_bits())).collect()
}

/// The numbers of a single-precision column.
fn singles(array: &ArrayRef) -> Vec<f32> {
    values::<F32>(array).into_iter().map(|v| f32::from_bits(v.to_bits())).collect()
}

/// Whether a half-precision number is infinite.
fn is_infinite(v: F16) -> bool {
    infinite_bits(u64::from(v.to_bits()), FloatKind::Half)
}

#[test]
fn same_type_cast_is_a_pointer_clone() {
    let array = Int32Array::from_values(vec![1, 2]).into_array_ref();
    let result = cast(&array, &DataType::Int32, OverflowPolicy::Saturate).unwrap();
    assert!(Arc::ptr_eq(&array, &result));
}

#[test]
fn widening_int_to_int_is_exact() {
    let array = Int8Array::from_values(vec![-5, 127]).into_array_ref();
    let result = cast(&array, &DataType::Int64, OverflowPolicy::Error).unwrap();
    assert_eq!(values::<i64>(&result), vec![-5, 127]);
}

#[test]
fn narrowing_int_to_int_saturates() {
    let array = Int32Array::from_values(vec![-1000, 50, 1000]).into_array_ref();
    let result = cast(&array, &DataType::UInt8, OverflowPolicy::Saturate).unwrap();
    assert_eq!(values::<u8>(&result), vec![0, 50, 255]);
}

#[test]
fn narrowing_int_to_int_errors_under_error_policy() {
    let array = Int32Array::from_values(vec![300]).into_array_ref();
    assert_eq!(
        cast(&array, &DataType::UInt8, OverflowPolicy::Error).unwrap_err(),
        DataError::CastOverflow {
            from: Box::new(DataType::Int32),
            to: Box::new(DataType::UInt8),
            index: 0
        }
    );
}

#[test]
fn signed_to_unsigned_negative_saturates_to_zero() {
    let array = Int32Array::from_values(vec![-1]).into_array_ref();
    let result = cast(&array, &DataType::UInt32, OverflowPolicy::Saturate).unwrap();
    assert_eq!(values::<u32>(&result), vec![0]);
}

#[test]
fn unsigned_to_signed_overflow_saturates_to_max() {
    let array = UInt64Array::from_values(vec![u64::MAX]).into_array_ref();
    let result = cast(&array, &DataType::Int8, OverflowPolicy::Saturate).unwrap();
    assert_eq!(values::<i8>(&result), vec![i8::MAX]);
}

#[test]
fn i64_max_and_u64_max_are_exact_boundaries_under_error_policy() {
    // The precision trap this module's design note calls out: i64::MAX
    // and u64::MAX are one less than a power of two and do not survive
    // an `as f64` round trip unchanged, so a naive bounds check against
    // `i64::MAX as f64` would misjudge this exact case.
    let max_i64_as_f64 =
        f64s(vec![9_223_372_036_854_775_807.0]).into_array_ref();
    // i64::MAX rounds up to 2^63 in f64, so the *checked* int<->int path
    // (which never touches f64) is what proves int<->int is exact —
    // check that directly instead.
    let array = Int64Array::from_values(vec![i64::MAX, i64::MIN]).into_array_ref();
    let result = cast(&array, &DataType::Int64, OverflowPolicy::Error).unwrap();
    assert_eq!(values::<i64>(&result), vec![i64::MAX, i64::MIN]);
    let _ = max_i64_as_f64;
}

#[test]
fn float_to_int_nan_saturates_to_zero_and_errors_under_error_policy() {
    let array = f64s(vec![f64::NAN]).into_array_ref();
    let saturated = cast(&array, &DataType::Int32, OverflowPolicy::Saturate).unwrap();
    assert_eq!(values::<i32>(&saturated), vec![0]);
    assert!(cast(&array, &DataType::Int32, OverflowPolicy::Error).is_err());
}

#[test]
fn float_to_int_infinity_saturates_to_the_finite_boundary() {
    let array = f64s(vec![f64::INFINITY, f64::NEG_INFINITY]).into_array_ref();
    let result = cast(&array, &DataType::Int32, OverflowPolicy::Saturate).unwrap();
    assert_eq!(values::<i32>(&result), vec![i32::MAX, i32::MIN]);
    assert!(cast(&array, &DataType::Int32, OverflowPolicy::Error).is_err());
}

#[test]
fn float_to_int_fractional_truncation_is_not_overflow() {
    let array = f64s(vec![1.9, -1.9]).into_array_ref();
    let result = cast(&array, &DataType::Int32, OverflowPolicy::Error).unwrap();
    assert_eq!(values::<i32>(&result), vec![1, -1], "truncates toward zero");
}

#[test]
fn int_to_float_never_overflows_f32_or_f64() {
    let array = Int64Array::from_values(vec![i64::MAX, i64::MIN]).into_array_ref();
    assert!(cast(&array, &DataType::Float64, OverflowPolicy::Error).is_ok());
    assert!(cast(&array, &DataType::Float32, OverflowPolicy::Error).is_ok());
}

#[test]
fn large_int_to_float_loses_precision_but_is_not_an_error() {
    // 2^53 + 1 is not exactly representable in f64.
    let array = Int64Array::from_values(vec![(1i64 << 53) + 1]).into_array_ref();
    let result = cast(&array, &DataType::Float64, OverflowPolicy::Error).unwrap();
    assert_eq!(doubles(&result), vec![(1i64 << 53) as f64]);
}

#[test]
fn float64_to_float32_overflow_saturates_to_infinity_not_max() {
    let array = f64s(vec![1e300, -1e300]).into_array_ref();
    let result = cast(&array, &DataType::Float32, OverflowPolicy::Saturate).unwrap();
    let out = singles(&result);
    assert!(out[0].is_infinite() && out[0] > 0.0);
    assert!(out[1].is_infinite() && out[1] < 0.0);
    assert!(cast(&array, &DataType::Float32, OverflowPolicy::Error).is_err());
}

#[test]
fn already_infinite_or_nan_passes_through_under_error_policy() {
    let array = f64s(vec![f64::INFINITY, f64::NAN]).into_array_ref();
    let result = cast(&array, &DataType::Float32, OverflowPolicy::Error).unwrap();
    let out = singles(&result);
    assert!(out[0].is_infinite());
    assert!(out[1].is_nan());
}

#[test]
fn float16_overflow_saturates_to_infinity_at_65504() {
    let array = f32s(vec![100_000.0, -100_000.0]).into_array_ref();
    let result = cast(&array, &DataType::Float16, OverflowPolicy::Saturate).unwrap();
    let out = values::<F16>(&result);
    assert!(is_infinite(out[0]));
    assert!(cast(&array, &DataType::Float16, OverflowPolicy::Error).is_err());

    let in_range = f32s(vec![65504.0]).into_array_ref();
    let ok = cast(&in_range, &DataType::Float16, OverflowPolicy::Error).unwrap();
    assert!(!is_infinite(values::<F16>(&ok)[0]));
}

#[test]
fn nulls_propagate_through_every_numeric_path() {
    let array = Int32Array::from_opt_iter(vec![Some(1), None, Some(3)]).into_array_ref();
    for to in [DataType::Int8, DataType::Float32, DataType::UInt64] {
        let result = cast(&array, &to, OverflowPolicy::Saturate).unwrap();
        assert_eq!(result.null_count(), 1, "{to:?}");
        assert!(result.is_null(1), "{to:?}");
    }
}

#[test]
fn timestamp_and_duration_reinterpret_through_int64_for_free() {
    let stamps = TimestampArray::from_nanos(vec![1, 2, 3]).into_array_ref();
    let as_int = cast(&stamps, &DataType::Int64, OverflowPolicy::Error).unwrap();
    assert_eq!(as_int.data_type(), &DataType::Int64);
    assert_eq!(values::<i64>(&as_int), vec![1, 2, 3]);

    let back = cast(&as_int, &DataType::Timestamp, OverflowPolicy::Error).unwrap();
    assert_eq!(back.data_type(), &DataType::Timestamp);

    let durations = DurationArray::from_nanos(vec![5]).into_array_ref();
    let as_int = cast(&durations, &DataType::Int64, OverflowPolicy::Error).unwrap();
    assert_eq!(as_int.data_type(), &DataType::Int64);
}

#[test]
fn timestamp_to_duration_directly_is_unsupported() {
    let stamps = TimestampArray::from_nanos(vec![1]).into_array_ref();
    assert!(matches!(
        cast(&stamps, &DataType::Duration, OverflowPolicy::Error),
        Err(DataError::UnsupportedCast { .. })
    ));
}

#[test]
fn utf8_to_binary_is_a_reinterpret() {
    let strings = StringArray::from_values(vec!["a", "b"]).into_array_ref();
    let bytes = cast(&strings, &DataType::Binary, OverflowPolicy::Error).unwrap();
    assert_eq!(bytes.data_type(), &DataType::Binary);
    let bytes = BinaryArray::try_from_array(&bytes).unwrap();
    assert_eq!(bytes.get(0), Some(&b"a"[..]));
}

#[test]
fn binary_to_utf8_validates() {
    let valid = BinaryArray::from_values(vec![&b"ok"[..]]).into_array_ref();
    assert!(cast(&valid, &DataType::Utf8, OverflowPolicy::Error).is_ok());

    let invalid = BinaryArray::from_values(vec![&b"\xff\xfe"[..]]).into_array_ref();
    assert!(matches!(
        cast(&invalid, &DataType::Utf8, OverflowPolicy::Error),
        Err(DataError::InvalidUtf8 { .. })
    ));
}

#[test]
fn utf8_widens_to_large_utf8_and_back() {
    let strings = StringArray::from_values(vec!["hello", "world"]).into_array_ref();
    let large = cast(&strings, &DataType::LargeUtf8, OverflowPolicy::Error).unwrap();
    assert_eq!(large.data_type(), &DataType::LargeUtf8);
    let back = cast(&large, &DataType::Utf8, OverflowPolicy::Error).unwrap();
    assert_eq!(back.as_ref(), strings.as_ref());
}

#[test]
fn binary_widens_to_large_binary_and_back() {
    let bytes = BinaryArray::from_values(vec![&b"abc"[..]]).into_array_ref();
    let large = cast(&bytes, &DataType::LargeBinary, OverflowPolicy::Error).unwrap();
    assert_eq!(large.data_type(), &DataType::LargeBinary);
    let back = cast(&large, &DataType::Binary, OverflowPolicy::Error).unwrap();
    assert_eq!(back.as_ref(), bytes.as_ref());
}

#[test]
fn null_casts_to_and_from_anything() {
    let null = NullArray::new(3).into_array_ref();
    let as_int = cast(&null, &DataType::Int32, OverflowPolicy::Error).unwrap();
    assert_eq!(as_int.len(), 3);
    assert_eq!(as_int.null_count(), 3);

    let ints = Int32Array::from_values(vec![1, 2]).into_array_ref();
    let as_null = cast(&ints, &DataType::Null, OverflowPolicy::Error).unwrap();
    assert_eq!(as_null.data_type(), &DataType::Null);
    assert_eq!(as_null.len(), 2);
}

#[test]
fn bool_and_nested_types_have_no_defined_cast() {
    let bools = BooleanArray::from_values(vec![true]).into_array_ref();
    assert!(matches!(
        cast(&bools, &DataType::Int8, OverflowPolicy::Error),
        Err(DataError::UnsupportedCast { .. })
    ));

    let ints = Int32Array::from_values(vec![1]).into_array_ref();
    assert!(matches!(
        cast(&ints, &DataType::Bool, OverflowPolicy::Error),
        Err(DataError::UnsupportedCast { .. })
    ));
}

#[test]
fn every_numeric_pair_round_trips_representable_values() {
    let numeric_types = [
        DataType::Int8,
        DataType::Int16,
        DataType::Int32,
        DataType::Int64,
        DataType::UInt8,
        DataType::UInt16,
        DataType::UInt32,
        DataType::UInt64,
        DataType::Float16,
        DataType::Float32,
        DataType::Float64,
    ];
    let source = UInt8Array::from_values(vec![0, 1, 100]).into_array_ref();
    for to in &numeric_types {
        for policy in [OverflowPolicy::Saturate, OverflowPolicy::Error] {
            let result = cast(&source, to, policy).unwrap_or_else(|err| panic!("{to:?}: {err:?}"));
            assert_eq!(result.len(), 3, "{to:?}");
            assert_eq!(result.data_type(), to, "{to:?}");
        }
    }
}

#[test]
fn every_integer_below_the_mantissa_survives_a_double() {
    let source = vec![0, 1, -1, 3, 1000, (1i64 << 53) - 1, 1i64 << 53, -(1i64 << 53)];
    let array = Int64Array::from_values(source.clone()).into_array_ref();
    let there = cast(&array, &DataType::Float64, OverflowPolicy::Error).unwrap();
    assert_eq!(doubles(&there), source.iter().map(|v| *v as f64).collect::<Vec<_>>());
    let back = cast(&there, &DataType::Int64, OverflowPolicy::Error).unwrap();
    assert_eq!(values::<i64>(&back), source);
}

#[test]
fn doubles_round_to_singles_as_the_machine_rounds_them() {
    let source = vec![
        0.0, -0.0, 1.0, 0.1, -0.1, 1.0 / 3.0, 1e-45, 7e-46, 1.4e-45, 1.1754943e-38, 3.4028234e38, 3.4028235677973366e38,
        -16_777_217.0, 16_777_219.0, 5e-324, 123_456_789.123,
    ];
    let array = f64s(source.clone()).into_array_ref();
    let there = cast(&array, &DataType::Float32, OverflowPolicy::Saturate).unwrap();
    let got: Vec<u32> = values::<F32>(&there).iter().map(|v| v.to_bits()).collect();
    let want: Vec<u32> = source.iter().map(|v| (*v as f32).to_bits()).collect();
    assert_eq!(got, want);
}

#[test]
fn doubles_become_integers_as_the_machine_truncates_them() {
    let source = vec![
        0.5, -0.5, 1.5, -1.5, 255.9, 256.0, -128.0, -129.0, 1e18, -1e18, 9.3e18, 1.9e19, -1e30, 1e30, 5e-324,
    ];
    let array = f64s(source.clone()).into_array_ref();
    let bytes = cast(&array, &DataType::UInt8, OverflowPolicy::Saturate).unwrap();
    assert_eq!(values::<u8>(&bytes), source.iter().map(|v| *v as u8).collect::<Vec<_>>());
    let small = cast(&array, &DataType::Int8, OverflowPolicy::Saturate).unwrap();
    assert_eq!(values::<i8>(&small), source.iter().map(|v| *v as i8).collect::<Vec<_>>());
    let signed = cast(&array, &DataType::Int64, OverflowPolicy::Saturate).unwrap();
    assert_eq!(values::<i64>(&signed), source.iter().map(|v| *v as i64).collect::<Vec<_>>());
    let unsigned = cast(&array, &DataType::UInt64, OverflowPolicy::Saturate).unwrap();
    assert_eq!(values::<u64>(&unsigned), source.iter().map(|v| *v as u64).collect::<Vec<_>>());
}

#[test]
fn large_integers_round_to_doubles_as_the_machine_rounds_them() {
    let source = vec![u64::MAX, u64::MAX - 1024, 1u64 << 63, (1u64 << 54) + 2, (1u64 << 54) + 3, (1u64 << 53) + 1];
    let array = UInt64Array::from_values(source.clone()).into_array_ref();
    let there = cast(&array, &DataType::Float64, OverflowPolicy::Error).unwrap();
    assert_eq!(doubles(&there), source.iter().map(|v| *v as f64).collect::<Vec<_>>());
}

#[test]
fn a_dropped_fraction_is_no_overflow() {
    let array = f64s(vec![-0.5, 255.9]).into_array_ref();
    for policy in [OverflowPolicy::Saturate, OverflowPolicy::Error] {
        let bytes = cast(&array, &DataType::UInt8, policy).unwrap();
        assert_eq!(values::<u8>(&bytes), vec![0, 255]);
    }
    let low = f64s(vec![-128.5]).into_array_ref();
    let bytes = cast(&low, &DataType::Int8, OverflowPolicy::Error).unwrap();
    assert_eq!(values::<i8>(&bytes), vec![-128]);
    for past in [-129.0, 128.0] {
        let array = f64s(vec![0.0, past]).into_array_ref();
        assert_eq!(
            cast(&array, &DataType::Int8, OverflowPolicy::Error).unwrap_err(),
            DataError::cast_overflow(DataType::Float64, DataType::Int8, 1)
        );
    }
}

#[test]
fn singles_and_halves_widen_exactly() {
    let array = f32s(vec![1.5, -2.0, 65504.0, 6.1e-5, 6.103515625e-5, 0.0]).into_array_ref();
    let halves = cast(&array, &DataType::Float16, OverflowPolicy::Error).unwrap();
    let bits: Vec<u16> = values::<F16>(&halves).iter().map(|v| v.to_bits()).collect();
    assert_eq!(bits, vec![0x3E00, 0xC000, 0x7BFF, 0x03FF, 0x0400, 0x0000]);
    let back = cast(&halves, &DataType::Float32, OverflowPolicy::Error).unwrap();
    assert_eq!(singles(&back), vec![1.5, -2.0, 65504.0, 1023.0 / 16777216.0, 6.103515625e-5, 0.0]);
}
