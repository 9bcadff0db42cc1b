use astrs_data::interop::{
    from_arrow_boolean_buffer, from_arrow_buffer, from_arrow_nulls, to_arrow_boolean_buffer, to_arrow_buffer,
    to_arrow_nulls,
};
use astrs_data::{Bitmap, Buffer};

/// The bits of a list of booleans.
fn bitmap(bits: Vec<bool>) -> Bitmap {
    Bitmap::from_bools(&bits)
}

#[test]
fn buffer_round_trip_keeps_the_bytes() {
    let buffer = Buffer::from_slice(b"zero-copy-arrow");
    let arrow_buf = to_arrow_buffer(&buffer);
    assert_eq!(arrow_buf.as_slice(), buffer.as_slice());

    let back = from_arrow_buffer(&arrow_buf);
    assert_eq!(back.as_slice(), buffer.as_slice());
}

#[test]
fn a_converted_buffer_survives_dropping_the_original() {
    let buffer = Buffer::from_slice(b"kept-alive-by-owner");
    let arrow_buf = to_arrow_buffer(&buffer);
    drop(buffer);
    assert_eq!(arrow_buf.as_slice(), b"kept-alive-by-owner");
}

#[test]
fn empty_buffer_round_trips() {
    let buffer = Buffer::new();
    let arrow_buf = to_arrow_buffer(&buffer);
    assert!(arrow_buf.is_empty());
    assert!(from_arrow_buffer(&arrow_buf).is_empty());
}

#[test]
fn sliced_buffer_converts_the_exact_window() {
    let buffer = Buffer::from_slice(&(0u8..64).collect::<Vec<_>>());
    let window = buffer.slice(5, 10);
    let arrow_buf = to_arrow_buffer(&window);
    assert_eq!(arrow_buf.as_slice(), window.as_slice());
}

#[test]
fn boolean_buffer_round_trip_keeps_the_bits() {
    let bits = bitmap((0..37).map(|i| i % 3 == 0).collect());
    let arrow_bits = to_arrow_boolean_buffer(&bits);
    assert_eq!(arrow_bits.len(), bits.len());
    for i in 0..bits.len() {
        assert_eq!(arrow_bits.value(i), bits.bit(i), "bit {i}");
    }

    let back = from_arrow_boolean_buffer(&arrow_bits);
    assert_eq!(back.to_vec(), bits.to_vec());
}

#[test]
fn boolean_buffer_round_trip_respects_a_non_byte_aligned_offset() {
    let source: Vec<bool> = (0..40).map(|i| i % 5 == 0).collect();
    let bits = bitmap(source.iter().copied().collect());
    let window = bits.slice(11, 21);
    assert_ne!(window.bit_offset() % 8, 0, "the interesting case");

    let arrow_bits = to_arrow_boolean_buffer(&window);
    assert_eq!(arrow_bits.len(), window.len());
    for i in 0..window.len() {
        assert_eq!(arrow_bits.value(i), window.bit(i), "bit {i}");
    }

    let back = from_arrow_boolean_buffer(&arrow_bits);
    assert_eq!(back.to_vec(), window.to_vec());
}

#[test]
fn nulls_round_trip_and_none_means_all_valid() {
    let validity = bitmap([true, false, true, true].into_iter().collect());
    let nulls = to_arrow_nulls(&validity);
    assert_eq!(nulls.null_count(), 1);
    assert!(nulls.is_null(1));
    assert!(nulls.is_valid(0));

    let back = from_arrow_nulls(Some(&nulls)).unwrap();
    assert_eq!(back.to_vec(), validity.to_vec());

    assert!(from_arrow_nulls(None).is_none());

    let all_valid = bitmap([true, true, true].into_iter().collect());
    let nulls = to_arrow_nulls(&all_valid);
    assert_eq!(nulls.null_count(), 0);
    assert!(
        from_arrow_nulls(Some(&nulls)).is_none(),
        "an all-valid NullBuffer round-trips to None, matching Array::validity's convention"
    );
}
