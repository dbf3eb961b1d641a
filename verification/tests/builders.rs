use columnar::fixed::{FixedWidthArray, FixedWidthBuilder};

#[test]
fn mixed_appends_with_capacity() {
    let mut builder = FixedWidthBuilder::<i32>::with_capacity(8);
    builder.append_value(1);
    builder.append_null();
    builder.append_value(3);
    builder.append_slice(&[4, 5]);
    builder.append_option(None);
    builder.append_option(Some(8));
    let array = builder.finish();

    assert_eq!(array.len(), 7);
    let expected = [
        Some(1),
        None,
        Some(3),
        Some(4),
        Some(5),
        None,
        Some(8),
    ];
    for (i, e) in expected.iter().enumerate() {
        assert_eq!(array.get(i), Ok(*e));
    }
    let validity = [true, false, true, true, true, false, true];
    for (i, v) in validity.iter().enumerate() {
        assert_eq!(array.is_valid(i), Ok(*v));
    }
    assert_eq!(array.null_count(), 2);
    let bitmap = array.nulls().expect("nulls present");
    assert_eq!(bitmap.bit_len(), 7);
    // packed little-endian: bits 1 and 5 unset -> 0b01011101
    assert_eq!(bitmap.as_buffer().get(0), Ok(0b0101_1101));
}

#[test]
fn no_null_appends_carry_no_bitmap() {
    let mut builder = FixedWidthBuilder::<i32>::new();
    builder.append_value(10);
    builder.append_slice(&[20, 30]);
    builder.append_option(Some(40));
    let array = builder.finish();
    assert_eq!(array.len(), 4);
    assert!(array.nulls().is_none());
    assert_eq!(array.null_count(), 0);
}

#[test]
fn lazy_bitmap_backfill() {
    let mut builder = FixedWidthBuilder::<i32>::new();
    builder.append_value(1);
    builder.append_value(2);
    builder.append_null();
    builder.append_value(3);
    let array = builder.finish();
    assert_eq!(array.len(), 4);
    assert_eq!(array.is_valid(0), Ok(true));
    assert_eq!(array.is_valid(1), Ok(true));
    assert_eq!(array.is_valid(2), Ok(false));
    assert_eq!(array.is_valid(3), Ok(true));
    assert_eq!(array.get(2), Ok(None));
    assert_eq!(array.null_count(), 1);
}

#[test]
fn builder_is_reusable_after_finish() {
    let mut builder = FixedWidthBuilder::<u8>::new();
    builder.append_value(7);
    builder.append_null();
    let first = builder.finish();
    assert_eq!(first.len(), 2);
    assert!(first.nulls().is_some());

    assert_eq!(builder.len(), 0);
    builder.append_value(9);
    let second = builder.finish();
    assert_eq!(second.len(), 1);
    assert_eq!(second.get(0), Ok(Some(9)));
    assert!(second.nulls().is_none());
}

#[test]
fn capacity_never_decreases_and_grows_only_when_needed() {
    let mut builder = FixedWidthBuilder::<i32>::with_capacity(4);
    let mut last = builder.capacity();
    assert_eq!(last, 16);
    // the four reserved elements must not trigger growth
    for v in 0..4 {
        builder.append_value(v);
        assert_eq!(builder.capacity(), 16);
    }
    for v in 4..40 {
        builder.append_value(v);
        let cap = builder.capacity();
        assert!(cap >= last);
        last = cap;
    }
    // the first growth beyond 16 bytes jumps to the 64-byte floor
    assert!(last >= 64);
}

#[test]
fn from_values_and_from_options() {
    let a = FixedWidthArray::<i32>::from_values(&[1, 2, 3]);
    assert_eq!(a.len(), 3);
    assert!(a.nulls().is_none());
    assert_eq!(a.get(1), Ok(Some(2)));

    let b = FixedWidthArray::<i32>::from_options(&[Some(1), None, Some(3)]);
    assert_eq!(b.len(), 3);
    assert!(b.nulls().is_some());
    assert_eq!(b.get(0), Ok(Some(1)));
    assert_eq!(b.get(1), Ok(None));
    assert_eq!(b.get(2), Ok(Some(3)));

    let c = FixedWidthArray::<i32>::from_options(&[Some(1), Some(2)]);
    assert!(c.nulls().is_none());
}

#[test]
fn extreme_element_values_survive_encoding() {
    let a = FixedWidthArray::<i32>::from_values(&[-1, i32::MIN, i32::MAX, 0]);
    assert_eq!(a.get(0), Ok(Some(-1)));
    assert_eq!(a.get(1), Ok(Some(i32::MIN)));
    assert_eq!(a.get(2), Ok(Some(i32::MAX)));
    assert_eq!(a.get(3), Ok(Some(0)));
    // little-endian bytes of -1 are all ones
    assert_eq!(&a.values().as_slice()[0..4], &[0xff, 0xff, 0xff, 0xff]);

    let b = FixedWidthArray::<u64>::from_values(&[u64::MAX, 1 << 56]);
    assert_eq!(b.get(0), Ok(Some(u64::MAX)));
    assert_eq!(b.get(1), Ok(Some(1 << 56)));
    assert_eq!(b.values().len(), 16);
}

#[test]
fn empty_fixed_array() {
    let mut builder = FixedWidthBuilder::<u8>::new();
    let a = builder.finish();
    assert_eq!(a.len(), 0);
    assert!(a.is_empty());
    assert!(a.nulls().is_none());
    assert_eq!(a.null_count(), 0);
    assert!(a.get(0).is_err());
}

#[test]
fn finish_preserves_buffer_capacity() {
    let mut builder = FixedWidthBuilder::<u8>::with_capacity(128);
    builder.append_value(1);
    builder.append_value(2);
    builder.append_value(3);
    assert_eq!(builder.capacity(), 128);
    let array = builder.finish();
    // the buffer moves into the array uncopied: used length 3, capacity 128
    assert_eq!(array.values().len(), 3);
    assert_eq!(array.capacity(), 128);

    let d = array.into_data();
    assert_eq!(d.buffers()[0].len(), 3);
    assert_eq!(d.buffers()[0].capacity(), 128);
}
