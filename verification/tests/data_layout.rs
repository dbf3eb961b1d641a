use columnar::bitmap::ValidityBitmap;
use columnar::buffer::Buffer;
use columnar::data::ArrayData;
use columnar::datatype::DataType;
use columnar::error::LayoutError;
use columnar::fixed::{FixedWidthArray, FixedWidthBuilder};
use columnar::variable::{VariableWidthArray, VariableWidthBuilder};

fn offsets_buffer(entries: &[u32]) -> Buffer {
    let mut bytes = Vec::new();
    for e in entries {
        bytes.extend_from_slice(&e.to_le_bytes());
    }
    Buffer::from_bytes(bytes)
}

#[test]
fn raw_buffer_construction() {
    let data = Buffer::from_bytes(vec![1, 2, 3]);
    let array_data =
        ArrayData::try_new(DataType::UInt8, 3, None, 0, vec![data], vec![]).unwrap();
    assert_eq!(array_data.len(), 3);
    assert_eq!(array_data.data_type(), DataType::UInt8);
    assert_eq!(array_data.null_count(), 0);
    assert!(array_data.null_bitmap().is_none());

    let array = FixedWidthArray::<u8>::from_data(array_data);
    assert_eq!(array.len(), 3);
    assert_eq!(array.get(0), Ok(Some(1)));
    assert_eq!(array.get(1), Ok(Some(2)));
    assert_eq!(array.get(2), Ok(Some(3)));
    assert!(array.nulls().is_none());
}

#[test]
fn raw_buffer_too_small() {
    let data = Buffer::from_bytes(vec![1, 2, 3]);
    let r = ArrayData::try_new(DataType::UInt8, 5, None, 0, vec![data], vec![]);
    assert_eq!(r.err(), Some(LayoutError::BufferTooSmall));
}

#[test]
fn wrong_buffer_count_is_rejected() {
    let r = ArrayData::try_new(DataType::UInt8, 0, None, 0, vec![], vec![]);
    assert_eq!(r.err(), Some(LayoutError::WrongBufferCount));

    let only_offsets = offsets_buffer(&[0]);
    let r2 = ArrayData::try_new(DataType::Utf8, 0, None, 0, vec![only_offsets], vec![]);
    assert_eq!(r2.err(), Some(LayoutError::WrongBufferCount));

    let a = Buffer::from_bytes(vec![1]);
    let b = Buffer::from_bytes(vec![2]);
    let r3 = ArrayData::try_new(DataType::UInt8, 1, None, 0, vec![a, b], vec![]);
    assert_eq!(r3.err(), Some(LayoutError::WrongBufferCount));
}

#[test]
fn non_monotonic_offsets_are_rejected() {
    let offsets = offsets_buffer(&[0, 5, 3]);
    let data = Buffer::from_bytes(b"hello".to_vec());
    let r = ArrayData::try_new(DataType::Utf8, 2, None, 0, vec![offsets, data], vec![]);
    assert_eq!(r.err(), Some(LayoutError::NonMonotonicOffsets));
}

#[test]
fn final_offset_out_of_range_is_rejected() {
    let offsets = offsets_buffer(&[0, 10]);
    let data = Buffer::from_bytes(b"hello".to_vec());
    let r = ArrayData::try_new(DataType::Utf8, 1, None, 0, vec![offsets, data], vec![]);
    assert_eq!(r.err(), Some(LayoutError::OffsetOutOfRange));
}

#[test]
fn short_offsets_buffer_is_rejected() {
    // one element needs two entries; only one supplied
    let offsets = offsets_buffer(&[0]);
    let data = Buffer::from_bytes(b"hi".to_vec());
    let r = ArrayData::try_new(DataType::Utf8, 1, None, 0, vec![offsets, data], vec![]);
    assert_eq!(r.err(), Some(LayoutError::BufferTooSmall));
}

#[test]
fn short_bitmap_is_rejected() {
    let data = Buffer::from_bytes(vec![1, 2, 3]);
    let bitmap = ValidityBitmap::with_all_valid(2);
    let r = ArrayData::try_new(DataType::UInt8, 3, Some(bitmap), 0, vec![data], vec![]);
    assert_eq!(r.err(), Some(LayoutError::BufferTooSmall));
}

#[test]
fn valid_utf8_layout_is_accepted() {
    let offsets = offsets_buffer(&[0, 3, 6]);
    let data = Buffer::from_bytes(b"foobar".to_vec());
    let d = ArrayData::try_new(DataType::Utf8, 2, None, 0, vec![offsets, data], vec![]).unwrap();
    assert_eq!(d.len(), 2);
    assert_eq!(d.data_type(), DataType::Utf8);
    assert_eq!(d.buffers().len(), 2);
    assert!(d.children().is_empty());

    let array = VariableWidthArray::try_from_data(d).unwrap();
    assert_eq!(array.len(), 2);
    assert_eq!(array.get(0), Ok(Some(b"foo".to_vec())));
    assert_eq!(array.get(1), Ok(Some(b"bar".to_vec())));
}

#[test]
fn utf8_nonzero_leading_offset_is_rejected_on_reconstruction() {
    let offsets = offsets_buffer(&[2, 3]);
    let data = Buffer::from_bytes(b"xyz".to_vec());
    let d = ArrayData::try_new(DataType::Utf8, 1, None, 0, vec![offsets, data], vec![]).unwrap();
    let r = VariableWidthArray::try_from_data(d);
    assert_eq!(r.err(), Some(LayoutError::OffsetOutOfRange));
}

#[test]
fn fixed_round_trip_preserves_everything() {
    let mut builder = FixedWidthBuilder::<i32>::new();
    builder.append_value(1);
    builder.append_null();
    builder.append_value(3);
    let array = builder.finish();
    let values_before: Vec<u8> = array.values().as_slice().to_vec();

    let back = array.round_trip_via_data();
    assert_eq!(back.len(), 3);
    assert_eq!(back.get(0), Ok(Some(1)));
    assert_eq!(back.get(1), Ok(None));
    assert_eq!(back.get(2), Ok(Some(3)));
    assert_eq!(back.values().as_slice(), values_before.as_slice());
    assert_eq!(back.null_count(), 1);
}

#[test]
fn fixed_round_trip_without_nulls_stays_bitmap_free() {
    let array = FixedWidthArray::<u64>::from_values(&[5, 6]);
    let back = array.round_trip_via_data();
    assert!(back.nulls().is_none());
    assert_eq!(back.get(0), Ok(Some(5)));
    assert_eq!(back.get(1), Ok(Some(6)));
}

#[test]
fn variable_round_trip_preserves_everything() {
    let mut builder = VariableWidthBuilder::with_capacity(4, 32);
    builder.append_value("foo");
    builder.append_value("bar");
    builder.append_null();
    builder.append_value("foobar");
    let array = builder.finish();
    let offsets_before: Vec<u8> = array.offsets().as_slice().to_vec();
    let data_before: Vec<u8> = array.data().as_slice().to_vec();

    let back = array.round_trip_via_data();
    assert_eq!(back.len(), 4);
    assert_eq!(back.get(0), Ok(Some(b"foo".to_vec())));
    assert_eq!(back.get(2), Ok(None));
    assert_eq!(back.get(3), Ok(Some(b"foobar".to_vec())));
    assert_eq!(back.offsets().as_slice(), offsets_before.as_slice());
    assert_eq!(back.data().as_slice(), data_before.as_slice());
}

#[test]
fn into_data_exposes_physical_layout() {
    let mut builder = FixedWidthBuilder::<u8>::new();
    builder.append_value(1);
    builder.append_null();
    builder.append_value(3);
    let d = builder.finish().into_data();
    assert_eq!(d.len(), 3);
    assert_eq!(d.data_type(), DataType::UInt8);
    assert_eq!(d.offset(), 0);
    assert_eq!(d.null_count(), 1);
    assert_eq!(d.buffers().len(), 1);
    assert_eq!(d.buffers()[0].len(), 3);
    // packed validity: elements 0 and 2 present -> 0b101
    let null_buffer = d.null_buffer().expect("bitmap present");
    assert_eq!(null_buffer.get(0), Ok(0b0000_0101));
    let bitmap = d.null_bitmap().expect("bitmap present");
    assert_eq!(bitmap.bit_len(), 3);
    assert_eq!(bitmap.count_unset(), 1);
}

#[test]
fn builder_and_raw_buffer_paths_are_bit_identical() {
    // fixed-width: the same logical content through the builder and through
    // raw buffers yields the same physical bytes
    let mut builder = FixedWidthBuilder::<u8>::new();
    builder.append_slice(&[1, 2, 3]);
    let built = builder.finish();

    let raw = Buffer::from_bytes(vec![1, 2, 3]);
    let d = ArrayData::try_new(DataType::UInt8, 3, None, 0, vec![raw], vec![]).unwrap();
    let assembled = FixedWidthArray::<u8>::from_data(d);

    assert_eq!(built.values().as_slice(), assembled.values().as_slice());
    assert!(built.nulls().is_none() && assembled.nulls().is_none());

    // variable-width: builder offsets and data match hand-written raw buffers
    let mut sb = VariableWidthBuilder::new();
    sb.append_value("ab");
    sb.append_value("c");
    let s_built = sb.finish();

    let offsets = offsets_buffer(&[0, 2, 3]);
    let data = Buffer::from_bytes(b"abc".to_vec());
    let sd = ArrayData::try_new(DataType::Utf8, 2, None, 0, vec![offsets, data], vec![]).unwrap();
    let s_assembled = VariableWidthArray::try_from_data(sd).unwrap();

    assert_eq!(s_built.offsets().as_slice(), s_assembled.offsets().as_slice());
    assert_eq!(s_built.data().as_slice(), s_assembled.data().as_slice());
}

#[test]
fn slicing_adjusts_only_metadata() {
    let mut builder = FixedWidthBuilder::<u8>::new();
    builder.append_value(1);
    builder.append_null();
    builder.append_value(3);
    builder.append_value(4);
    let d = builder.finish().into_data();
    assert_eq!(d.null_count(), 1);
    let values_before: Vec<u8> = d.buffers()[0].as_slice().to_vec();

    let sliced = d.slice(2, 2);
    assert_eq!(sliced.len(), 2);
    assert_eq!(sliced.offset(), 2);
    // the window past the null holds only present elements
    assert_eq!(sliced.null_count(), 0);
    // the buffers themselves are untouched
    assert_eq!(sliced.buffers()[0].as_slice(), values_before.as_slice());
    assert_eq!(sliced.buffers()[0].len(), 4);

    let again = sliced.slice(0, 1);
    assert_eq!(again.offset(), 2);
    assert_eq!(again.len(), 1);
}
