use columnar::bitmap::ValidityBitmap;
use columnar::buffer::Buffer;
use columnar::error::AccessError;

#[test]
fn buffer_from_bytes_and_access() {
    let b = Buffer::from_bytes(vec![10, 20, 30]);
    assert_eq!(b.len(), 3);
    assert_eq!(b.capacity(), 3);
    assert_eq!(b.as_slice(), &[10, 20, 30]);
    assert_eq!(b.get(0), Ok(10));
    assert_eq!(b.get(2), Ok(30));
    assert_eq!(b.get(3), Err(AccessError::IndexOutOfRange));
}

#[test]
fn buffer_growth_doubles_with_floor() {
    let mut b = Buffer::allocate(0);
    assert_eq!(b.len(), 0);
    assert_eq!(b.capacity(), 0);
    b.push_bytes(&[1]);
    // the growth floor is 64 bytes
    assert_eq!(b.capacity(), 64);
    b.push_bytes(&[0; 63]);
    assert_eq!(b.len(), 64);
    assert_eq!(b.capacity(), 64);
    b.push_bytes(&[2]);
    assert_eq!(b.capacity(), 128);
    assert_eq!(b.len(), 65);
}

#[test]
fn buffer_reserve_is_lazy() {
    let mut b = Buffer::allocate(10);
    b.push_bytes(&[1, 2, 3]);
    // within capacity: nothing grows
    assert_eq!(b.capacity(), 10);
    b.reserve(7);
    assert_eq!(b.capacity(), 10);
    b.reserve(8);
    assert!(b.capacity() >= 11);
}

#[test]
fn bitmap_all_valid_is_packed_little_endian() {
    let bm = ValidityBitmap::with_all_valid(3);
    assert_eq!(bm.bit_len(), 3);
    // three valid bits, unused high bits of the byte kept zero
    assert_eq!(bm.as_buffer().get(0), Ok(0b0000_0111));
    assert_eq!(bm.get(0), Ok(true));
    assert_eq!(bm.get(2), Ok(true));
    assert_eq!(bm.get(3), Err(AccessError::IndexOutOfRange));
    assert_eq!(bm.count_unset(), 0);

    let big = ValidityBitmap::with_all_valid(9);
    assert_eq!(big.as_buffer().len(), 2);
    assert_eq!(big.as_buffer().get(0), Ok(0xff));
    assert_eq!(big.as_buffer().get(1), Ok(0b0000_0001));
}

#[test]
fn bitmap_set_and_count() {
    let mut bm = ValidityBitmap::new_empty();
    assert_eq!(bm.bit_len(), 0);
    bm.set(0, true);
    bm.set(1, false);
    bm.set(2, true);
    assert_eq!(bm.bit_len(), 3);
    assert_eq!(bm.get(0), Ok(true));
    assert_eq!(bm.get(1), Ok(false));
    assert_eq!(bm.get(2), Ok(true));
    assert_eq!(bm.count_unset(), 1);
    assert_eq!(bm.as_buffer().get(0), Ok(0b0000_0101));

    bm.set(1, true);
    assert_eq!(bm.get(1), Ok(true));
    assert_eq!(bm.count_unset(), 0);
}

#[test]
fn bitmap_set_grows_with_absent_gaps() {
    let mut bm = ValidityBitmap::new_empty();
    bm.set(10, true);
    assert_eq!(bm.bit_len(), 11);
    for i in 0..10 {
        assert_eq!(bm.get(i), Ok(false));
    }
    assert_eq!(bm.get(10), Ok(true));
    assert_eq!(bm.count_unset(), 10);
    assert_eq!(bm.count_unset_range(0, 5), 5);
    assert_eq!(bm.count_unset_range(10, 11), 0);
}
