use columnar::variable::VariableWidthBuilder;

#[test]
fn string_builder_with_nulls() {
    let mut builder = VariableWidthBuilder::with_capacity(4, 32);
    builder.append_value("foo");
    builder.append_value("bar");
    builder.append_null();
    builder.append_option(Some("foobar"));
    let array = builder.finish();

    assert_eq!(array.len(), 4);
    assert_eq!(array.offset_at(0), Ok(0));
    assert_eq!(array.offset_at(1), Ok(3));
    assert_eq!(array.offset_at(2), Ok(6));
    assert_eq!(array.offset_at(3), Ok(6));
    assert_eq!(array.offset_at(4), Ok(12));
    assert_eq!(array.data().as_slice(), b"foobarfoobar");
    assert_eq!(array.is_valid(0), Ok(true));
    assert_eq!(array.is_valid(1), Ok(true));
    assert_eq!(array.is_valid(2), Ok(false));
    assert_eq!(array.is_valid(3), Ok(true));
    assert_eq!(array.get(0), Ok(Some(b"foo".to_vec())));
    assert_eq!(array.get(1), Ok(Some(b"bar".to_vec())));
    assert_eq!(array.get(2), Ok(None));
    assert_eq!(array.get(3), Ok(Some(b"foobar".to_vec())));
    assert_eq!(array.null_count(), 1);
}

#[test]
fn offsets_invariant_holds() {
    let mut builder = VariableWidthBuilder::new();
    builder.append_value("a");
    builder.append_null();
    builder.append_value("bcd");
    let array = builder.finish();
    let n = array.len();
    assert_eq!(n, 3);
    // n + 1 offset entries of four bytes each
    assert_eq!(array.offsets().len(), (n + 1) * 4);
    assert_eq!(array.offset_at(0), Ok(0));
    let mut prev = 0;
    for i in 0..=n {
        let o = array.offset_at(i).unwrap();
        assert!(o >= prev);
        prev = o;
    }
    assert_eq!(array.offset_at(n), Ok(array.data().len()));
    assert!(array.offset_at(n + 1).is_err());
}

#[test]
fn empty_string_array() {
    let mut builder = VariableWidthBuilder::new();
    let array = builder.finish();
    assert_eq!(array.len(), 0);
    assert!(array.is_empty());
    // a single leading zero entry is always present
    assert_eq!(array.offsets().len(), 4);
    assert_eq!(array.offset_at(0), Ok(0));
    assert_eq!(array.data().len(), 0);
    assert!(array.get(0).is_err());
}

#[test]
fn empty_element_is_present() {
    let mut builder = VariableWidthBuilder::new();
    builder.append_value("");
    builder.append_value("x");
    let array = builder.finish();
    assert_eq!(array.len(), 2);
    assert_eq!(array.is_valid(0), Ok(true));
    assert_eq!(array.get(0), Ok(Some(Vec::new())));
    assert_eq!(array.get(1), Ok(Some(b"x".to_vec())));
    assert!(array.nulls().is_none());
}

#[test]
fn string_builder_capacities() {
    let builder = VariableWidthBuilder::with_capacity(4, 32);
    assert!(builder.offsets_capacity() >= 20);
    assert_eq!(builder.data_capacity(), 32);

    let mut b2 = VariableWidthBuilder::with_capacity(1, 2);
    let before = b2.data_capacity();
    b2.append_value("many bytes of content here");
    assert!(b2.data_capacity() >= before);
    assert!(b2.data_capacity() >= 26);
}

#[test]
fn string_builder_reuse_after_finish() {
    let mut builder = VariableWidthBuilder::new();
    builder.append_value("foo");
    builder.append_null();
    let first = builder.finish();
    assert_eq!(first.len(), 2);
    assert!(first.nulls().is_some());

    assert_eq!(builder.len(), 0);
    builder.append_value("bar");
    let second = builder.finish();
    assert_eq!(second.len(), 1);
    assert_eq!(second.get(0), Ok(Some(b"bar".to_vec())));
    assert!(second.nulls().is_none());
}

#[test]
fn string_finish_preserves_buffer_capacities() {
    let mut builder = VariableWidthBuilder::with_capacity(4, 32);
    builder.append_value("foo");
    let array = builder.finish();
    assert_eq!(array.data().len(), 3);
    assert_eq!(array.data_capacity(), 32);
    assert!(array.offsets().capacity() >= 20);
}
