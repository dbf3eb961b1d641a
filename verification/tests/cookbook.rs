use columnar::create_arrays::{
    create_array_with_builder_and_capacity, create_array_with_collect,
    create_array_with_constructor, create_array_with_constructor_and_nulls,
    create_array_with_default_builder, create_string_array_with_builder,
    create_string_array_with_collect,
};
use columnar::low_level_api::create_int_array_from_buffer;

#[test]
fn constructor_array() {
    let a = create_array_with_constructor();
    assert_eq!(a.len(), 3);
    assert_eq!(a.get(0), Ok(Some(1)));
    assert_eq!(a.get(1), Ok(Some(2)));
    assert_eq!(a.get(2), Ok(Some(3)));
    assert!(a.nulls().is_none());
}

#[test]
fn constructor_array_with_nulls() {
    let a = create_array_with_constructor_and_nulls();
    assert_eq!(a.len(), 3);
    assert_eq!(a.get(0), Ok(Some(1)));
    assert_eq!(a.get(1), Ok(None));
    assert_eq!(a.get(2), Ok(Some(3)));
    assert_eq!(a.null_count(), 1);
}

#[test]
fn default_builder_array() {
    let a = create_array_with_default_builder();
    assert_eq!(a.len(), 7);
    let expected = [
        Some(1),
        None,
        Some(3),
        Some(4),
        Some(5),
        None,
        Some(8),
    ];
    for (i, e) in expected.iter().enumerate() {
        assert_eq!(a.get(i), Ok(*e));
    }
}

#[test]
fn builder_with_capacity_array() {
    let a = create_array_with_builder_and_capacity();
    assert_eq!(a.len(), 2);
    assert_eq!(a.get(0), Ok(Some(1)));
    assert_eq!(a.get(1), Ok(None));
}

#[test]
fn collect_array() {
    let a = create_array_with_collect();
    assert_eq!(a.len(), 3);
    assert_eq!(a.get(2), Ok(Some(3)));
    assert!(a.nulls().is_none());
}

#[test]
fn string_builder_array() {
    let a = create_string_array_with_builder();
    assert_eq!(a.len(), 4);
    assert_eq!(a.get(0), Ok(Some(b"foo".to_vec())));
    assert_eq!(a.get(1), Ok(Some(b"bar".to_vec())));
    assert_eq!(a.get(2), Ok(None));
    assert_eq!(a.get(3), Ok(Some(b"foobar".to_vec())));
    assert_eq!(a.data().as_slice(), b"foobarfoobar");
}

#[test]
fn string_collect_array() {
    let a = create_string_array_with_collect();
    assert_eq!(a.len(), 3);
    assert_eq!(a.get(0), Ok(Some(b"foo".to_vec())));
    assert_eq!(a.get(1), Ok(Some(b"bar".to_vec())));
    assert_eq!(a.get(2), Ok(Some(b"foobar".to_vec())));
    assert!(a.nulls().is_none());
}

#[test]
fn int_array_from_raw_buffer() {
    let a = create_int_array_from_buffer();
    assert_eq!(a.len(), 3);
    assert_eq!(a.get(0), Ok(Some(1)));
    assert_eq!(a.get(1), Ok(Some(2)));
    assert_eq!(a.get(2), Ok(Some(3)));
    assert!(a.nulls().is_none());
    assert_eq!(a.values().as_slice(), &[1, 2, 3]);
}
