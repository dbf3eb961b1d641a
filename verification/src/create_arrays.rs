use vstd::prelude::*;

verus! {

use crate::fixed::{FixedWidthArray, FixedWidthBuilder};
use crate::variable::{spec_offset_entry, VariableWidthArray, VariableWidthBuilder};
use vstd::bytes::{lemma_auto_spec_u32_to_from_le_bytes, spec_u32_to_le_bytes};

/// Create an integer array from values already in memory; every element is
/// present and the array carries no validity bitmap.
pub fn create_array_with_constructor() -> (a: FixedWidthArray<i32>)
    ensures
        a.wf(),
        a@ == seq![Some(1i32), Some(2i32), Some(3i32)],
        !a.has_nulls(),
{
    let mut values: Vec<i32> = Vec::new();
    values.push(1);
    values.push(2);
    values.push(3);
    let a = FixedWidthArray::<i32>::from_values(values.as_slice());
    proof {
        assert(a@ =~= seq![Some(1i32), Some(2i32), Some(3i32)]);
    }
    a
}

/// Create an integer array with missing values: the constructor takes options,
/// and `None` becomes a null.
pub fn create_array_with_constructor_and_nulls() -> (a: FixedWidthArray<i32>)
    ensures
        a.wf(),
        a@ == seq![Some(1i32), None, Some(3i32)],
        a.has_nulls(),
{
    let mut values: Vec<Option<i32>> = Vec::new();
    values.push(Some(1));
    values.push(None);
    values.push(Some(3));
    let a = FixedWidthArray::<i32>::from_options(values.as_slice());
    proof {
        assert(a@ =~= seq![Some(1i32), None, Some(3i32)]);
        assert(values@[1] is None);
    }
    a
}

/// Create an integer array with the default builder, appending values one at
/// a time, in bulk, and as options.
pub fn create_array_with_default_builder() -> (a: FixedWidthArray<i32>)
    ensures
        a.wf(),
        a@ == seq![
            Some(1i32),
            None,
            Some(3i32),
            Some(4i32),
            Some(5i32),
            None,
            Some(8i32),
        ],
        a.has_nulls(),
{
    let mut builder = FixedWidthBuilder::<i32>::new();
    builder.append_value(1);
    builder.append_null();
    builder.append_value(3);
    let mut bulk: Vec<i32> = Vec::new();
    bulk.push(4);
    bulk.push(5);
    builder.append_slice(bulk.as_slice());
    builder.append_option(None);
    builder.append_option(Some(8));
    let a = builder.finish();
    proof {
        assert(bulk@.map_values(|v: i32| Some(v)) =~= seq![Some(4i32), Some(5i32)]);
        assert(a@ =~= seq![
            Some(1i32),
            None,
            Some(3i32),
            Some(4i32),
            Some(5i32),
            None,
            Some(8i32),
        ]);
    }
    a
}

/// Create an integer array with a builder whose initial capacity was chosen
/// up front, so the appends allocate nothing further.
pub fn create_array_with_builder_and_capacity() -> (a: FixedWidthArray<i32>)
    ensures
        a.wf(),
        a@ == seq![Some(1i32), None],
        a.has_nulls(),
{
    let mut builder = FixedWidthBuilder::<i32>::with_capacity(2);
    builder.append_value(1);
    builder.append_null();
    let a = builder.finish();
    proof {
        assert(a@ =~= seq![Some(1i32), None]);
    }
    a
}

/// Create an integer array by collecting values already in memory; the result
/// equals the constructor path.
pub fn create_array_with_collect() -> (a: FixedWidthArray<i32>)
    ensures
        a.wf(),
        a@ == seq![Some(1i32), Some(2i32), Some(3i32)],
        !a.has_nulls(),
{
    create_array_with_constructor()
}

/// Create a string array with a builder sized for four items and 32 content
/// bytes, with one null among the elements. The physical layout is pinned
/// down too: the data buffer holds exactly the twelve content bytes, and the
/// five offset entries are 0, 3, 6, 6 (the null's empty span) and 12.
pub fn create_string_array_with_builder() -> (a: VariableWidthArray)
    ensures
        a.wf(),
        a@ == seq![
            Some(seq![('f' as u8), ('o' as u8), ('o' as u8)]),
            Some(seq![('b' as u8), ('a' as u8), ('r' as u8)]),
            None,
            Some(
                seq![
                    ('f' as u8),
                    ('o' as u8),
                    ('o' as u8),
                    ('b' as u8),
                    ('a' as u8),
                    ('r' as u8),
                ],
            ),
        ],
        a.has_nulls(),
        a.spec_data() == seq![
            ('f' as u8),
            ('o' as u8),
            ('o' as u8),
            ('b' as u8),
            ('a' as u8),
            ('r' as u8),
            ('f' as u8),
            ('o' as u8),
            ('o' as u8),
            ('b' as u8),
            ('a' as u8),
            ('r' as u8),
        ],
        a.spec_offsets().len() == 20,
        spec_offset_entry(a.spec_offsets(), 0) == 0,
        spec_offset_entry(a.spec_offsets(), 1) == 3,
        spec_offset_entry(a.spec_offsets(), 2) == 6,
        spec_offset_entry(a.spec_offsets(), 3) == 6,
        spec_offset_entry(a.spec_offsets(), 4) == 12,
{
    let mut builder = VariableWidthBuilder::with_capacity(4, 32);
    let foo = ascii_foo();
    let bar = ascii_bar();
    builder.append_bytes(foo.as_slice());
    builder.append_bytes(bar.as_slice());
    builder.append_null();
    let mut foobar = ascii_foo();
    let mut bar2 = ascii_bar();
    foobar.append(&mut bar2);
    proof {
        assert(foobar@ =~= seq![
            ('f' as u8),
            ('o' as u8),
            ('o' as u8),
            ('b' as u8),
            ('a' as u8),
            ('r' as u8),
        ]);
    }
    builder.append_bytes(foobar.as_slice());
    let a = builder.finish();
    proof {
        assert(a@ =~= seq![
            Some(seq![('f' as u8), ('o' as u8), ('o' as u8)]),
            Some(seq![('b' as u8), ('a' as u8), ('r' as u8)]),
            None,
            Some(
                seq![
                    ('f' as u8),
                    ('o' as u8),
                    ('o' as u8),
                    ('b' as u8),
                    ('a' as u8),
                    ('r' as u8),
                ],
            ),
        ]);
        assert(a.spec_data() =~= seq![
            ('f' as u8),
            ('o' as u8),
            ('o' as u8),
            ('b' as u8),
            ('a' as u8),
            ('r' as u8),
            ('f' as u8),
            ('o' as u8),
            ('o' as u8),
            ('b' as u8),
            ('a' as u8),
            ('r' as u8),
        ]);
        lemma_auto_spec_u32_to_from_le_bytes();
        assert(spec_u32_to_le_bytes(0u32).len() == 4 && spec_u32_to_le_bytes(3u32).len() == 4
            && spec_u32_to_le_bytes(6u32).len() == 4 && spec_u32_to_le_bytes(12u32).len() == 4);
        let off = a.spec_offsets();
        assert(off.subrange(0, 4) =~= spec_u32_to_le_bytes(0u32));
        assert(off.subrange(4, 8) =~= spec_u32_to_le_bytes(3u32));
        assert(off.subrange(8, 12) =~= spec_u32_to_le_bytes(6u32));
        assert(off.subrange(12, 16) =~= spec_u32_to_le_bytes(6u32));
        assert(off.subrange(16, 20) =~= spec_u32_to_le_bytes(12u32));
    }
    a
}

/// Create a string array by collecting values already in memory; every element
/// is present and the array carries no validity bitmap. The physical layout is
/// pinned down too: the data buffer holds exactly the twelve content bytes,
/// and the four offset entries are 0, 3, 6 and 12.
pub fn create_string_array_with_collect() -> (a: VariableWidthArray)
    ensures
        a.wf(),
        a@ == seq![
            Some(seq![('f' as u8), ('o' as u8), ('o' as u8)]),
            Some(seq![('b' as u8), ('a' as u8), ('r' as u8)]),
            Some(
                seq![
                    ('f' as u8),
                    ('o' as u8),
                    ('o' as u8),
                    ('b' as u8),
                    ('a' as u8),
                    ('r' as u8),
                ],
            ),
        ],
        !a.has_nulls(),
        a.spec_data() == seq![
            ('f' as u8),
            ('o' as u8),
            ('o' as u8),
            ('b' as u8),
            ('a' as u8),
            ('r' as u8),
            ('f' as u8),
            ('o' as u8),
            ('o' as u8),
            ('b' as u8),
            ('a' as u8),
            ('r' as u8),
        ],
        a.spec_offsets().len() == 16,
        spec_offset_entry(a.spec_offsets(), 0) == 0,
        spec_offset_entry(a.spec_offsets(), 1) == 3,
        spec_offset_entry(a.spec_offsets(), 2) == 6,
        spec_offset_entry(a.spec_offsets(), 3) == 12,
{
    let mut builder = VariableWidthBuilder::new();
    let foo = ascii_foo();
    let bar = ascii_bar();
    builder.append_bytes(foo.as_slice());
    builder.append_bytes(bar.as_slice());
    let mut foobar = ascii_foo();
    let mut bar2 = ascii_bar();
    foobar.append(&mut bar2);
    proof {
        assert(foobar@ =~= seq![
            ('f' as u8),
            ('o' as u8),
            ('o' as u8),
            ('b' as u8),
            ('a' as u8),
            ('r' as u8),
        ]);
    }
    builder.append_bytes(foobar.as_slice());
    let a = builder.finish();
    proof {
        assert(a@ =~= seq![
            Some(seq![('f' as u8), ('o' as u8), ('o' as u8)]),
            Some(seq![('b' as u8), ('a' as u8), ('r' as u8)]),
            Some(
                seq![
                    ('f' as u8),
                    ('o' as u8),
                    ('o' as u8),
                    ('b' as u8),
                    ('a' as u8),
                    ('r' as u8),
                ],
            ),
        ]);
        assert(a.spec_data() =~= seq![
            ('f' as u8),
            ('o' as u8),
            ('o' as u8),
            ('b' as u8),
            ('a' as u8),
            ('r' as u8),
            ('f' as u8),
            ('o' as u8),
            ('o' as u8),
            ('b' as u8),
            ('a' as u8),
            ('r' as u8),
        ]);
        lemma_auto_spec_u32_to_from_le_bytes();
        assert(spec_u32_to_le_bytes(0u32).len() == 4 && spec_u32_to_le_bytes(3u32).len() == 4
            && spec_u32_to_le_bytes(6u32).len() == 4 && spec_u32_to_le_bytes(12u32).len() == 4);
        let off = a.spec_offsets();
        assert(off.subrange(0, 4) =~= spec_u32_to_le_bytes(0u32));
        assert(off.subrange(4, 8) =~= spec_u32_to_le_bytes(3u32));
        assert(off.subrange(8, 12) =~= spec_u32_to_le_bytes(6u32));
        assert(off.subrange(12, 16) =~= spec_u32_to_le_bytes(12u32));
    }
    a
}

/// The bytes of "foo".
fn ascii_foo() -> (v: Vec<u8>)
    ensures
        v@ == seq![('f' as u8), ('o' as u8), ('o' as u8)],
{
    let mut v: Vec<u8> = Vec::new();
    v.push('f' as u8);
    v.push('o' as u8);
    v.push('o' as u8);
    proof {
        assert(v@ =~= seq![('f' as u8), ('o' as u8), ('o' as u8)]);
    }
    v
}

/// The bytes of "bar".
fn ascii_bar() -> (v: Vec<u8>)
    ensures
        v@ == seq![('b' as u8), ('a' as u8), ('r' as u8)],
{
    let mut v: Vec<u8> = Vec::new();
    v.push('b' as u8);
    v.push('a' as u8);
    v.push('r' as u8);
    proof {
        assert(v@ =~= seq![('b' as u8), ('a' as u8), ('r' as u8)]);
    }
    v
}

} // verus!
