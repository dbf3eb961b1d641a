use vstd::prelude::*;

verus! {

use crate::bitmap::{count_false, ValidityBitmap};
use crate::data::ArrayData;
use crate::buffer::Buffer;
use crate::datatype::DataType;
use crate::error::{AccessError, LayoutError};
use crate::fixed::lemma_count_false_all_true;
use vstd::bytes::{
    lemma_auto_spec_u32_to_from_le_bytes,
    spec_u32_from_le_bytes,
    spec_u32_to_le_bytes,
    u32_from_le_bytes,
    u32_to_le_bytes,
};
use vstd::string::StringSliceAdditionalSpecFns;

/// The 32-bit little-endian offset entry at slot `i` of an offsets byte
/// sequence.
pub open spec fn spec_offset_entry(offsets: Seq<u8>, i: int) -> int {
    spec_u32_from_le_bytes(offsets.subrange(4 * i, 4 * i + 4)) as int
}

/// The offsets layout over `count` elements: `count + 1` slots of four bytes,
/// a leading zero, non-decreasing entries, every entry within the data length,
/// and a final entry that marks the end of the data.
pub open spec fn spec_offsets_wf(offsets: Seq<u8>, count: int, data_len: int) -> bool {
    &&& offsets.len() == (count + 1) * 4
    &&& spec_offset_entry(offsets, 0) == 0
    &&& forall|i: int|
        0 <= i < count ==> #[trigger] spec_offset_entry(offsets, i) <= spec_offset_entry(
            offsets,
            i + 1,
        )
    &&& forall|i: int| 0 <= i <= count ==> 0 <= #[trigger] spec_offset_entry(offsets, i) <= data_len
    &&& spec_offset_entry(offsets, count) == data_len
    &&& data_len <= i32::MAX
}

/// The logical elements delimited by an offsets sequence over a data byte
/// sequence: entry `i` is `None` where validity is unset, else the bytes
/// between offsets `i` and `i + 1`.
pub open spec fn spec_var_elements(offsets: Seq<u8>, data: Seq<u8>, validity: Seq<bool>) -> Seq<
    Option<Seq<u8>>,
> {
    Seq::new(
        validity.len(),
        |i: int|
            if validity[i] {
                Some(data.subrange(spec_offset_entry(offsets, i), spec_offset_entry(offsets, i + 1)))
            } else {
                None
            },
    )
}

/// Slot arithmetic for four-byte offset entries.
proof fn lemma_offset_slot(i: int, count: int)
    by (nonlinear_arith)
    requires
        0 <= i <= count,
    ensures
        0 <= 4 * i,
        4 * i + 4 <= (count + 1) * 4,
{
}

/// An offset entry is untouched by appending bytes to the offsets sequence.
proof fn lemma_offset_entry_extend(offsets: Seq<u8>, tail: Seq<u8>, i: int)
    requires
        0 <= i,
        4 * i + 4 <= offsets.len(),
    ensures
        spec_offset_entry(offsets + tail, i) == spec_offset_entry(offsets, i),
{
    assert((offsets + tail).subrange(4 * i, 4 * i + 4) =~= offsets.subrange(4 * i, 4 * i + 4));
}

/// An immutable array of variable-width (UTF-8) byte sequences: an offsets
/// buffer of `length + 1` little-endian 32-bit entries delimiting each
/// element's span in a data buffer, and an optional validity bitmap.
pub struct VariableWidthArray {
    offsets: Buffer,
    data: Buffer,
    nulls: Option<ValidityBitmap>,
    length: usize,
}

/// A mutable accumulator for variable-width elements, growing its offsets and
/// data buffers independently, that finalizes into a [`VariableWidthArray`].
/// The offsets buffer holds the leading zero entry from construction on; a
/// validity bitmap is materialized lazily, on the first null.
pub struct VariableWidthBuilder {
    offsets: Buffer,
    data: Buffer,
    nulls: Option<ValidityBitmap>,
    length: usize,
}

impl View for VariableWidthArray {
    type V = Seq<Option<Seq<u8>>>;

    /// The logical contents: `None` at null slots, the element's bytes
    /// elsewhere.
    closed spec fn view(&self) -> Seq<Option<Seq<u8>>> {
        spec_var_elements(self.offsets@, self.data@, self.spec_validity())
    }
}

impl VariableWidthArray {
    /// The bytes of the offsets buffer.
    pub closed spec fn spec_offsets(&self) -> Seq<u8> {
        self.offsets@
    }

    /// The bytes of the data buffer.
    pub closed spec fn spec_data(&self) -> Seq<u8> {
        self.data@
    }

    /// The presence flag of each element; all true when no bitmap is carried.
    pub closed spec fn spec_validity(&self) -> Seq<bool> {
        match self.nulls {
            Some(bm) => bm@,
            None => Seq::new(self.length as nat, |i: int| true),
        }
    }

    /// Whether the array carries a validity bitmap.
    pub closed spec fn has_nulls(&self) -> bool {
        self.nulls is Some
    }

    /// The allocated capacity of the offsets buffer, in bytes.
    pub closed spec fn spec_offsets_capacity(&self) -> nat {
        self.offsets.spec_capacity()
    }

    /// The allocated capacity of the data buffer, in bytes.
    pub closed spec fn spec_data_capacity(&self) -> nat {
        self.data.spec_capacity()
    }

    pub closed spec fn wf(&self) -> bool {
        &&& self.offsets.wf()
        &&& self.data.wf()
        &&& spec_offsets_wf(self.offsets@, self.length as int, self.data@.len() as int)
        &&& match self.nulls {
            Some(bm) => bm.wf() && bm@.len() == self.length,
            None => true,
        }
    }

    /// The offsets invariant: an array of `n` elements has exactly `n + 1`
    /// offset entries, the first is zero, they never decrease, and the last
    /// equals the data buffer's length.
    pub proof fn lemma_offsets_invariant(&self)
        requires
            self.wf(),
        ensures
            self.spec_offsets().len() == (self@.len() + 1) * 4,
            spec_offset_entry(self.spec_offsets(), 0) == 0,
            forall|i: int|
                0 <= i < self@.len() ==> #[trigger] spec_offset_entry(self.spec_offsets(), i)
                    <= spec_offset_entry(self.spec_offsets(), i + 1),
            spec_offset_entry(self.spec_offsets(), self@.len() as int) == self.spec_data().len(),
    {
    }

    pub fn len(&self) -> (n: usize)
        requires
            self.wf(),
        ensures
            n == self@.len(),
    {
        self.length
    }

    pub fn is_empty(&self) -> (b: bool)
        requires
            self.wf(),
        ensures
            b == (self@.len() == 0),
    {
        self.length == 0
    }

    /// The element type tag.
    pub fn data_type(&self) -> (t: DataType)
        ensures
            t == DataType::Utf8,
    {
        DataType::Utf8
    }

    /// The offsets buffer, for introspection of the physical layout.
    pub fn offsets(&self) -> (b: &Buffer)
        ensures
            b@ == self.spec_offsets(),
    {
        &self.offsets
    }

    /// The data buffer, for introspection of the physical layout.
    pub fn data(&self) -> (b: &Buffer)
        ensures
            b@ == self.spec_data(),
    {
        &self.data
    }

    /// The allocated capacity of the data buffer, in bytes.
    pub fn data_capacity(&self) -> (n: usize)
        ensures
            n == self.spec_data_capacity(),
    {
        self.data.capacity()
    }

    /// The validity bitmap, if the array carries one.
    pub fn nulls(&self) -> (r: Option<&ValidityBitmap>)
        requires
            self.wf(),
        ensures
            match r {
                Some(bm) => self.has_nulls() && bm.wf() && bm@ == self.spec_validity(),
                None => !self.has_nulls(),
            },
    {
        match &self.nulls {
            Some(bm) => Some(bm),
            None => None,
        }
    }

    /// The offset entry at slot `index` (`0..=len`), or `IndexOutOfRange`
    /// past the final entry.
    pub fn offset_at(&self, index: usize) -> (r: Result<usize, AccessError>)
        requires
            self.wf(),
        ensures
            index <= self@.len() ==> r == Ok::<usize, AccessError>(
                spec_offset_entry(self.spec_offsets(), index as int) as usize,
            ),
            index > self@.len() ==> r == Err::<usize, AccessError>(AccessError::IndexOutOfRange),
    {
        if index <= self.length {
            let olen = self.offsets.len();
            proof {
                lemma_offset_slot(index as int, self.length as int);
                assert(4 * index + 4 <= olen);
            }
            let s = vstd::slice::slice_subrange(self.offsets.as_slice(), 4 * index, 4 * index + 4);
            Ok(u32_from_le_bytes(s) as usize)
        } else {
            Err(AccessError::IndexOutOfRange)
        }
    }

    /// Whether element `index` is present, or `IndexOutOfRange` past the end.
    pub fn is_valid(&self, index: usize) -> (r: Result<bool, AccessError>)
        requires
            self.wf(),
        ensures
            index < self@.len() ==> r == Ok::<bool, AccessError>(self@[index as int] is Some),
            index >= self@.len() ==> r == Err::<bool, AccessError>(AccessError::IndexOutOfRange),
    {
        if index < self.length {
            match &self.nulls {
                Some(bm) => {
                    match bm.get(index) {
                        Ok(b) => Ok(b),
                        Err(e) => Err(e),
                    }
                },
                None => Ok(true),
            }
        } else {
            Err(AccessError::IndexOutOfRange)
        }
    }

    /// The bytes of element `index` (`None` for a null slot), or
    /// `IndexOutOfRange` past the end.
    pub fn get(&self, index: usize) -> (r: Result<Option<Vec<u8>>, AccessError>)
        requires
            self.wf(),
        ensures
            index >= self@.len() ==> r == Err::<Option<Vec<u8>>, AccessError>(
                AccessError::IndexOutOfRange,
            ),
            index < self@.len() ==> match (r, self@[index as int]) {
                (Ok(Some(bytes)), Some(expected)) => bytes@ == expected,
                (Ok(None), None) => true,
                _ => false,
            },
    {
        let valid = self.is_valid(index)?;
        if !valid {
            return Ok(None);
        }
        let start = match self.offset_at(index) {
            Ok(o) => o,
            Err(e) => {
                return Err(e);
            },
        };
        let end = match self.offset_at(index + 1) {
            Ok(o) => o,
            Err(e) => {
                return Err(e);
            },
        };
        let bytes = vstd::slice::slice_subrange(self.data.as_slice(), start, end);
        Ok(Some(vstd::slice::slice_to_vec(bytes)))
    }

    /// How many elements are null.
    pub fn null_count(&self) -> (n: usize)
        requires
            self.wf(),
        ensures
            n == count_false(self.spec_validity()),
    {
        match &self.nulls {
            Some(bm) => bm.count_unset(),
            None => {
                proof {
                    lemma_count_false_all_true(self.spec_validity());
                }
                0
            },
        }
    }
}

/// Appending one terminating offset entry (for an element whose bytes `tail`
/// were appended to the data) extends the logical elements by one.
proof fn lemma_var_extend(
    offsets: Seq<u8>,
    data: Seq<u8>,
    validity: Seq<bool>,
    tail: Seq<u8>,
    entry_bytes: Seq<u8>,
    flag: bool,
)
    requires
        spec_offsets_wf(offsets, validity.len() as int, data.len() as int),
        entry_bytes.len() == 4,
        spec_u32_from_le_bytes(entry_bytes) == data.len() + tail.len(),
        data.len() + tail.len() <= i32::MAX,
        flag ==> tail.len() >= 0,
        !flag ==> tail.len() == 0,
    ensures
        spec_offsets_wf(
            offsets + entry_bytes,
            validity.len() as int + 1,
            data.len() as int + tail.len() as int,
        ),
        spec_var_elements(offsets + entry_bytes, data + tail, validity.push(flag))
            =~= spec_var_elements(offsets, data, validity).push(
            if flag {
                Some(tail)
            } else {
                None
            },
        ),
{
    let l = validity.len() as int;
    let newo = offsets + entry_bytes;
    assert forall|i: int| 0 <= i <= l implies #[trigger] spec_offset_entry(newo, i)
        == spec_offset_entry(offsets, i) by {
        lemma_offset_slot(i, l);
        lemma_offset_entry_extend(offsets, entry_bytes, i);
    }
    assert(newo.subrange(4 * (l + 1), 4 * (l + 1) + 4) =~= entry_bytes) by {
        assert(4 * (l + 1) == (l + 1) * 4) by (nonlinear_arith);
    };
    assert(spec_offset_entry(newo, l + 1) == data.len() + tail.len());
    assert(newo.len() == (l + 2) * 4) by (nonlinear_arith)
        requires
            newo.len() == (l + 1) * 4 + 4,
    ;
    assert forall|i: int| 0 <= i < l + 1 implies #[trigger] spec_offset_entry(newo, i)
        <= spec_offset_entry(newo, i + 1) by {
        if i < l {
            assert(spec_offset_entry(offsets, i) <= spec_offset_entry(offsets, i + 1));
        } else {
            assert(spec_offset_entry(offsets, l) == data.len());
        }
    }
    assert forall|i: int| 0 <= i <= l + 1 implies 0 <= #[trigger] spec_offset_entry(newo, i)
        <= data.len() + tail.len() by {
        if i <= l {
            assert(0 <= spec_offset_entry(offsets, i) <= data.len());
        }
    }
    assert forall|i: int| 0 <= i < l + 1 implies spec_var_elements(
        newo,
        data + tail,
        validity.push(flag),
    )[i] == spec_var_elements(offsets, data, validity).push(
        if flag {
            Some(tail)
        } else {
            None
        },
    )[i] by {
        if i < l {
            if validity[i] {
                let a = spec_offset_entry(offsets, i);
                let b = spec_offset_entry(offsets, i + 1);
                assert((data + tail).subrange(a, b) =~= data.subrange(a, b));
            }
        } else {
            if flag {
                assert((data + tail).subrange(
                    data.len() as int,
                    data.len() as int + tail.len() as int,
                ) =~= tail);
            }
        }
    }
}

impl VariableWidthBuilder {
    /// The bytes of the in-progress offsets buffer.
    pub closed spec fn spec_offsets(&self) -> Seq<u8> {
        self.offsets@
    }

    /// The bytes of the in-progress data buffer.
    pub closed spec fn spec_data(&self) -> Seq<u8> {
        self.data@
    }

    /// The presence flag of each appended element; all true while no bitmap
    /// has been materialized.
    pub closed spec fn spec_validity(&self) -> Seq<bool> {
        match self.nulls {
            Some(bm) => bm@,
            None => Seq::new(self.length as nat, |i: int| true),
        }
    }

    /// Whether a validity bitmap has been materialized (it is, lazily, on the
    /// first null).
    pub closed spec fn has_nulls(&self) -> bool {
        self.nulls is Some
    }

    /// The capacity of the backing offsets buffer, in bytes.
    pub closed spec fn spec_offsets_capacity(&self) -> nat {
        self.offsets.spec_capacity()
    }

    /// The capacity of the backing data buffer, in bytes.
    pub closed spec fn spec_data_capacity(&self) -> nat {
        self.data.spec_capacity()
    }

    pub closed spec fn wf(&self) -> bool {
        &&& self.offsets.wf()
        &&& self.data.wf()
        &&& spec_offsets_wf(self.offsets@, self.length as int, self.data@.len() as int)
        &&& match self.nulls {
            Some(bm) => bm.wf() && bm@.len() == self.length,
            None => true,
        }
    }

    /// The elements appended so far, `None` for nulls.
    pub closed spec fn view(&self) -> Seq<Option<Seq<u8>>> {
        spec_var_elements(self.offsets@, self.data@, self.spec_validity())
    }

    /// An empty builder with small default capacities; the offsets buffer
    /// holds the mandatory leading zero entry.
    pub fn new() -> (b: VariableWidthBuilder)
        ensures
            b.wf(),
            b@ == Seq::<Option<Seq<u8>>>::empty(),
            !b.has_nulls(),
            b.spec_data() == Seq::<u8>::empty(),
            b.spec_offsets() == spec_u32_to_le_bytes(0u32),
    {
        Self::with_capacity(0, 0)
    }

    /// An empty builder with room reserved for `item_count` elements and
    /// `total_byte_size` bytes of content.
    pub fn with_capacity(item_count: usize, total_byte_size: usize) -> (b: VariableWidthBuilder)
        requires
            (item_count + 1) * 4 <= usize::MAX,
        ensures
            b.wf(),
            b@ == Seq::<Option<Seq<u8>>>::empty(),
            !b.has_nulls(),
            b.spec_data() == Seq::<u8>::empty(),
            b.spec_offsets() == spec_u32_to_le_bytes(0u32),
            b.spec_offsets_capacity() >= (item_count + 1) * 4,
            b.spec_data_capacity() == total_byte_size,
    {
        proof {
            assert(4 <= (item_count + 1) * 4) by (nonlinear_arith);
            lemma_auto_spec_u32_to_from_le_bytes();
            assert(spec_u32_to_le_bytes(0u32).len() == 4);
        }
        let mut offsets = Buffer::allocate((item_count + 1) * 4);
        let zero = u32_to_le_bytes(0u32);
        offsets.push_bytes(zero.as_slice());
        let b = VariableWidthBuilder {
            offsets,
            data: Buffer::allocate(total_byte_size),
            nulls: None,
            length: 0,
        };
        proof {
            assert(b.offsets@.subrange(0, 4) =~= spec_u32_to_le_bytes(0u32));
            assert(b@ =~= Seq::<Option<Seq<u8>>>::empty());
        }
        b
    }

    pub fn len(&self) -> (n: usize)
        requires
            self.wf(),
        ensures
            n == self@.len(),
    {
        self.length
    }

    /// The capacity of the backing data buffer, in bytes.
    pub fn data_capacity(&self) -> (n: usize)
        ensures
            n == self.spec_data_capacity(),
    {
        self.data.capacity()
    }

    /// The capacity of the backing offsets buffer, in bytes.
    pub fn offsets_capacity(&self) -> (n: usize)
        ensures
            n == self.spec_offsets_capacity(),
    {
        self.offsets.capacity()
    }

    /// Append one present element: its bytes go to the data buffer, then the
    /// new cumulative data length is appended to the offsets buffer as the
    /// element's terminating offset.
    pub fn append_bytes(&mut self, value: &[u8])
        requires
            old(self).wf(),
            old(self).spec_data().len() + value@.len() <= i32::MAX,
            (old(self)@.len() + 2) * 4 <= usize::MAX,
        ensures
            final(self).wf(),
            final(self)@ == old(self)@.push(Some(value@)),
            final(self).spec_data() == old(self).spec_data() + value@,
            final(self).spec_offsets() == old(self).spec_offsets() + spec_u32_to_le_bytes(
                (old(self).spec_data().len() + value@.len()) as u32,
            ),
            final(self).has_nulls() == old(self).has_nulls(),
            final(self).spec_data_capacity() >= old(self).spec_data_capacity(),
            final(self).spec_offsets_capacity() >= old(self).spec_offsets_capacity(),
            old(self).spec_data().len() + value@.len() <= old(self).spec_data_capacity()
                ==> final(self).spec_data_capacity() == old(self).spec_data_capacity(),
    {
        let ghost pre = *old(self);
        proof {
            lemma_auto_spec_u32_to_from_le_bytes();
            assert((pre@.len() + 1) * 4 + 4 == (pre@.len() + 2) * 4 && (pre@.len() + 1) * 4 >= 0)
                by (nonlinear_arith);
        }
        self.data.push_bytes(value);
        let end = self.data.len();
        let entry = u32_to_le_bytes(end as u32);
        proof {
            assert(spec_u32_to_le_bytes(end as u32).len() == 4);
        }
        self.offsets.push_bytes(entry.as_slice());
        match &mut self.nulls {
            Some(bm) => {
                bm.set(self.length, true);
            },
            None => {},
        }
        self.length = self.length + 1;
        proof {
            assert(end as u32 as int == pre.spec_data().len() + value@.len());
            lemma_var_extend(
                pre.spec_offsets(),
                pre.spec_data(),
                pre.spec_validity(),
                value@,
                spec_u32_to_le_bytes(end as u32),
                true,
            );
            assert(final(self).spec_validity() =~= pre.spec_validity().push(true));
            assert(final(self).spec_data() =~= pre.spec_data() + value@);
            assert(final(self)@ =~= pre@.push(Some(value@)));
        }
    }

    /// Append one present UTF-8 element.
    pub fn append_value(&mut self, value: &str)
        requires
            old(self).wf(),
            old(self).spec_data().len() + value.spec_bytes().len() <= i32::MAX,
            (old(self)@.len() + 2) * 4 <= usize::MAX,
        ensures
            final(self).wf(),
            final(self)@ == old(self)@.push(Some(value.spec_bytes())),
            final(self).spec_data() == old(self).spec_data() + value.spec_bytes(),
            final(self).spec_offsets() == old(self).spec_offsets() + spec_u32_to_le_bytes(
                (old(self).spec_data().len() + value.spec_bytes().len()) as u32,
            ),
            final(self).has_nulls() == old(self).has_nulls(),
            final(self).spec_data_capacity() >= old(self).spec_data_capacity(),
            final(self).spec_offsets_capacity() >= old(self).spec_offsets_capacity(),
    {
        self.append_bytes(value.as_bytes());
    }

    /// Append one null: no data bytes are written, the terminating offset
    /// equals the current data length (a zero-length span), and the validity
    /// bitmap is materialized now if the builder has none yet, with every
    /// earlier element marked present.
    pub fn append_null(&mut self)
        requires
            old(self).wf(),
            (old(self)@.len() + 2) * 4 <= usize::MAX,
        ensures
            final(self).wf(),
            final(self)@ == old(self)@.push(None::<Seq<u8>>),
            final(self).spec_data() == old(self).spec_data(),
            final(self).spec_offsets() == old(self).spec_offsets() + spec_u32_to_le_bytes(
                old(self).spec_data().len() as u32,
            ),
            final(self).has_nulls(),
            final(self).spec_data_capacity() >= old(self).spec_data_capacity(),
            final(self).spec_offsets_capacity() >= old(self).spec_offsets_capacity(),
    {
        let ghost pre = *old(self);
        proof {
            lemma_auto_spec_u32_to_from_le_bytes();
            assert((pre@.len() + 1) * 4 + 4 == (pre@.len() + 2) * 4 && (pre@.len() + 1) * 4 >= 0)
                by (nonlinear_arith);
        }
        if self.nulls.is_none() {
            self.nulls = Some(ValidityBitmap::with_all_valid(self.length));
        }
        match &mut self.nulls {
            Some(bm) => {
                bm.set(self.length, false);
            },
            None => {
                proof {
                    assert(false);
                }
            },
        }
        let end = self.data.len();
        let entry = u32_to_le_bytes(end as u32);
        proof {
            assert(spec_u32_to_le_bytes(end as u32).len() == 4);
        }
        self.offsets.push_bytes(entry.as_slice());
        self.length = self.length + 1;
        proof {
            assert(end as u32 as int == pre.spec_data().len());
            lemma_var_extend(
                pre.spec_offsets(),
                pre.spec_data(),
                pre.spec_validity(),
                Seq::<u8>::empty(),
                spec_u32_to_le_bytes(end as u32),
                false,
            );
            assert(final(self).spec_validity() =~= pre.spec_validity().push(false));
            assert(final(self).spec_data() =~= pre.spec_data() + Seq::<u8>::empty());
            assert(final(self)@ =~= pre@.push(None::<Seq<u8>>));
        }
    }

    /// Append `Some` as a present element and `None` as a null.
    pub fn append_option(&mut self, value: Option<&str>)
        requires
            old(self).wf(),
            match value {
                Some(s) => old(self).spec_data().len() + s.spec_bytes().len() <= i32::MAX,
                None => true,
            },
            (old(self)@.len() + 2) * 4 <= usize::MAX,
        ensures
            final(self).wf(),
            final(self)@ == old(self)@.push(
                match value {
                    Some(s) => Some(s.spec_bytes()),
                    None => None,
                },
            ),
            final(self).spec_data() == old(self).spec_data() + (match value {
                Some(s) => s.spec_bytes(),
                None => Seq::<u8>::empty(),
            }),
            final(self).spec_offsets() == old(self).spec_offsets() + spec_u32_to_le_bytes(
                (old(self).spec_data().len() + (match value {
                    Some(s) => s.spec_bytes().len(),
                    None => 0nat,
                })) as u32,
            ),
            value is Some ==> final(self).has_nulls() == old(self).has_nulls(),
            value is None ==> final(self).has_nulls(),
            final(self).spec_data_capacity() >= old(self).spec_data_capacity(),
            final(self).spec_offsets_capacity() >= old(self).spec_offsets_capacity(),
    {
        match value {
            Some(s) => self.append_value(s),
            None => self.append_null(),
        }
    }

    /// Freeze the accumulated elements into an immutable array; the buffers
    /// move, uncopied, so the array keeps the builder's allocated capacities.
    /// The builder is left empty, with fresh buffers (and the mandatory
    /// leading zero offset), and may be reused.
    pub fn finish(&mut self) -> (a: VariableWidthArray)
        requires
            old(self).wf(),
        ensures
            a.wf(),
            a@ == old(self)@,
            a.has_nulls() == old(self).has_nulls(),
            a.spec_offsets() == old(self).spec_offsets(),
            a.spec_data() == old(self).spec_data(),
            a.spec_validity() == old(self).spec_validity(),
            a.spec_offsets_capacity() == old(self).spec_offsets_capacity(),
            a.spec_data_capacity() == old(self).spec_data_capacity(),
            final(self).wf(),
            final(self)@ == Seq::<Option<Seq<u8>>>::empty(),
            !final(self).has_nulls(),
    {
        let mut replacement = VariableWidthBuilder::with_capacity(0, 0);
        core::mem::swap(self, &mut replacement);
        let VariableWidthBuilder { offsets, data, nulls, length } = replacement;
        VariableWidthArray { offsets, data, nulls, length }
    }
}

/// With non-decreasing adjacent entries, every entry of the window is bounded
/// by the final one.
pub proof fn lemma_entries_bounded(offsets: Seq<u8>, count: int, j: int)
    requires
        0 <= j <= count,
        forall|i: int|
            0 <= i < count ==> #[trigger] spec_offset_entry(offsets, i) <= spec_offset_entry(
                offsets,
                i + 1,
            ),
    ensures
        spec_offset_entry(offsets, j) <= spec_offset_entry(offsets, count),
    decreases count - j,
{
    if j < count {
        lemma_entries_bounded(offsets, count, j + 1);
    }
}

impl VariableWidthArray {
    /// View the array as a raw descriptor: its offsets buffer, data buffer and
    /// bitmap move into an `ArrayData` of the `Utf8` type and same length,
    /// with offset zero and no children. No bytes are copied.
    pub fn into_data(self) -> (d: ArrayData)
        requires
            self.wf(),
        ensures
            d.wf(),
            d.spec_data_type() == DataType::Utf8,
            d.spec_len() == self@.len(),
            d.spec_offset() == 0,
            d.spec_buffers().len() == 2,
            d.spec_buffers()[0]@ == self.spec_offsets(),
            d.spec_buffers()[1]@ == self.spec_data(),
            d.spec_buffers()[0].spec_capacity() == self.spec_offsets_capacity(),
            d.spec_buffers()[1].spec_capacity() == self.spec_data_capacity(),
            (d.spec_bitmap() is Some) == self.has_nulls(),
            match d.spec_bitmap() {
                Some(bm) => bm.wf() && bm@ == self.spec_validity(),
                None => true,
            },
            d.spec_validity() == self.spec_validity(),
            d.spec_children() == Seq::<ArrayData>::empty(),
            d.spec_utf8_view() == self@,
            d.spec_null_count() == count_false(self.spec_validity()),
    {
        let ghost orig = self;
        let VariableWidthArray { offsets, data, nulls, length } = self;
        let mut buffers: Vec<Buffer> = Vec::new();
        buffers.push(offsets);
        buffers.push(data);
        let children: Vec<ArrayData> = Vec::new();
        proof {
            assert(buffers@[0]@.len() >= (0 + length as int + 1) * 4);
        }
        match ArrayData::try_new(DataType::Utf8, length, nulls, 0, buffers, children) {
            Ok(d) => {
                proof {
                    assert(d.spec_validity() =~= orig.spec_validity());
                    assert(d.spec_utf8_view() =~= orig@);
                }
                d
            },
            Err(_) => {
                proof {
                    assert(false);
                }
                vstd::pervasive::unreached()
            },
        }
    }

    /// Reconstruct a typed array from a raw `Utf8` descriptor with offset
    /// zero. The buffers and bitmap move back into the array, trimmed to
    /// exactly the declared length and the final offset; a descriptor produced
    /// by `into_data` comes back untouched. A descriptor whose leading offset
    /// entry is not zero is rejected with `OffsetOutOfRange`.
    pub fn try_from_data(data: ArrayData) -> (r: Result<VariableWidthArray, LayoutError>)
        requires
            data.wf(),
            data.spec_data_type() == DataType::Utf8,
            data.spec_offset() == 0,
        ensures
            match r {
                Ok(a) => {
                    &&& spec_offset_entry(data.spec_buffers()[0]@, 0) == 0
                    &&& a.wf()
                    &&& a@ == data.spec_utf8_view()
                    &&& a.has_nulls() == (data.spec_bitmap() is Some)
                    &&& a.spec_validity() == data.spec_validity()
                    &&& a@.len() == data.spec_len()
                    &&& a.spec_offsets() == data.spec_buffers()[0]@.subrange(
                        0,
                        (data.spec_len() + 1) * 4,
                    )
                    &&& a.spec_data() == data.spec_buffers()[1]@.subrange(
                        0,
                        spec_offset_entry(data.spec_buffers()[0]@, data.spec_len() as int),
                    )
                    &&& data.spec_buffers()[0]@.len() == (data.spec_len() + 1) * 4
                        ==> a.spec_offsets() == data.spec_buffers()[0]@
                    &&& spec_offset_entry(data.spec_buffers()[0]@, data.spec_len() as int)
                        == data.spec_buffers()[1]@.len() ==> a.spec_data()
                        == data.spec_buffers()[1]@
                },
                Err(e) => e == LayoutError::OffsetOutOfRange && spec_offset_entry(
                    data.spec_buffers()[0]@,
                    0,
                ) != 0,
            },
    {
        let ghost od = data;
        let (_t, length, _null_count, bitmap, _offset, bufs, _children) = data.into_parts();
        let mut bufs = bufs;
        let mut data_buf = match bufs.pop() {
            Some(b) => b,
            None => vstd::pervasive::unreached(),
        };
        let mut offsets_buf = match bufs.pop() {
            Some(b) => b,
            None => vstd::pervasive::unreached(),
        };
        let ghost ob = offsets_buf@;
        proof {
            assert(4 * 0 + 4 <= (0 + length as int + 1) * 4 <= ob.len()) by (nonlinear_arith)
                requires
                    ob.len() >= (0 + length as int + 1) * 4,
                    length >= 0,
            ;
        }
        let first = crate::data::read_offset_entry(&offsets_buf, 0);
        if first != 0 {
            return Err(LayoutError::OffsetOutOfRange);
        }
        let olen = offsets_buf.len();
        proof {
            assert((length as int + 1) * 4 == (0 + length as int + 1) * 4);
            lemma_offset_slot(length as int, length as int);
        }
        offsets_buf.truncate((length + 1) * 4);
        proof {
            assert forall|j: int| 0 <= j <= length implies #[trigger] spec_offset_entry(
                offsets_buf@,
                j,
            ) == spec_offset_entry(ob, j) by {
                lemma_offset_slot(j, length as int);
                assert(offsets_buf@.subrange(4 * j, 4 * j + 4) =~= ob.subrange(4 * j, 4 * j + 4));
            }
        }
        let final_entry = crate::data::read_offset_entry(&offsets_buf, length);
        proof {
            assert(spec_offset_entry(ob, 0 + length as int) == final_entry as int);
            assert(final_entry as int <= data_buf@.len() && final_entry as int <= i32::MAX);
        }
        data_buf.truncate(final_entry as usize);
        let nulls = match bitmap {
            Some(bm) => {
                let mut bm = bm;
                bm.truncate(length);
                Some(bm)
            },
            None => None,
        };
        let a = VariableWidthArray { offsets: offsets_buf, data: data_buf, nulls, length };
        proof {
            assert forall|j: int| 0 <= j <= length implies 0 <= #[trigger] spec_offset_entry(
                a.offsets@,
                j,
            ) <= a.data@.len() by {
                lemma_entries_bounded(a.offsets@, length as int, j);
            }
            assert(a.spec_validity() =~= od.spec_validity());
            assert forall|i: int| 0 <= i < length implies a@[i] == od.spec_utf8_view()[i] by {
                if a.spec_validity()[i] {
                    lemma_entries_bounded(a.offsets@, length as int, i + 1);
                    let lo = spec_offset_entry(a.offsets@, i);
                    let hi = spec_offset_entry(a.offsets@, i + 1);
                    assert(a.data@.subrange(lo, hi) =~= od.spec_buffers()[1]@.subrange(lo, hi));
                }
            }
            assert(a@ =~= od.spec_utf8_view());
            assert(a.spec_offsets() =~= od.spec_buffers()[0]@.subrange(
                0,
                (od.spec_len() + 1) * 4,
            ));
        }
        Ok(a)
    }

    /// Round trip: viewing the array as an `ArrayData` and reconstructing a
    /// typed array from that descriptor yields an array observably equal to
    /// the original — same logical elements, and bit-identical offsets buffer,
    /// data buffer and validity.
    #[verifier::rlimit(100)]
    #[verifier::spinoff_prover]
    pub fn round_trip_via_data(self) -> (b: VariableWidthArray)
        requires
            self.wf(),
        ensures
            b.wf(),
            b@ == self@,
            b.spec_offsets() == self.spec_offsets(),
            b.spec_data() == self.spec_data(),
            b.spec_validity() == self.spec_validity(),
            b.has_nulls() == self.has_nulls(),
    {
        let ghost orig = self;
        proof {
            orig.lemma_offsets_invariant();
        }
        let d = self.into_data();
        match VariableWidthArray::try_from_data(d) {
            Ok(b) => b,
            Err(_) => {
                proof {
                    assert(false);
                }
                vstd::pervasive::unreached()
            },
        }
    }
}

} // verus!
