use vstd::prelude::*;

verus! {

use crate::bitmap::{count_false, ValidityBitmap};
use crate::data::ArrayData;
use crate::buffer::Buffer;
use crate::datatype::{DataType, FixedElement};
use crate::error::AccessError;
use core::marker::PhantomData;

/// Multiplication facts for splitting a values buffer into element slots.
proof fn lemma_slot_bounds(i: int, l: int, w: int)
    by (nonlinear_arith)
    requires
        0 <= i < l,
        0 < w,
    ensures
        0 <= i * w,
        i * w + w <= l * w,
        (i + 1) * w == i * w + w,
{
}

/// Bounds that let one more element slot be appended within `max` bytes.
proof fn lemma_append_bounds(l: int, w: int, max: int)
    by (nonlinear_arith)
    requires
        0 <= l,
        1 <= w,
        (l + 1) * w <= max,
    ensures
        l * w + w <= max,
        l + 1 <= max,
        (l + 1) * w == l * w + w,
        0 <= l * w,
{
}

/// All-true validity has no nulls.
pub proof fn lemma_count_false_all_true(s: Seq<bool>)
    requires
        forall|i: int| 0 <= i < s.len() ==> s[i],
    ensures
        count_false(s) == 0,
    decreases s.len(),
{
    if s.len() > 0 {
        lemma_count_false_all_true(s.drop_last());
    }
}

/// An immutable array of fixed-width elements: a values buffer of
/// `length * width` bytes, an optional validity bitmap, and the element type
/// tag. An array built without nulls carries no bitmap at all.
pub struct FixedWidthArray<T: FixedElement> {
    values: Buffer,
    nulls: Option<ValidityBitmap>,
    length: usize,
    elem: PhantomData<T>,
}

/// A mutable accumulator that appends values and nulls and finalizes into a
/// [`FixedWidthArray`], growing its backing buffer geometrically. A validity
/// bitmap is materialized lazily, on the first null.
pub struct FixedWidthBuilder<T: FixedElement> {
    values: Buffer,
    nulls: Option<ValidityBitmap>,
    length: usize,
    elem: PhantomData<T>,
}

/// The logical elements encoded by a values byte sequence and a validity
/// sequence: entry `i` is `None` where validity is unset, else the decoding of
/// byte slot `i`.
pub open spec fn spec_elements<T: FixedElement>(values: Seq<u8>, validity: Seq<bool>) -> Seq<
    Option<T>,
> {
    Seq::new(
        validity.len(),
        |i: int|
            if validity[i] {
                Some(
                    T::spec_decode(
                        values.subrange(i * T::spec_width(), i * T::spec_width() + T::spec_width()),
                    ),
                )
            } else {
                None
            },
    )
}

impl<T: FixedElement> View for FixedWidthArray<T> {
    type V = Seq<Option<T>>;

    /// The logical contents: `None` at null slots, the decoded value elsewhere.
    closed spec fn view(&self) -> Seq<Option<T>> {
        spec_elements::<T>(self.values@, self.spec_validity())
    }
}

impl<T: FixedElement> FixedWidthArray<T> {
    /// The bytes of the values buffer.
    pub closed spec fn spec_values(&self) -> Seq<u8> {
        self.values@
    }

    /// The presence flag of each element; all true when no bitmap is carried.
    pub closed spec fn spec_validity(&self) -> Seq<bool> {
        match self.nulls {
            Some(bm) => bm@,
            None => Seq::new(self.length as nat, |i: int| true),
        }
    }

    /// Whether the array carries a validity bitmap.
    pub closed spec fn has_nulls(&self) -> bool {
        self.nulls is Some
    }

    /// The allocated capacity of the values buffer, in bytes.
    pub closed spec fn spec_capacity(&self) -> nat {
        self.values.spec_capacity()
    }

    pub closed spec fn wf(&self) -> bool {
        &&& self.values.wf()
        &&& self.values@.len() == self.length * T::spec_width()
        &&& match self.nulls {
            Some(bm) => bm.wf() && bm@.len() == self.length,
            None => true,
        }
    }

    /// An array without a bitmap has every element present.
    pub proof fn lemma_no_nulls_all_valid(&self)
        requires
            self.wf(),
            !self.has_nulls(),
        ensures
            forall|i: int| 0 <= i < self@.len() ==> self@[i] is Some,
    {
    }

    /// The basic shape: one logical entry per element, and the values buffer
    /// holds exactly `length * width` bytes.
    pub proof fn lemma_shape(&self)
        requires
            self.wf(),
        ensures
            self@.len() == self.spec_validity().len(),
            self.spec_values().len() == self@.len() * T::spec_width(),
            forall|i: int| 0 <= i < self@.len() ==> (self@[i] is Some <==> self.spec_validity()[i]),
    {
    }

    pub fn len(&self) -> (n: usize)
        requires
            self.wf(),
        ensures
            n == self@.len(),
    {
        self.length
    }

    pub fn is_empty(&self) -> (b: bool)
        requires
            self.wf(),
        ensures
            b == (self@.len() == 0),
    {
        self.length == 0
    }

    /// The element type tag.
    pub fn data_type(&self) -> (t: DataType)
        ensures
            t == T::spec_tag(),
    {
        T::tag()
    }

    /// The values buffer, for introspection of the physical layout.
    pub fn values(&self) -> (b: &Buffer)
        ensures
            b@ == self.spec_values(),
    {
        &self.values
    }

    /// The allocated capacity of the values buffer, in bytes.
    pub fn capacity(&self) -> (n: usize)
        ensures
            n == self.spec_capacity(),
    {
        self.values.capacity()
    }

    /// The validity bitmap, if the array carries one.
    pub fn nulls(&self) -> (r: Option<&ValidityBitmap>)
        requires
            self.wf(),
        ensures
            match r {
                Some(bm) => self.has_nulls() && bm.wf() && bm@ == self.spec_validity(),
                None => !self.has_nulls(),
            },
    {
        match &self.nulls {
            Some(bm) => Some(bm),
            None => None,
        }
    }

    /// Whether element `index` is present, or `IndexOutOfRange` past the end.
    pub fn is_valid(&self, index: usize) -> (r: Result<bool, AccessError>)
        requires
            self.wf(),
        ensures
            index < self@.len() ==> r == Ok::<bool, AccessError>(self@[index as int] is Some),
            index >= self@.len() ==> r == Err::<bool, AccessError>(AccessError::IndexOutOfRange),
    {
        if index < self.length {
            match &self.nulls {
                Some(bm) => {
                    let v = bm.get(index);
                    match v {
                        Ok(b) => Ok(b),
                        Err(e) => Err(e),
                    }
                },
                None => Ok(true),
            }
        } else {
            Err(AccessError::IndexOutOfRange)
        }
    }

    /// The element at `index` (`None` for a null slot), or `IndexOutOfRange`
    /// past the end.
    pub fn get(&self, index: usize) -> (r: Result<Option<T>, AccessError>)
        requires
            self.wf(),
        ensures
            index < self@.len() ==> r == Ok::<Option<T>, AccessError>(self@[index as int]),
            index >= self@.len() ==> r == Err::<Option<T>, AccessError>(
                AccessError::IndexOutOfRange,
            ),
    {
        let valid = self.is_valid(index)?;
        if !valid {
            return Ok(None);
        }
        let w = T::width();
        let total = self.values.len();
        proof {
            T::lemma_encode_width(vstd::pervasive::arbitrary::<T>());
            lemma_slot_bounds(index as int, self.length as int, T::spec_width() as int);
            assert(index * T::spec_width() + T::spec_width() <= total);
        }
        let start = index * w;
        let bytes = vstd::slice::slice_subrange(self.values.as_slice(), start, start + w);
        Ok(Some(T::decode(bytes)))
    }

    /// How many elements are null.
    pub fn null_count(&self) -> (n: usize)
        requires
            self.wf(),
        ensures
            n == count_false(self.spec_validity()),
    {
        match &self.nulls {
            Some(bm) => bm.count_unset(),
            None => {
                proof {
                    lemma_count_false_all_true(self.spec_validity());
                }
                0
            },
        }
    }
}

impl<T: FixedElement> FixedWidthBuilder<T> {
    /// The bytes of the in-progress values buffer.
    pub closed spec fn spec_values(&self) -> Seq<u8> {
        self.values@
    }

    /// The presence flag of each appended element; all true while no bitmap
    /// has been materialized.
    pub closed spec fn spec_validity(&self) -> Seq<bool> {
        match self.nulls {
            Some(bm) => bm@,
            None => Seq::new(self.length as nat, |i: int| true),
        }
    }

    /// Whether a validity bitmap has been materialized (it is, lazily, on the
    /// first null).
    pub closed spec fn has_nulls(&self) -> bool {
        self.nulls is Some
    }

    /// The capacity of the backing values buffer, in bytes.
    pub closed spec fn spec_capacity(&self) -> nat {
        self.values.spec_capacity()
    }

    pub closed spec fn wf(&self) -> bool {
        &&& self.values.wf()
        &&& self.values@.len() == self.length * T::spec_width()
        &&& match self.nulls {
            Some(bm) => bm.wf() && bm@.len() == self.length,
            None => true,
        }
    }

    /// The elements appended so far, `None` for nulls.
    pub closed spec fn view(&self) -> Seq<Option<T>> {
        spec_elements::<T>(self.values@, self.spec_validity())
    }

    /// An empty builder with no reserved capacity; storage grows lazily.
    pub fn new() -> (b: FixedWidthBuilder<T>)
        ensures
            b.wf(),
            b@ == Seq::<Option<T>>::empty(),
            !b.has_nulls(),
            b.spec_capacity() == 0,
    {
        let b = FixedWidthBuilder {
            values: Buffer::allocate(0),
            nulls: None,
            length: 0,
            elem: PhantomData,
        };
        proof {
            assert(b@ =~= Seq::<Option<T>>::empty());
        }
        b
    }

    /// An empty builder with room reserved for `capacity` elements.
    pub fn with_capacity(capacity: usize) -> (b: FixedWidthBuilder<T>)
        requires
            capacity * T::spec_width() <= usize::MAX,
        ensures
            b.wf(),
            b@ == Seq::<Option<T>>::empty(),
            !b.has_nulls(),
            b.spec_capacity() == capacity * T::spec_width(),
    {
        proof {
            T::lemma_encode_width(vstd::pervasive::arbitrary::<T>());
        }
        let w = T::width();
        let b = FixedWidthBuilder {
            values: Buffer::allocate(capacity * w),
            nulls: None,
            length: 0,
            elem: PhantomData,
        };
        proof {
            assert(b@ =~= Seq::<Option<T>>::empty());
        }
        b
    }

    pub fn len(&self) -> (n: usize)
        requires
            self.wf(),
        ensures
            n == self@.len(),
    {
        self.length
    }

    /// The capacity of the backing values buffer, in bytes.
    pub fn capacity(&self) -> (n: usize)
        ensures
            n == self.spec_capacity(),
    {
        self.values.capacity()
    }

    /// Append one present value. The value's bytes are written to the values
    /// buffer; a validity bitmap is touched only if one already exists.
    pub fn append_value(&mut self, value: T)
        requires
            old(self).wf(),
            (old(self)@.len() + 1) * T::spec_width() <= usize::MAX,
        ensures
            final(self).wf(),
            final(self)@ == old(self)@.push(Some(value)),
            final(self).has_nulls() == old(self).has_nulls(),
            final(self).spec_capacity() >= old(self).spec_capacity(),
            old(self)@.len() * T::spec_width() + T::spec_width() <= old(self).spec_capacity()
                ==> final(self).spec_capacity() == old(self).spec_capacity(),
    {
        let ghost pre = *old(self);
        proof {
            value.lemma_encode_width();
            lemma_append_bounds(self.length as int, T::spec_width() as int, usize::MAX as int);
        }
        let bytes = value.encode();
        self.values.push_bytes(bytes.as_slice());
        match &mut self.nulls {
            Some(bm) => {
                bm.set(self.length, true);
            },
            None => {},
        }
        self.length = self.length + 1;
        proof {
            Self::lemma_elements_extend(
                pre.spec_values(),
                pre.spec_validity(),
                value.spec_encode(),
                true,
            );
            value.lemma_decode_encode();
            assert(final(self).spec_validity() =~= pre.spec_validity().push(true));
            assert(final(self)@ =~= pre@.push(Some(value)));
        }
    }

    /// Append one null. A placeholder slot of zero bytes is written, and the
    /// validity bitmap is materialized now if the builder has none yet, with
    /// every earlier element marked present.
    pub fn append_null(&mut self)
        requires
            old(self).wf(),
            (old(self)@.len() + 1) * T::spec_width() <= usize::MAX,
        ensures
            final(self).wf(),
            final(self)@ == old(self)@.push(None::<T>),
            final(self).has_nulls(),
            final(self).spec_capacity() >= old(self).spec_capacity(),
            old(self)@.len() * T::spec_width() + T::spec_width() <= old(self).spec_capacity()
                ==> final(self).spec_capacity() == old(self).spec_capacity(),
    {
        let ghost pre = *old(self);
        proof {
            T::lemma_encode_width(vstd::pervasive::arbitrary::<T>());
            lemma_append_bounds(self.length as int, T::spec_width() as int, usize::MAX as int);
        }
        if self.nulls.is_none() {
            self.nulls = Some(ValidityBitmap::with_all_valid(self.length));
        }
        let w = T::width();
        self.values.push_zeros(w);
        match &mut self.nulls {
            Some(bm) => {
                bm.set(self.length, false);
            },
            None => {
                proof {
                    assert(false);
                }
            },
        }
        self.length = self.length + 1;
        proof {
            Self::lemma_elements_extend(
                pre.spec_values(),
                pre.spec_validity(),
                Seq::new(T::spec_width(), |i: int| 0u8),
                false,
            );
            assert(final(self).spec_validity() =~= pre.spec_validity().push(false));
            assert(final(self)@ =~= pre@.push(None::<T>));
        }
    }

    /// Appending a slot to the values bytes and a flag to the validity leaves
    /// every earlier logical element unchanged.
    proof fn lemma_elements_extend(values: Seq<u8>, validity: Seq<bool>, slot: Seq<u8>, flag: bool)
        requires
            values.len() == validity.len() * T::spec_width(),
            slot.len() == T::spec_width(),
        ensures
            spec_elements::<T>(values + slot, validity.push(flag)) =~= spec_elements::<T>(
                values,
                validity,
            ).push(
                if flag {
                    Some(T::spec_decode(slot))
                } else {
                    None
                },
            ),
    {
        let l = validity.len() as int;
        let w = T::spec_width() as int;
        assert(T::spec_width() > 0) by {
            T::lemma_encode_width(vstd::pervasive::arbitrary::<T>());
        };
        assert forall|i: int| 0 <= i <= l implies #[trigger] (values + slot).subrange(
            i * w,
            i * w + w,
        ) =~= (if i < l {
            values.subrange(i * w, i * w + w)
        } else {
            slot
        }) by {
            if i < l {
                lemma_slot_bounds(i, l, w);
            } else {
                assert(i * w == values.len()) by (nonlinear_arith)
                    requires
                        i == l,
                        values.len() == l * w,
                ;
            }
        }
    }

    /// Append `Some` as a value and `None` as a null.
    pub fn append_option(&mut self, value: Option<T>)
        requires
            old(self).wf(),
            (old(self)@.len() + 1) * T::spec_width() <= usize::MAX,
        ensures
            final(self).wf(),
            final(self)@ == old(self)@.push(value),
            value is Some ==> final(self).has_nulls() == old(self).has_nulls(),
            value is None ==> final(self).has_nulls(),
            final(self).spec_capacity() >= old(self).spec_capacity(),
    {
        match value {
            Some(v) => self.append_value(v),
            None => self.append_null(),
        }
    }

    /// Bulk-append present values, reserving buffer room once for the whole
    /// slice.
    pub fn append_slice(&mut self, values: &[T])
        requires
            old(self).wf(),
            (old(self)@.len() + values@.len()) * T::spec_width() <= usize::MAX,
        ensures
            final(self).wf(),
            final(self)@ == old(self)@ + values@.map_values(|v: T| Some(v)),
            final(self).has_nulls() == old(self).has_nulls(),
            final(self).spec_capacity() >= old(self).spec_capacity(),
    {
        let ghost pre = *old(self);
        let w = T::width();
        proof {
            T::lemma_encode_width(vstd::pervasive::arbitrary::<T>());
            let ghost l = pre@.len();
            let ghost m = values@.len();
            let ghost w0 = T::spec_width();
            assert(m * w0 <= usize::MAX && l + m <= usize::MAX && l * w0 + m * w0 <= usize::MAX)
                by (nonlinear_arith)
                requires
                    (l + m) * w0 <= usize::MAX,
                    l >= 0,
                    m >= 0,
                    w0 >= 1,
            ;
        }
        self.values.reserve(values.len() * w);
        let mut i: usize = 0;
        proof {
            assert(pre@ + values@.map_values(|v: T| Some(v)).take(0) =~= pre@);
        }
        while i < values.len()
            invariant
                i <= values@.len(),
                self.wf(),
                self@ == pre@ + values@.map_values(|v: T| Some(v)).take(i as int),
                self@.len() == pre@.len() + i,
                self.has_nulls() == pre.has_nulls(),
                self.spec_capacity() >= pre.spec_capacity(),
                (pre@.len() + values@.len()) * T::spec_width() <= usize::MAX,
                T::spec_width() >= 1,
            decreases values@.len() - i,
        {
            proof {
                assert((self@.len() + 1) * T::spec_width() <= (pre@.len() + values@.len())
                    * T::spec_width()) by (nonlinear_arith)
                    requires
                        self@.len() + 1 <= pre@.len() + values@.len(),
                        T::spec_width() >= 1,
                ;
            }
            self.append_value(*vstd::slice::slice_index_get(values, i));
            i = i + 1;
            proof {
                assert(values@.map_values(|v: T| Some(v)).take(i as int)
                    =~= values@.map_values(|v: T| Some(v)).take(i - 1).push(Some(values@[i - 1])));
            }
        }
        proof {
            assert(values@.map_values(|v: T| Some(v)).take(values@.len() as int)
                =~= values@.map_values(|v: T| Some(v)));
        }
    }

    /// Freeze the accumulated elements into an immutable array; the buffers
    /// move, uncopied, so the array keeps the builder's allocated capacity.
    /// The builder is left empty, with fresh buffers, and may be reused.
    pub fn finish(&mut self) -> (a: FixedWidthArray<T>)
        requires
            old(self).wf(),
        ensures
            a.wf(),
            a@ == old(self)@,
            a.has_nulls() == old(self).has_nulls(),
            a.spec_values() == old(self).spec_values(),
            a.spec_validity() == old(self).spec_validity(),
            a.spec_capacity() == old(self).spec_capacity(),
            final(self).wf(),
            final(self)@ == Seq::<Option<T>>::empty(),
            !final(self).has_nulls(),
    {
        let mut values = Buffer::allocate(0);
        core::mem::swap(&mut values, &mut self.values);
        let mut nulls: Option<ValidityBitmap> = None;
        core::mem::swap(&mut nulls, &mut self.nulls);
        let length = self.length;
        self.length = 0;
        proof {
            assert(final(self)@ =~= Seq::<Option<T>>::empty());
        }
        FixedWidthArray { values, nulls, length, elem: PhantomData }
    }
}

impl<T: FixedElement> FixedWidthArray<T> {
    /// View the array as a raw descriptor: its values buffer and bitmap move
    /// into an `ArrayData` of the same element type and length, with offset
    /// zero and no children. No bytes are copied.
    pub fn into_data(self) -> (d: ArrayData)
        requires
            self.wf(),
        ensures
            d.wf(),
            d.spec_data_type() == T::spec_tag(),
            d.spec_len() == self@.len(),
            d.spec_offset() == 0,
            d.spec_buffers().len() == 1,
            d.spec_buffers()[0]@ == self.spec_values(),
            d.spec_buffers()[0].spec_capacity() == self.spec_capacity(),
            (d.spec_bitmap() is Some) == self.has_nulls(),
            match d.spec_bitmap() {
                Some(bm) => bm.wf() && bm@ == self.spec_validity(),
                None => true,
            },
            d.spec_validity() == self.spec_validity(),
            d.spec_children() == Seq::<ArrayData>::empty(),
            d.spec_fixed_view::<T>() == self@,
            d.spec_null_count() == count_false(self.spec_validity()),
    {
        let ghost orig = self;
        proof {
            T::lemma_encode_width(vstd::pervasive::arbitrary::<T>());
        }
        let FixedWidthArray { values, nulls, length, elem: _ } = self;
        let mut buffers: Vec<Buffer> = Vec::new();
        buffers.push(values);
        let children: Vec<ArrayData> = Vec::new();
        proof {
            assert(buffers@[0]@.len() >= (0 + length as int) * (T::spec_width() as int));
        }
        match ArrayData::try_new(T::tag(), length, nulls, 0, buffers, children) {
            Ok(d) => {
                proof {
                    assert(d.spec_validity() =~= orig.spec_validity());
                    assert(d.spec_buffers()[0]@.subrange(
                        0 * (T::spec_width() as int),
                        (0 + length as int) * (T::spec_width() as int),
                    ) =~= orig.spec_values());
                    assert(d.spec_fixed_view::<T>() =~= orig@);
                }
                d
            },
            Err(_) => {
                proof {
                    assert(false);
                }
                vstd::pervasive::unreached()
            },
        }
    }

    /// Reconstruct a typed array from a raw descriptor of the same element
    /// type with offset zero. The values buffer and bitmap move back into the
    /// array, trimmed to exactly the declared length; a descriptor produced by
    /// `into_data` comes back untouched.
    pub fn from_data(data: ArrayData) -> (a: FixedWidthArray<T>)
        requires
            data.wf(),
            data.spec_data_type() == T::spec_tag(),
            data.spec_offset() == 0,
        ensures
            a.wf(),
            a@ == data.spec_fixed_view::<T>(),
            a.has_nulls() == (data.spec_bitmap() is Some),
            a.spec_validity() == data.spec_validity(),
            a@.len() == data.spec_len(),
            a.spec_values() == data.spec_buffers()[0]@.subrange(
                0,
                data.spec_len() * (T::spec_width() as int),
            ),
            a.spec_capacity() == data.spec_buffers()[0].spec_capacity(),
    {
        proof {
            T::lemma_encode_width(vstd::pervasive::arbitrary::<T>());
        }
        let (_t, length, _null_count, bitmap, _offset, bufs, _children) = data.into_parts();
        let mut bufs = bufs;
        let mut values = match bufs.pop() {
            Some(b) => b,
            None => vstd::pervasive::unreached(),
        };
        let w = T::width();
        let vlen = values.len();
        proof {
            assert((0 + data.spec_len() as int) * (T::spec_width() as int) == data.spec_len()
                * (T::spec_width() as int));
            assert(length * T::spec_width() <= vlen);
        }
        values.truncate(length * w);
        let nulls = match bitmap {
            Some(bm) => {
                let mut bm = bm;
                bm.truncate(length);
                Some(bm)
            },
            None => None,
        };
        let a = FixedWidthArray::<T> { values, nulls, length, elem: PhantomData };
        proof {
            assert(a.spec_validity() =~= data.spec_validity());
            assert(a.spec_values() =~= data.spec_buffers()[0]@.subrange(
                0,
                data.spec_len() * (T::spec_width() as int),
            ));
            assert(a.spec_values() =~= data.spec_buffers()[0]@.subrange(
                0 * (T::spec_width() as int),
                (0 + data.spec_len() as int) * (T::spec_width() as int),
            ));
            assert(a@ =~= data.spec_fixed_view::<T>());
        }
        a
    }

    /// Round trip: viewing the array as an `ArrayData` and reconstructing a
    /// typed array from that descriptor yields an array observably equal to
    /// the original — same logical elements, and bit-identical values buffer
    /// and validity.
    pub fn round_trip_via_data(self) -> (b: FixedWidthArray<T>)
        requires
            self.wf(),
        ensures
            b.wf(),
            b@ == self@,
            b.spec_values() == self.spec_values(),
            b.spec_validity() == self.spec_validity(),
            b.has_nulls() == self.has_nulls(),
    {
        let ghost orig = self;
        proof {
            orig.lemma_shape();
            T::lemma_encode_width(vstd::pervasive::arbitrary::<T>());
        }
        let d = self.into_data();
        let b = FixedWidthArray::<T>::from_data(d);
        proof {
            assert(b.spec_values() =~= orig.spec_values());
        }
        b
    }
}

impl<T: FixedElement> FixedWidthArray<T> {
    /// An array from values already in memory: every element present, no
    /// validity bitmap.
    pub fn from_values(values: &[T]) -> (a: FixedWidthArray<T>)
        requires
            values@.len() * T::spec_width() <= usize::MAX,
        ensures
            a.wf(),
            a@ == values@.map_values(|v: T| Some(v)),
            !a.has_nulls(),
    {
        proof {
            T::lemma_encode_width(vstd::pervasive::arbitrary::<T>());
        }
        let mut builder = FixedWidthBuilder::<T>::with_capacity(values.len());
        builder.append_slice(values);
        let a = builder.finish();
        proof {
            assert(a@ =~= values@.map_values(|v: T| Some(v)));
        }
        a
    }

    /// An array from optional values already in memory: `None` becomes a null,
    /// and the array carries a validity bitmap exactly when some value was
    /// `None`.
    pub fn from_options(values: &[Option<T>]) -> (a: FixedWidthArray<T>)
        requires
            values@.len() * T::spec_width() <= usize::MAX,
        ensures
            a.wf(),
            a@ == values@,
            a.has_nulls() == (exists|i: int| 0 <= i < values@.len() && values@[i] is None),
    {
        proof {
            T::lemma_encode_width(vstd::pervasive::arbitrary::<T>());
        }
        let mut builder = FixedWidthBuilder::<T>::new();
        let mut i: usize = 0;
        while i < values.len()
            invariant
                i <= values@.len(),
                builder.wf(),
                builder@ == values@.take(i as int),
                builder.has_nulls() == (exists|j: int| 0 <= j < i && values@[j] is None),
                values@.len() * T::spec_width() <= usize::MAX,
                T::spec_width() >= 1,
            decreases values@.len() - i,
        {
            proof {
                assert((builder@.len() + 1) * T::spec_width() <= values@.len()
                    * T::spec_width()) by (nonlinear_arith)
                    requires
                        builder@.len() + 1 <= values@.len(),
                        T::spec_width() >= 1,
                ;
            }
            let v = *vstd::slice::slice_index_get(values, i);
            builder.append_option(v);
            i = i + 1;
            proof {
                assert(values@.take(i as int) =~= values@.take(i - 1).push(values@[i - 1]));
                if v is None {
                    assert(values@[i - 1] is None);
                }
            }
        }
        proof {
            assert(values@.take(values@.len() as int) =~= values@);
        }
        let a = builder.finish();
        a
    }
}

} // verus!
