use vstd::prelude::*;

verus! {

use crate::bitmap::{count_false, ValidityBitmap};
use crate::buffer::Buffer;
use crate::datatype::DataType;
use crate::error::LayoutError;
use crate::fixed::lemma_count_false_all_true;
use crate::variable::spec_offset_entry;
use vstd::bytes::u32_from_le_bytes;

/// How many buffers an array of type `t` carries: an offsets buffer and a data
/// buffer for variable-width content, one values buffer otherwise.
pub open spec fn spec_required_buffer_count(t: DataType) -> int {
    if t == DataType::Utf8 {
        2
    } else {
        1
    }
}

/// The presence flags of the logical window: `length` entries starting at
/// `offset` of the bitmap, or all true when there is none.
pub open spec fn spec_window_validity(
    bitmap: Option<ValidityBitmap>,
    offset: int,
    length: nat,
) -> Seq<bool> {
    match bitmap {
        Some(bm) => bm@.subrange(offset, offset + length),
        None => Seq::new(length, |i: int| true),
    }
}

pub open spec fn spec_count_ok(t: DataType, buffers: Seq<Buffer>) -> bool {
    buffers.len() == spec_required_buffer_count(t)
}

/// The supplied buffers and bitmap are large enough for `length` elements
/// starting at `offset`.
pub open spec fn spec_sizes_ok(
    t: DataType,
    length: int,
    bitmap: Option<ValidityBitmap>,
    offset: int,
    buffers: Seq<Buffer>,
) -> bool {
    &&& (match t.spec_fixed_width() {
        Some(w) => buffers[0]@.len() >= (offset + length) * w,
        None => buffers[0]@.len() >= (offset + length + 1) * 4,
    })
    &&& (match bitmap {
        Some(bm) => bm@.len() >= offset + length,
        None => true,
    })
}

/// The offset entries of the logical window never decrease.
pub open spec fn spec_monotone_entries(offsets: Seq<u8>, offset: int, length: int) -> bool {
    forall|i: int|
        offset <= i < offset + length ==> #[trigger] spec_offset_entry(offsets, i)
            <= spec_offset_entry(offsets, i + 1)
}

/// The final offset of the logical window stays within `data_len` bytes and
/// within the signed 32-bit offset range.
pub open spec fn spec_final_in_range(offsets: Seq<u8>, offset: int, length: int, data_len: int) -> bool {
    &&& spec_offset_entry(offsets, offset + length) <= data_len
    &&& spec_offset_entry(offsets, offset + length) <= i32::MAX
}

/// For variable-width content, the offsets of the logical window never
/// decrease.
pub open spec fn spec_monotone_ok(
    t: DataType,
    length: int,
    offset: int,
    buffers: Seq<Buffer>,
) -> bool {
    t == DataType::Utf8 ==> spec_monotone_entries(buffers[0]@, offset, length)
}

/// For variable-width content, the final offset of the logical window stays
/// within the data buffer and within the signed 32-bit offset range.
pub open spec fn spec_range_ok(
    t: DataType,
    length: int,
    offset: int,
    buffers: Seq<Buffer>,
) -> bool {
    t == DataType::Utf8 ==> spec_final_in_range(
        buffers[0]@,
        offset,
        length,
        buffers[1]@.len() as int,
    )
}

/// The layout check applied when assembling an array descriptor from raw
/// buffers, with the reason the layout is rejected, if any, in the order the
/// checks run.
pub open spec fn spec_layout_error(
    t: DataType,
    length: int,
    bitmap: Option<ValidityBitmap>,
    offset: int,
    buffers: Seq<Buffer>,
) -> Option<LayoutError> {
    if !spec_count_ok(t, buffers) {
        Some(LayoutError::WrongBufferCount)
    } else if !spec_sizes_ok(t, length, bitmap, offset, buffers) {
        Some(LayoutError::BufferTooSmall)
    } else if !spec_monotone_ok(t, length, offset, buffers) {
        Some(LayoutError::NonMonotonicOffsets)
    } else if !spec_range_ok(t, length, offset, buffers) {
        Some(LayoutError::OffsetOutOfRange)
    } else {
        None
    }
}

/// A type-erased physical descriptor of an array: element type, logical
/// length, null count and bitmap, a logical offset into the buffers, the
/// ordered child buffers, and ordered child descriptors for nested layouts.
/// Constructing one from raw buffers validates the layout; it is the one
/// place those invariants are enforced when a builder is bypassed.
pub struct ArrayData {
    data_type: DataType,
    length: usize,
    null_count: usize,
    null_bitmap: Option<ValidityBitmap>,
    offset: usize,
    buffers: Vec<Buffer>,
    children: Vec<ArrayData>,
}

/// The 32-bit little-endian offset entry at `slot` of an offsets buffer.
pub fn read_offset_entry(buf: &Buffer, slot: usize) -> (v: u32)
    requires
        4 * slot + 4 <= buf@.len(),
    ensures
        v as int == spec_offset_entry(buf@, slot as int),
{
    let blen = buf.len();
    proof {
        assert(4 * slot + 4 <= blen);
    }
    let s = vstd::slice::slice_subrange(buf.as_slice(), 4 * slot, 4 * slot + 4);
    u32_from_le_bytes(s)
}

impl ArrayData {
    pub closed spec fn spec_data_type(&self) -> DataType {
        self.data_type
    }

    pub closed spec fn spec_len(&self) -> usize {
        self.length
    }

    pub closed spec fn spec_null_count(&self) -> usize {
        self.null_count
    }

    pub closed spec fn spec_bitmap(&self) -> Option<ValidityBitmap> {
        self.null_bitmap
    }

    pub closed spec fn spec_offset(&self) -> usize {
        self.offset
    }

    pub closed spec fn spec_buffers(&self) -> Seq<Buffer> {
        self.buffers@
    }

    pub closed spec fn spec_children(&self) -> Seq<ArrayData> {
        self.children@
    }

    /// The presence flags of the logical window.
    pub open spec fn spec_validity(&self) -> Seq<bool> {
        spec_window_validity(self.spec_bitmap(), self.spec_offset() as int, self.spec_len() as nat)
    }

    /// The logical fixed-width contents of the window, for a fixed-width tag:
    /// `None` at null slots, the decoded element bytes elsewhere.
    pub open spec fn spec_fixed_view<T: crate::datatype::FixedElement>(&self) -> Seq<Option<T>> {
        crate::fixed::spec_elements::<T>(
            self.spec_buffers()[0]@.subrange(
                (self.spec_offset() as int) * (T::spec_width() as int),
                (self.spec_offset() + self.spec_len()) * (T::spec_width() as int),
            ),
            self.spec_validity(),
        )
    }

    /// The logical variable-width contents of the window, for the `Utf8` tag:
    /// `None` at null slots, the bytes between consecutive offsets elsewhere.
    pub open spec fn spec_utf8_view(&self) -> Seq<Option<Seq<u8>>> {
        Seq::new(
            self.spec_len() as nat,
            |i: int|
                if self.spec_validity()[i] {
                    Some(
                        self.spec_buffers()[1]@.subrange(
                            spec_offset_entry(self.spec_buffers()[0]@, self.spec_offset() + i),
                            spec_offset_entry(self.spec_buffers()[0]@, self.spec_offset() + i + 1),
                        ),
                    )
                } else {
                    None
                },
        )
    }

    pub open spec fn wf(&self) -> bool {
        &&& spec_layout_error(
            self.spec_data_type(),
            self.spec_len() as int,
            self.spec_bitmap(),
            self.spec_offset() as int,
            self.spec_buffers(),
        ) is None
        &&& forall|i: int|
            0 <= i < self.spec_buffers().len() ==> (#[trigger] self.spec_buffers()[i]).wf()
        &&& match self.spec_bitmap() {
            Some(bm) => bm.wf(),
            None => true,
        }
        &&& self.spec_null_count() == count_false(self.spec_validity())
        &&& self.spec_offset() + self.spec_len() <= usize::MAX
    }

    /// Validate raw buffers against what `data_type` and `length` require and
    /// assemble a descriptor. This fails with the first violated check:
    /// the buffer count, the buffer and bitmap sizes, the monotonicity of the
    /// offsets, and the range of the final offset.
    pub fn try_new(
        data_type: DataType,
        length: usize,
        null_bitmap: Option<ValidityBitmap>,
        offset: usize,
        buffers: Vec<Buffer>,
        children: Vec<ArrayData>,
    ) -> (r: Result<ArrayData, LayoutError>)
        requires
            forall|i: int| 0 <= i < buffers@.len() ==> (#[trigger] buffers@[i]).wf(),
            match null_bitmap {
                Some(bm) => bm.wf(),
                None => true,
            },
        ensures
            match r {
                Ok(d) => {
                    &&& spec_layout_error(
                        data_type,
                        length as int,
                        null_bitmap,
                        offset as int,
                        buffers@,
                    ) is None
                    &&& d.wf()
                    &&& d.spec_data_type() == data_type
                    &&& d.spec_len() == length
                    &&& d.spec_bitmap() == null_bitmap
                    &&& d.spec_offset() == offset
                    &&& d.spec_buffers() == buffers@
                    &&& d.spec_children() == children@
                },
                Err(e) => spec_layout_error(
                    data_type,
                    length as int,
                    null_bitmap,
                    offset as int,
                    buffers@,
                ) == Some(e),
            },
    {
        let required: usize = match data_type {
            DataType::Utf8 => 2,
            _ => 1,
        };
        if buffers.len() != required {
            return Err(LayoutError::WrongBufferCount);
        }
        if !check_sizes(data_type, length, &null_bitmap, offset, &buffers) {
            return Err(LayoutError::BufferTooSmall);
        }
        let is_variable = match data_type {
            DataType::Utf8 => true,
            _ => false,
        };
        if is_variable {
            match check_offsets(&buffers, length, offset) {
                Ok(_) => {},
                Err(e) => {
                    return Err(e);
                },
            }
        }
        let null_count: usize = match &null_bitmap {
            Some(bm) => bm.count_unset_range(offset, offset + length),
            None => {
                proof {
                    lemma_count_false_all_true(Seq::new(length as nat, |i: int| true));
                }
                0
            },
        };
        let d = ArrayData { data_type, length, null_count, null_bitmap, offset, buffers, children };
        proof {
            match d.spec_bitmap() {
                Some(bm) => {
                    assert(d.spec_validity() == bm@.subrange(
                        offset as int,
                        offset as int + length as int,
                    ));
                },
                None => {},
            }
        }
        Ok(d)
    }


    /// Slice the logical window: the same shared buffers, bitmap and children,
    /// with the offset advanced by `offset` and the length reduced to
    /// `length`. Only metadata changes and no byte is copied or mutated; the
    /// sliced contents are exactly the corresponding subrange of the original
    /// logical contents.
    pub fn slice(self, offset: usize, length: usize) -> (d: ArrayData)
        requires
            self.wf(),
            offset + length <= self.spec_len(),
        ensures
            d.wf(),
            d.spec_data_type() == self.spec_data_type(),
            d.spec_offset() == self.spec_offset() + offset,
            d.spec_len() == length,
            d.spec_buffers() == self.spec_buffers(),
            d.spec_bitmap() == self.spec_bitmap(),
            d.spec_children() == self.spec_children(),
            d.spec_validity() == self.spec_validity().subrange(
                offset as int,
                offset + length,
            ),
            self.spec_data_type() == DataType::Utf8 ==> d.spec_utf8_view()
                == self.spec_utf8_view().subrange(offset as int, offset + length),
    {
        let ghost os = self;
        let (data_type, _old_length, _old_null_count, null_bitmap, old_offset, buffers, children) =
            self.into_parts();
        let new_offset = old_offset + offset;
        proof {
            let t = os.spec_data_type();
            let no = new_offset as int;
            let oo = os.spec_offset() as int;
            let ol = os.spec_len() as int;
            match t.spec_fixed_width() {
                Some(w) => {
                    assert((no + length) * w <= (oo + ol) * w) by (nonlinear_arith)
                        requires
                            no + length <= oo + ol,
                            w >= 1,
                    ;
                },
                None => {
                    assert((no + length + 1) * 4 <= (oo + ol + 1) * 4) by (nonlinear_arith)
                        requires
                            no + length <= oo + ol,
                    ;
                    lemma_window_entry_bounded(
                        buffers@[0]@,
                        oo,
                        oo + ol,
                        no + length,
                    );
                },
            }
        }
        let null_count: usize = match &null_bitmap {
            Some(bm) => bm.count_unset_range(new_offset, new_offset + length),
            None => {
                proof {
                    lemma_count_false_all_true(Seq::new(length as nat, |i: int| true));
                }
                0
            },
        };
        let d = ArrayData {
            data_type,
            length,
            null_count,
            null_bitmap,
            offset: new_offset,
            buffers,
            children,
        };
        proof {
            assert(d.spec_validity() =~= os.spec_validity().subrange(
                offset as int,
                offset + length,
            ));
            if os.spec_data_type() == DataType::Utf8 {
                assert(d.spec_utf8_view() =~= os.spec_utf8_view().subrange(
                    offset as int,
                    offset + length,
                ));
            }
        }
        d
    }

    pub fn len(&self) -> (n: usize)
        ensures
            n == self.spec_len(),
    {
        self.length
    }

    pub fn data_type(&self) -> (t: DataType)
        ensures
            t == self.spec_data_type(),
    {
        self.data_type
    }

    /// How many elements of the logical window are null.
    pub fn null_count(&self) -> (n: usize)
        ensures
            n == self.spec_null_count(),
    {
        self.null_count
    }

    /// The logical offset into the physical buffers.
    pub fn offset(&self) -> (n: usize)
        ensures
            n == self.spec_offset(),
    {
        self.offset
    }

    /// The ordered child buffers.
    pub fn buffers(&self) -> (b: &Vec<Buffer>)
        ensures
            b@ == self.spec_buffers(),
    {
        &self.buffers
    }

    /// The ordered child descriptors, for nested layouts.
    pub fn children(&self) -> (c: &Vec<ArrayData>)
        ensures
            c@ == self.spec_children(),
    {
        &self.children
    }

    /// The validity bitmap, if one is carried.
    pub fn null_bitmap(&self) -> (r: Option<&ValidityBitmap>)
        ensures
            match r {
                Some(bm) => self.spec_bitmap() == Some(*bm),
                None => self.spec_bitmap() is None,
            },
    {
        match &self.null_bitmap {
            Some(bm) => Some(bm),
            None => None,
        }
    }

    /// The raw buffer behind the validity bitmap, if one is carried.
    pub fn null_buffer(&self) -> (r: Option<&Buffer>)
        ensures
            match r {
                Some(b) => self.spec_bitmap() matches Some(bm) && b@ == bm.spec_bytes(),
                None => self.spec_bitmap() is None,
            },
    {
        match &self.null_bitmap {
            Some(bm) => Some(bm.as_buffer()),
            None => None,
        }
    }

    /// Take the descriptor apart into its fields, in declaration order.
    pub fn into_parts(self) -> (r: (
        DataType,
        usize,
        usize,
        Option<ValidityBitmap>,
        usize,
        Vec<Buffer>,
        Vec<ArrayData>,
    ))
        ensures
            r.0 == self.spec_data_type(),
            r.1 == self.spec_len(),
            r.2 == self.spec_null_count(),
            r.3 == self.spec_bitmap(),
            r.4 == self.spec_offset(),
            r.5@ == self.spec_buffers(),
            r.6@ == self.spec_children(),
    {
        let ArrayData { data_type, length, null_count, null_bitmap, offset, buffers, children } =
            self;
        (data_type, length, null_count, null_bitmap, offset, buffers, children)
    }
}


/// Whether the first buffer and the bitmap are large enough for `length`
/// elements of type `data_type` starting at `offset`.
fn check_sizes(
    data_type: DataType,
    length: usize,
    null_bitmap: &Option<ValidityBitmap>,
    offset: usize,
    buffers: &Vec<Buffer>,
) -> (ok: bool)
    requires
        buffers@.len() >= 1,
    ensures
        ok == spec_sizes_ok(data_type, length as int, *null_bitmap, offset as int, buffers@),
        ok ==> offset + length <= usize::MAX,
{
    let b0_len = buffers[0].len();
    let size_ok: bool = match data_type.fixed_width() {
        Some(w) => {
            proof {
                assert(w >= 1);
            }
            match offset.checked_add(length) {
                Some(n) => {
                    match n.checked_mul(w) {
                        Some(min) => b0_len >= min,
                        None => {
                            proof {
                                lemma_needed_over_max(n as int, w as int, b0_len as int);
                            }
                            false
                        },
                    }
                },
                None => {
                    proof {
                        lemma_needed_over_max(
                            offset as int + length as int,
                            w as int,
                            b0_len as int,
                        );
                    }
                    false
                },
            }
        },
        None => {
            match offset.checked_add(length) {
                Some(n0) => {
                    match n0.checked_add(1) {
                        Some(n) => {
                            match n.checked_mul(4) {
                                Some(min) => b0_len >= min,
                                None => {
                                    proof {
                                        lemma_needed_over_max(n as int, 4, b0_len as int);
                                    }
                                    false
                                },
                            }
                        },
                        None => {
                            proof {
                                lemma_needed_over_max(
                                    offset as int + length as int + 1,
                                    4,
                                    b0_len as int,
                                );
                            }
                            false
                        },
                    }
                },
                None => {
                    proof {
                        lemma_needed_over_max(
                            offset as int + length as int + 1,
                            4,
                            b0_len as int,
                        );
                    }
                    false
                },
            }
        },
    };
    let bitmap_ok: bool = match null_bitmap {
        Some(bm) => {
            let bl = bm.bit_len();
            match offset.checked_add(length) {
                Some(n) => bl >= n,
                None => false,
            }
        },
        None => true,
    };
    size_ok && bitmap_ok
}

/// Whether the offset entries of the logical window are non-decreasing and the
/// final one stays within the data buffer and the signed 32-bit range; the
/// sizes must already have passed.
fn check_offsets(buffers: &Vec<Buffer>, length: usize, offset: usize) -> (r: Result<
    (),
    LayoutError,
>)
    requires
        buffers@.len() == 2,
        offset + length <= usize::MAX,
        (offset + length + 1) * 4 <= buffers@[0]@.len(),
    ensures
        match r {
            Ok(_) => spec_monotone_entries(buffers@[0]@, offset as int, length as int)
                && spec_final_in_range(
                buffers@[0]@,
                offset as int,
                length as int,
                buffers@[1]@.len() as int,
            ),
            Err(e) => {
                ||| (e == LayoutError::NonMonotonicOffsets && !spec_monotone_entries(
                    buffers@[0]@,
                    offset as int,
                    length as int,
                ))
                ||| (e == LayoutError::OffsetOutOfRange && spec_monotone_entries(
                    buffers@[0]@,
                    offset as int,
                    length as int,
                ) && !spec_final_in_range(
                    buffers@[0]@,
                    offset as int,
                    length as int,
                    buffers@[1]@.len() as int,
                ))
            },
        },
{
    let ghost ob = buffers@[0]@;
    proof {
        lemma_entry_slot_in_bounds(offset as int, length as int, ob.len() as int);
    }
    let mut i: usize = 0;
    while i < length
        invariant
            i <= length,
            buffers@.len() == 2,
            ob == buffers@[0]@,
            offset + length <= usize::MAX,
            (offset + length + 1) * 4 <= ob.len(),
            forall|j: int|
                offset <= j < offset + i ==> #[trigger] spec_offset_entry(ob, j)
                    <= spec_offset_entry(ob, j + 1),
        decreases length - i,
    {
        proof {
            lemma_entry_slot_in_bounds(offset as int, length as int, ob.len() as int);
        }
        let e1 = read_offset_entry(&buffers[0], offset + i);
        let e2 = read_offset_entry(&buffers[0], offset + i + 1);
        if e1 > e2 {
            proof {
                let j = offset as int + i as int;
                assert(spec_offset_entry(ob, j) > spec_offset_entry(ob, j + 1));
            }
            return Err(LayoutError::NonMonotonicOffsets);
        }
        i = i + 1;
    }
    proof {
        lemma_entry_slot_in_bounds(offset as int, length as int, ob.len() as int);
    }
    let final_entry = read_offset_entry(&buffers[0], offset + length);
    if (final_entry as usize) > buffers[1].len() || final_entry > (i32::MAX as u32) {
        return Err(LayoutError::OffsetOutOfRange);
    }
    Ok(())
}


/// With non-decreasing adjacent entries over a window, every entry of the
/// window is bounded by the final one.
proof fn lemma_window_entry_bounded(offsets: Seq<u8>, lo: int, hi: int, j: int)
    requires
        lo <= j <= hi,
        forall|i: int|
            lo <= i < hi ==> #[trigger] spec_offset_entry(offsets, i) <= spec_offset_entry(
                offsets,
                i + 1,
            ),
    ensures
        spec_offset_entry(offsets, j) <= spec_offset_entry(offsets, hi),
    decreases hi - j,
{
    if j < hi {
        lemma_window_entry_bounded(offsets, lo, hi, j + 1);
    }
}


/// Slicing law for fixed-width contents: a descriptor that shares a sliced
/// window over the same buffers sees exactly the corresponding subrange of
/// the original logical contents.
pub proof fn lemma_slice_fixed_view<T: crate::datatype::FixedElement>(
    orig: ArrayData,
    d: ArrayData,
    offset: int,
    length: int,
)
    requires
        orig.wf(),
        orig.spec_data_type() == T::spec_tag(),
        0 <= offset,
        0 <= length,
        offset + length <= orig.spec_len(),
        d.spec_buffers() == orig.spec_buffers(),
        d.spec_offset() == orig.spec_offset() + offset,
        d.spec_len() == length,
        d.spec_validity() == orig.spec_validity().subrange(offset, offset + length),
    ensures
        d.spec_fixed_view::<T>() == orig.spec_fixed_view::<T>().subrange(offset, offset + length),
{
    let w = T::spec_width() as int;
    assert(w >= 1 && T::spec_tag().spec_fixed_width() == Some(T::spec_width())) by {
        T::lemma_encode_width(vstd::pervasive::arbitrary::<T>());
    };
    let buf = orig.spec_buffers()[0]@;
    let oo = orig.spec_offset() as int;
    let ol = orig.spec_len() as int;
    assert(buf.len() >= (oo + ol) * w);
    assert((oo + offset + length) * w <= (oo + ol) * w && (oo + offset) * w >= 0 && (oo + offset)
        * w <= (oo + offset + length) * w) by (nonlinear_arith)
        requires
            0 <= oo,
            0 <= offset,
            0 <= length,
            offset + length <= ol,
            w >= 1,
    ;
    let dwin = buf.subrange((oo + offset) * w, (oo + offset + length) * w);
    let owin = buf.subrange(oo * w, (oo + orig.spec_len()) * w);
    assert forall|i: int| 0 <= i < length implies d.spec_fixed_view::<T>()[i]
        == orig.spec_fixed_view::<T>().subrange(offset, offset + length)[i] by {
        if d.spec_validity()[i] {
            assert(dwin.subrange(i * w, i * w + w) =~= owin.subrange(
                (offset + i) * w,
                (offset + i) * w + w,
            )) by {
                assert((oo + offset) * w + i * w == oo * w + (offset + i) * w
                    && (oo + offset) * w + (i * w + w) == oo * w + ((offset + i) * w + w)
                    && 0 <= i * w && i * w + w <= length * w
                    && 0 <= (offset + i) * w && (offset + i) * w + w <= ol * w
                    && (oo + offset + length) * w - (oo + offset) * w == length * w
                    && (oo + ol) * w - oo * w == ol * w) by (nonlinear_arith)
                    requires
                        0 <= i < length,
                        0 <= offset,
                        0 <= oo,
                        offset + length <= ol,
                        w >= 1,
                ;
            };
        }
    }
    assert(d.spec_fixed_view::<T>() =~= orig.spec_fixed_view::<T>().subrange(
        offset,
        offset + length,
    ));
}

/// When the needed byte count exceeds `usize::MAX`, no buffer is big enough.
proof fn lemma_needed_over_max(n: int, w: int, have: int)
    by (nonlinear_arith)
    requires
        1 <= w,
        have <= usize::MAX,
        n > usize::MAX || n * w > usize::MAX,
        n >= 0,
    ensures
        have < n * w,
{
}

/// Every offset slot of the logical window lies within an offsets buffer that
/// passed the size check.
proof fn lemma_entry_slot_in_bounds(offset: int, length: int, b0_len: int)
    requires
        0 <= offset,
        0 <= length,
        (offset + length + 1) * 4 <= b0_len,
    ensures
        forall|j: int| 0 <= j <= offset + length ==> #[trigger] (4 * j) + 4 <= b0_len,
{
    assert forall|j: int| 0 <= j <= offset + length implies #[trigger] (4 * j) + 4 <= b0_len by {
        assert(4 * j + 4 <= (offset + length + 1) * 4) by (nonlinear_arith)
            requires
                0 <= j <= offset + length,
        ;
    }
}

} // verus!
