use vstd::prelude::*;

verus! {

use crate::buffer::Buffer;
use crate::error::AccessError;

/// Whether bit `k` of byte `b` is set. Bits are numbered from the least
/// significant end, so bit 0 of byte 0 is logical element 0.
pub open spec fn bit_get(b: u8, k: nat) -> bool {
    (b >> (k as u8)) & 1 == 1
}

/// Bytes needed to hold `bits` bits.
pub open spec fn byte_len(bits: nat) -> nat {
    (bits + 7) / 8
}

/// The logical bit at position `i` of a packed little-endian byte sequence.
pub open spec fn bit_index(bytes: Seq<u8>, i: int) -> bool
    recommends
        0 <= i < bytes.len() * 8,
{
    bit_get(bytes[i / 8], (i % 8) as nat)
}

/// Number of `false` entries in a sequence of bits.
pub open spec fn count_false(s: Seq<bool>) -> nat
    decreases s.len(),
{
    if s.len() == 0 {
        0
    } else {
        count_false(s.drop_last()) + if s.last() {
            0nat
        } else {
            1nat
        }
    }
}

pub proof fn lemma_count_false_push(s: Seq<bool>, b: bool)
    ensures
        count_false(s.push(b)) == count_false(s) + if b {
            0nat
        } else {
            1nat
        },
{
    assert(s.push(b).drop_last() =~= s);
    assert(s.push(b).last() == b);
}

proof fn lemma_bit_or_set(b: u8, k: u8)
    requires
        k < 8,
    ensures
        forall|j: u8|
            j < 8 ==> #[trigger] bit_get(b | (1u8 << k), j as nat) == (j == k || bit_get(
                b,
                j as nat,
            )),
{
    assert forall|j: u8|
        j < 8 implies #[trigger] bit_get(b | (1u8 << k), j as nat) == (j == k || bit_get(
        b,
        j as nat,
    )) by {
        assert((((b | (1u8 << k)) >> j) & 1 == 1) == (j == k || ((b >> j) & 1 == 1)))
            by (bit_vector)
            requires
                k < 8,
                j < 8,
        ;
        assert(((j as nat) as u8) == j);
    }
}

proof fn lemma_bit_and_clear(b: u8, k: u8)
    requires
        k < 8,
    ensures
        forall|j: u8|
            j < 8 ==> #[trigger] bit_get(b & !(1u8 << k), j as nat) == (j != k && bit_get(
                b,
                j as nat,
            )),
{
    assert forall|j: u8|
        j < 8 implies #[trigger] bit_get(b & !(1u8 << k), j as nat) == (j != k && bit_get(
        b,
        j as nat,
    )) by {
        assert((((b & !(1u8 << k)) >> j) & 1 == 1) == (j != k && ((b >> j) & 1 == 1)))
            by (bit_vector)
            requires
                k < 8,
                j < 8,
        ;
        assert(((j as nat) as u8) == j);
    }
}

proof fn lemma_bit_all_ones()
    ensures
        forall|j: u8| j < 8 ==> #[trigger] bit_get(0xffu8, j as nat),
{
    assert forall|j: u8| j < 8 implies #[trigger] bit_get(0xffu8, j as nat) by {
        assert((0xffu8 >> j) & 1 == 1) by (bit_vector)
            requires
                j < 8,
        ;
        assert(((j as nat) as u8) == j);
    }
}

proof fn lemma_bit_zero()
    ensures
        forall|j: u8| j < 8 ==> !#[trigger] bit_get(0u8, j as nat),
{
    assert forall|j: u8| j < 8 implies !#[trigger] bit_get(0u8, j as nat) by {
        assert(!((0u8 >> j) & 1 == 1)) by (bit_vector)
            requires
                j < 8,
        ;
        assert(((j as nat) as u8) == j);
    }
}

proof fn lemma_bit_low_mask(r: u8)
    requires
        0 < r < 8,
    ensures
        forall|j: u8|
            j < 8 ==> #[trigger] bit_get(((1u8 << r) - 1) as u8, j as nat) == (j < r),
{
    assert forall|j: u8|
        j < 8 implies #[trigger] bit_get(((1u8 << r) - 1) as u8, j as nat) == (j < r) by {
        assert((((((1u8 << r) - 1) as u8) >> j) & 1 == 1) == (j < r)) by (bit_vector)
            requires
                0 < r < 8,
                j < 8,
        ;
        assert(((j as nat) as u8) == j);
    }
}

proof fn lemma_bit_mask_keep(b: u8, r: u8)
    requires
        0 < r < 8,
    ensures
        forall|j: u8|
            j < 8 ==> #[trigger] bit_get(b & (((1u8 << r) - 1) as u8), j as nat) == (j < r && bit_get(
                b,
                j as nat,
            )),
{
    assert forall|j: u8|
        j < 8 implies #[trigger] bit_get(b & (((1u8 << r) - 1) as u8), j as nat) == (j < r
        && bit_get(b, j as nat)) by {
        assert((((b & (((1u8 << r) - 1) as u8)) >> j) & 1 == 1) == (j < r && ((b >> j) & 1 == 1)))
            by (bit_vector)
            requires
                0 < r < 8,
                j < 8,
        ;
        assert(((j as nat) as u8) == j);
    }
}

/// For non-negative `i`, the byte index `i / 8` and bit index `i % 8` recompose
/// to `i`, and the byte index stays within a storage of `n` bytes when `i < 8 * n`.
proof fn lemma_bit_position(i: int, n: int)
    requires
        0 <= i,
        i < 8 * n,
    ensures
        i == 8 * (i / 8) + (i % 8),
        0 <= i % 8 < 8,
        0 <= i / 8 < n,
{
    vstd::arithmetic::div_mod::lemma_fundamental_div_mod(i, 8);
    assert(i / 8 < n) by (nonlinear_arith)
        requires
            0 <= i,
            i < 8 * n,
    ;
}

/// Bit-packed presence mask over a [`Buffer`]: bit `i` set means logical
/// element `i` is present (non-null). Bits past the covered length within the
/// stored bytes are kept zero.
pub struct ValidityBitmap {
    bits: Buffer,
    bit_len: usize,
}

impl View for ValidityBitmap {
    type V = Seq<bool>;

    /// One presence flag per covered logical element.
    closed spec fn view(&self) -> Seq<bool> {
        Seq::new(self.bit_len as nat, |i: int| bit_index(self.bits@, i))
    }
}

impl ValidityBitmap {
    /// The packed bytes backing the bitmap.
    pub closed spec fn spec_bytes(&self) -> Seq<u8> {
        self.bits@
    }

    pub closed spec fn wf(&self) -> bool {
        &&& self.bits.wf()
        &&& self.bits@.len() == byte_len(self.bit_len as nat)
        &&& forall|i: int|
            self.bit_len <= i < self.bits@.len() * 8 ==> !#[trigger] bit_index(self.bits@, i)
    }

    /// The packed representation: one bit per element, little-endian within
    /// each byte, unused bits of the final byte zero.
    pub proof fn lemma_packed(&self)
        requires
            self.wf(),
        ensures
            self.spec_bytes().len() == byte_len(self@.len()),
            forall|i: int| 0 <= i < self@.len() ==> self@[i] == bit_index(self.spec_bytes(), i),
            forall|i: int|
                self@.len() <= i < self.spec_bytes().len() * 8 ==> !bit_index(self.spec_bytes(), i),
    {
    }

    /// A bitmap covering no elements.
    pub fn new_empty() -> (bm: ValidityBitmap)
        ensures
            bm.wf(),
            bm@ == Seq::<bool>::empty(),
            bm.spec_bytes() == Seq::<u8>::empty(),
    {
        let bm = ValidityBitmap { bits: Buffer::allocate(0), bit_len: 0 };
        proof {
            assert(bm@ =~= Seq::<bool>::empty());
        }
        bm
    }

    /// A bitmap of `length` bits, all set (every element present).
    pub fn with_all_valid(length: usize) -> (bm: ValidityBitmap)
        ensures
            bm.wf(),
            bm@ == Seq::new(length as nat, |i: int| true),
    {
        let full: usize = length / 8;
        let rem: usize = length % 8;
        let mut buf = Buffer::allocate(if rem > 0 {
            full + 1
        } else {
            full
        });
        let mut i: usize = 0;
        while i < full
            invariant
                i <= full,
                buf.wf(),
                buf@ == Seq::new(i as nat, |j: int| 0xffu8),
                full < usize::MAX,
            decreases full - i,
        {
            buf.push_byte(0xff);
            i = i + 1;
            proof {
                assert(Seq::new(i as nat, |j: int| 0xffu8)
                    =~= Seq::new((i - 1) as nat, |j: int| 0xffu8).push(0xffu8));
            }
        }
        if rem > 0 {
            proof {
                assert(1u8 << (rem as u8) >= 1) by (bit_vector)
                    requires
                        0 < rem < 8,
                ;
            }
            buf.push_byte((1u8 << (rem as u8)) - 1);
        }
        let bm = ValidityBitmap { bits: buf, bit_len: length };
        proof {
            assert(length == 8 * full + rem) by {
                vstd::arithmetic::div_mod::lemma_fundamental_div_mod(length as int, 8);
            };
            assert(bm.bits@.len() == byte_len(length as nat)) by (nonlinear_arith)
                requires
                    length == 8 * full + rem,
                    0 <= rem < 8,
                    bm.bits@.len() == full + if rem > 0 { 1int } else { 0int },
            ;
            lemma_bit_all_ones();
            if rem > 0 {
                lemma_bit_low_mask(rem as u8);
            }
            assert forall|i2: int| 0 <= i2 < length implies bit_index(bm.bits@, i2) by {
                lemma_bit_position(i2, bm.bits@.len() as int);
                if i2 / 8 < full {
                    assert(bm.bits@[i2 / 8] == 0xffu8);
                } else {
                    assert(i2 / 8 == full);
                    assert(i2 % 8 < rem) by (nonlinear_arith)
                        requires
                            i2 == 8 * (i2 / 8) + (i2 % 8),
                            i2 / 8 == full,
                            i2 < length,
                            length == 8 * full + rem,
                    ;
                }
            }
            assert forall|i2: int|
                length <= i2 < bm.bits@.len() * 8 implies !bit_index(bm.bits@, i2) by {
                lemma_bit_position(i2, bm.bits@.len() as int);
                assert(rem > 0);
                assert(i2 / 8 == full && i2 % 8 >= rem) by (nonlinear_arith)
                    requires
                        i2 == 8 * (i2 / 8) + (i2 % 8),
                        0 <= i2 % 8 < 8,
                        length <= i2 < 8 * (full + 1),
                        length == 8 * full + rem,
                        0 < rem < 8,
                ;
            }
            assert(bm@ =~= Seq::new(length as nat, |i2: int| true));
        }
        bm
    }

    /// How many logical elements the bitmap covers.
    pub fn bit_len(&self) -> (n: usize)
        ensures
            n == self@.len(),
    {
        self.bit_len
    }

    /// The packed bytes, for introspection of the physical layout.
    pub fn as_buffer(&self) -> (b: &Buffer)
        ensures
            b@ == self.spec_bytes(),
    {
        &self.bits
    }

    /// The bit at `index`, which must be covered.
    fn get_bit(&self, index: usize) -> (v: bool)
        requires
            self.wf(),
            index < self@.len(),
        ensures
            v == self@[index as int],
    {
        proof {
            lemma_bit_position(index as int, self.bits@.len() as int);
            assert(index < 8 * self.bits@.len()) by (nonlinear_arith)
                requires
                    index < self.bit_len,
                    self.bits@.len() == (self.bit_len + 7) / 8,
            ;
        }
        let b = self.bits.byte_at(index / 8);
        ((b >> ((index % 8) as u8)) & 1) == 1
    }

    /// The presence flag of element `index`, or `IndexOutOfRange` past the
    /// covered length.
    pub fn get(&self, index: usize) -> (r: Result<bool, AccessError>)
        requires
            self.wf(),
        ensures
            index < self@.len() ==> r == Ok::<bool, AccessError>(self@[index as int]),
            index >= self@.len() ==> r == Err::<bool, AccessError>(AccessError::IndexOutOfRange),
    {
        if index < self.bit_len {
            Ok(self.get_bit(index))
        } else {
            Err(AccessError::IndexOutOfRange)
        }
    }

    /// Write the presence flag of element `index`, growing the bitmap to cover
    /// `index` if needed; any elements newly covered by the growth and not at
    /// `index` read as absent.
    pub fn set(&mut self, index: usize, valid: bool)
        requires
            old(self).wf(),
            index < usize::MAX,
        ensures
            final(self).wf(),
            final(self)@.len() == if index < old(self)@.len() {
                old(self)@.len() as int
            } else {
                index + 1
            },
            final(self)@[index as int] == valid,
            forall|j: int|
                0 <= j < final(self)@.len() && j != index ==> final(self)@[j] == (if j < old(
                    self,
                )@.len() {
                    old(self)@[j]
                } else {
                    false
                }),
    {
        let ghost pre = *old(self);
        if index >= self.bit_len {
            let needed: usize = index / 8 + 1;
            let have: usize = self.bits.len();
            proof {
                lemma_bit_position(index as int, needed as int);
                vstd::arithmetic::div_mod::lemma_div_is_ordered(
                    self.bit_len + 7,
                    index + 8,
                    8,
                );
                assert((index + 8) / 8 == index / 8 + 1) by (nonlinear_arith);
                lemma_bit_zero();
            }
            if needed > have {
                self.bits.push_zeros(needed - have);
            }
            self.bit_len = index + 1;
            proof {
                assert forall|i2: int|
                    pre@.len() <= i2 < self.bits@.len() * 8 implies !bit_index(self.bits@, i2) by {
                    lemma_bit_position(i2, self.bits@.len() as int);
                    if i2 / 8 < have {
                        assert(bit_index(pre.spec_bytes(), i2) == bit_index(self.bits@, i2));
                        assert(i2 < 8 * have) by (nonlinear_arith)
                            requires
                                i2 / 8 < have,
                                i2 == 8 * (i2 / 8) + (i2 % 8),
                                0 <= i2 % 8 < 8,
                        ;
                    } else {
                        assert(self.bits@[i2 / 8] == 0u8);
                    }
                }
            }
        }
        let ghost mid = *self;
        let byte_i: usize = index / 8;
        let k: u8 = (index % 8) as u8;
        proof {
            lemma_bit_position(index as int, self.bits@.len() as int);
            assert(index < 8 * self.bits@.len()) by (nonlinear_arith)
                requires
                    index < self.bit_len,
                    self.bits@.len() == (self.bit_len + 7) / 8,
            ;
        }
        let b = self.bits.byte_at(byte_i);
        let nb: u8 = if valid {
            b | (1u8 << k)
        } else {
            b & !(1u8 << k)
        };
        self.bits.set_byte(byte_i, nb);
        proof {
            if valid {
                lemma_bit_or_set(b, k);
            } else {
                lemma_bit_and_clear(b, k);
            }
            assert forall|i2: int| 0 <= i2 < self.bits@.len() * 8 implies bit_index(self.bits@, i2)
                == (if i2 == index {
                valid
            } else {
                bit_index(mid.spec_bytes(), i2)
            }) by {
                lemma_bit_position(i2, self.bits@.len() as int);
                if i2 / 8 == byte_i {
                    assert((i2 % 8) as u8 == k <==> i2 == index) by (nonlinear_arith)
                        requires
                            i2 == 8 * (i2 / 8) + (i2 % 8),
                            index == 8 * byte_i + k,
                            i2 / 8 == byte_i,
                            0 <= i2 % 8 < 8,
                            0 <= k < 8,
                    ;
                }
            }
            assert(final(self)@[index as int] == valid);
            assert(mid@.len() == final(self)@.len());
            assert forall|j: int|
                0 <= j < final(self)@.len() && j != index implies final(self)@[j] == (if j < pre@.len() {
                pre@[j]
            } else {
                false
            }) by {
                lemma_bit_position(j, self.bits@.len() as int);
                assert(j < 8 * self.bits@.len()) by (nonlinear_arith)
                    requires
                        j < self.bit_len,
                        self.bits@.len() == (self.bit_len + 7) / 8,
                ;
            }
            assert forall|i2: int|
                final(self)@.len() <= i2 < self.bits@.len() * 8 implies !bit_index(
                self.bits@,
                i2,
            ) by {
                assert(!bit_index(mid.spec_bytes(), i2));
            }
        }
    }

    /// Count the unset bits (absent elements) among positions
    /// `start..end`, which must be covered.
    pub fn count_unset_range(&self, start: usize, end: usize) -> (n: usize)
        requires
            self.wf(),
            start <= end <= self@.len(),
        ensures
            n == count_false(self@.subrange(start as int, end as int)),
    {
        let mut acc: usize = 0;
        let mut i: usize = start;
        proof {
            assert(self@.subrange(start as int, start as int) =~= Seq::<bool>::empty());
        }
        while i < end
            invariant
                start <= i <= end <= self@.len(),
                self.wf(),
                acc == count_false(self@.subrange(start as int, i as int)),
                acc <= i - start,
            decreases end - i,
        {
            let v = self.get_bit(i);
            proof {
                assert(self@.subrange(start as int, i + 1) =~= self@.subrange(
                    start as int,
                    i as int,
                ).push(self@[i as int]));
                lemma_count_false_push(self@.subrange(start as int, i as int), self@[i as int]);
            }
            if !v {
                acc = acc + 1;
            }
            i = i + 1;
        }
        acc
    }

    /// Count the unset bits (absent elements) over the whole bitmap.
    pub fn count_unset(&self) -> (n: usize)
        requires
            self.wf(),
        ensures
            n == count_false(self@),
    {
        let n = self.count_unset_range(0, self.bit_len);
        proof {
            assert(self@.subrange(0, self@.len() as int) =~= self@);
        }
        n
    }

    /// Shorten the bitmap to cover `new_len` elements, clearing the bits of the
    /// final byte that fall past the new length. A truncation to the current
    /// length leaves the bitmap untouched.
    pub fn truncate(&mut self, new_len: usize)
        requires
            old(self).wf(),
            new_len <= old(self)@.len(),
        ensures
            final(self).wf(),
            final(self)@ == old(self)@.take(new_len as int),
            new_len == old(self)@.len() ==> *final(self) == *old(self),
    {
        if new_len == self.bit_len {
            proof {
                assert(self@.take(new_len as int) =~= self@);
            }
            return ;
        }
        let ghost pre = *old(self);
        let full: usize = new_len / 8;
        let rem: usize = new_len % 8;
        let keep: usize = if rem > 0 {
            full + 1
        } else {
            full
        };
        proof {
            assert(new_len == 8 * full + rem) by {
                vstd::arithmetic::div_mod::lemma_fundamental_div_mod(new_len as int, 8);
            };
            assert(keep == byte_len(new_len as nat)) by (nonlinear_arith)
                requires
                    new_len == 8 * full + rem,
                    0 <= rem < 8,
                    keep == full + if rem > 0 { 1int } else { 0int },
            ;
            vstd::arithmetic::div_mod::lemma_div_is_ordered(
                new_len + 7,
                self.bit_len + 7,
                8,
            );
        }
        self.bits.truncate(keep);
        if rem > 0 {
            proof {
                assert(1u8 << (rem as u8) >= 1) by (bit_vector)
                    requires
                        0 < rem < 8,
                ;
            }
            let b = self.bits.byte_at(full);
            self.bits.set_byte(full, b & ((1u8 << (rem as u8)) - 1));
            proof {
                lemma_bit_mask_keep(b, rem as u8);
            }
        }
        self.bit_len = new_len;
        proof {
            assert forall|i2: int| 0 <= i2 < self.bits@.len() * 8 implies bit_index(self.bits@, i2)
                == (i2 < new_len && bit_index(pre.spec_bytes(), i2)) by {
                lemma_bit_position(i2, self.bits@.len() as int);
                if rem > 0 && i2 / 8 == full {
                    assert((i2 % 8 < rem) == (i2 < new_len)) by (nonlinear_arith)
                        requires
                            i2 == 8 * (i2 / 8) + (i2 % 8),
                            i2 / 8 == full,
                            0 <= i2 % 8 < 8,
                            new_len == 8 * full + rem,
                            0 < rem < 8,
                    ;
                } else {
                    assert(i2 < new_len) by (nonlinear_arith)
                        requires
                            i2 == 8 * (i2 / 8) + (i2 % 8),
                            0 <= i2 % 8 < 8,
                            i2 / 8 < keep,
                            !(rem > 0 && i2 / 8 == full),
                            new_len == 8 * full + rem,
                            0 <= rem < 8,
                            keep == full + if rem > 0 { 1int } else { 0int },
                    ;
                }
            }
            assert forall|j: int| 0 <= j < new_len implies bit_index(self.bits@, j) == pre@[j] by {
                lemma_bit_position(j, self.bits@.len() as int);
                assert(j < 8 * self.bits@.len()) by (nonlinear_arith)
                    requires
                        j < new_len,
                        self.bits@.len() == (new_len + 7) / 8,
                ;
            }
            assert(final(self)@ =~= pre@.take(new_len as int));
        }
    }
}

} // verus!
