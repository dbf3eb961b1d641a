use vstd::prelude::*;

verus! {

use crate::error::AccessError;
use vstd::pervasive::VecAdditionalExecFns;

/// Owned, contiguous byte storage with a used length and a logical allocated
/// capacity. The capacity only grows, geometrically, with a floor of 64 bytes.
/// Bytes beyond the used length are never exposed to readers.
pub struct Buffer {
    bytes: Vec<u8>,
    cap: usize,
}

impl View for Buffer {
    type V = Seq<u8>;

    /// The bytes in use, in order.
    closed spec fn view(&self) -> Seq<u8> {
        self.bytes@
    }
}

impl Buffer {
    /// The allocated capacity, in bytes.
    pub closed spec fn spec_capacity(&self) -> nat {
        self.cap as nat
    }

    pub open spec fn wf(&self) -> bool {
        self@.len() <= self.spec_capacity()
    }

    /// An empty buffer with room reserved for `capacity` bytes.
    pub fn allocate(capacity: usize) -> (b: Buffer)
        ensures
            b@ == Seq::<u8>::empty(),
            b.spec_capacity() == capacity,
            b.wf(),
    {
        Buffer { bytes: Vec::with_capacity(capacity), cap: capacity }
    }

    /// A buffer wrapping existing byte content; length and capacity both equal
    /// the content's length.
    pub fn from_bytes(bytes: Vec<u8>) -> (b: Buffer)
        ensures
            b@ == bytes@,
            b.spec_capacity() == bytes@.len(),
            b.wf(),
    {
        let cap = bytes.len();
        Buffer { bytes, cap }
    }

    pub fn len(&self) -> (n: usize)
        ensures
            n == self@.len(),
    {
        self.bytes.len()
    }

    pub fn capacity(&self) -> (n: usize)
        ensures
            n == self.spec_capacity(),
    {
        self.cap
    }

    pub fn as_slice(&self) -> (s: &[u8])
        ensures
            s@ == self@,
    {
        self.bytes.as_slice()
    }

    /// The byte at `index`, or `IndexOutOfRange` past the used length.
    pub fn get(&self, index: usize) -> (r: Result<u8, AccessError>)
        ensures
            index < self@.len() ==> r == Ok::<u8, AccessError>(self@[index as int]),
            index >= self@.len() ==> r == Err::<u8, AccessError>(AccessError::IndexOutOfRange),
    {
        if index < self.bytes.len() {
            Ok(self.bytes[index])
        } else {
            Err(AccessError::IndexOutOfRange)
        }
    }

    /// The byte at `index`, which must be within the used length.
    pub fn byte_at(&self, index: usize) -> (b: u8)
        requires
            index < self@.len(),
        ensures
            b == self@[index as int],
    {
        self.bytes[index]
    }

    /// Overwrite the byte at `index`, which must be within the used length.
    pub fn set_byte(&mut self, index: usize, value: u8)
        requires
            index < old(self)@.len(),
        ensures
            final(self)@ == old(self)@.update(index as int, value),
            final(self).spec_capacity() == old(self).spec_capacity(),
    {
        self.bytes.set(index, value);
    }

    /// Append a single byte, growing first if needed.
    pub fn push_byte(&mut self, value: u8)
        requires
            old(self).wf(),
            old(self)@.len() < usize::MAX,
        ensures
            final(self)@ == old(self)@.push(value),
            final(self).wf(),
            final(self).spec_capacity() >= old(self).spec_capacity(),
    {
        self.reserve(1);
        self.bytes.push(value);
    }

    /// Shorten the used length to `new_len` bytes, keeping the capacity.
    /// A truncation to the current length leaves the buffer untouched.
    pub fn truncate(&mut self, new_len: usize)
        requires
            new_len <= old(self)@.len(),
        ensures
            final(self)@ == old(self)@.take(new_len as int),
            final(self).spec_capacity() == old(self).spec_capacity(),
            new_len == old(self)@.len() ==> *final(self) == *old(self),
    {
        if new_len == self.bytes.len() {
            proof {
                assert(self@.take(new_len as int) =~= self@);
            }
            return ;
        }
        self.bytes.truncate(new_len);
    }

    /// Ensure room for `additional` more bytes. Growth happens only when the
    /// current capacity is insufficient, and the capacity never shrinks.
    pub fn reserve(&mut self, additional: usize)
        requires
            old(self).wf(),
            old(self)@.len() + additional <= usize::MAX,
        ensures
            final(self)@ == old(self)@,
            final(self).wf(),
            final(self).spec_capacity() >= old(self)@.len() + additional,
            final(self).spec_capacity() >= old(self).spec_capacity(),
            old(self)@.len() + additional <= old(self).spec_capacity()
                ==> final(self).spec_capacity() == old(self).spec_capacity(),
    {
        let needed = self.bytes.len() + additional;
        if needed > self.cap {
            let doubled = if self.cap > usize::MAX / 2 {
                usize::MAX
            } else {
                self.cap * 2
            };
            let grown = if doubled > needed {
                doubled
            } else {
                needed
            };
            self.cap = if grown < 64 {
                64
            } else {
                grown
            };
            self.bytes.reserve(self.cap - self.bytes.len());
        }
    }

    /// Append the given bytes, growing first if needed.
    pub fn push_bytes(&mut self, data: &[u8])
        requires
            old(self).wf(),
            old(self)@.len() + data@.len() <= usize::MAX,
        ensures
            final(self)@ == old(self)@ + data@,
            final(self).wf(),
            final(self).spec_capacity() >= old(self).spec_capacity(),
            old(self)@.len() + data@.len() <= old(self).spec_capacity()
                ==> final(self).spec_capacity() == old(self).spec_capacity(),
    {
        self.reserve(data.len());
        let ghost cap0 = self.spec_capacity();
        let mut i: usize = 0;
        while i < data.len()
            invariant
                i <= data@.len(),
                self.bytes@ == old(self)@ + data@.take(i as int),
                self.cap == cap0,
                self@.len() + (data@.len() - i) <= self.spec_capacity(),
            decreases data@.len() - i,
        {
            self.bytes.push(*vstd::slice::slice_index_get(data, i));
            i = i + 1;
            proof {
                assert(data@.take(i as int) == data@.take(i - 1).push(data@[i - 1]));
            }
        }
        proof {
            assert(data@.take(data@.len() as int) == data@);
        }
    }

    /// Append `count` zero bytes, growing first if needed.
    pub fn push_zeros(&mut self, count: usize)
        requires
            old(self).wf(),
            old(self)@.len() + count <= usize::MAX,
        ensures
            final(self)@ == old(self)@ + Seq::new(count as nat, |i: int| 0u8),
            final(self).wf(),
            final(self).spec_capacity() >= old(self).spec_capacity(),
            old(self)@.len() + count <= old(self).spec_capacity()
                ==> final(self).spec_capacity() == old(self).spec_capacity(),
    {
        self.reserve(count);
        let ghost cap0 = self.spec_capacity();
        let mut i: usize = 0;
        while i < count
            invariant
                i <= count,
                self.bytes@ == old(self)@ + Seq::new(i as nat, |j: int| 0u8),
                self.cap == cap0,
                self@.len() + (count - i) <= self.spec_capacity(),
            decreases count - i,
        {
            self.bytes.push(0u8);
            i = i + 1;
            proof {
                assert(Seq::new(i as nat, |j: int| 0u8)
                    =~= Seq::new((i - 1) as nat, |j: int| 0u8).push(0u8));
            }
        }
    }
}

} // verus!
