use vstd::prelude::*;

verus! {

use vstd::bytes::{
    spec_u32_from_le_bytes,
    spec_u32_to_le_bytes,
    spec_u64_from_le_bytes,
    spec_u64_to_le_bytes,
    u32_from_le_bytes,
    u32_to_le_bytes,
    u64_from_le_bytes,
    u64_to_le_bytes,
    lemma_auto_spec_u32_to_from_le_bytes,
    lemma_auto_spec_u64_to_from_le_bytes,
};

/// Tag naming the element type of an array; it dictates how many buffers an
/// array needs and how their bytes are interpreted.
#[derive(Clone, Copy, Debug, PartialEq, Eq, Structural)]
pub enum DataType {
    UInt8,
    Int32,
    UInt64,
    Utf8,
}

impl DataType {
    /// Element size in bytes of a fixed-width type; `Utf8` is variable-width
    /// and has no fixed element size.
    pub open spec fn spec_fixed_width(self) -> Option<nat> {
        match self {
            DataType::UInt8 => Some(1nat),
            DataType::Int32 => Some(4nat),
            DataType::UInt64 => Some(8nat),
            DataType::Utf8 => None,
        }
    }

    pub fn fixed_width(self) -> (w: Option<usize>)
        ensures
            w == match self.spec_fixed_width() {
                Some(n) => Some(n as usize),
                None => None::<usize>,
            },
    {
        match self {
            DataType::UInt8 => Some(1),
            DataType::Int32 => Some(4),
            DataType::UInt64 => Some(8),
            DataType::Utf8 => None,
        }
    }
}

/// A primitive element stored as a fixed number of little-endian bytes.
/// Encoding and decoding invert each other, so values survive a round trip
/// through an array's values buffer.
pub trait FixedElement: Sized + Copy {
    /// The type tag of arrays holding this element.
    spec fn spec_tag() -> DataType;

    /// Element size in bytes.
    spec fn spec_width() -> nat;

    /// The little-endian bytes of this value.
    spec fn spec_encode(self) -> Seq<u8>;

    /// The value read back from little-endian bytes.
    spec fn spec_decode(bytes: Seq<u8>) -> Self;

    proof fn lemma_encode_width(self)
        ensures
            self.spec_encode().len() == Self::spec_width(),
            0 < Self::spec_width() <= 8,
            Self::spec_tag().spec_fixed_width() == Some(Self::spec_width()),
    ;

    proof fn lemma_decode_encode(self)
        ensures
            Self::spec_decode(self.spec_encode()) == self,
    ;

    exec fn tag() -> (t: DataType)
        ensures
            t == Self::spec_tag(),
    ;

    exec fn width() -> (w: usize)
        ensures
            w as nat == Self::spec_width(),
    ;

    exec fn encode(self) -> (v: Vec<u8>)
        ensures
            v@ == self.spec_encode(),
    ;

    exec fn decode(bytes: &[u8]) -> (r: Self)
        requires
            bytes@.len() == Self::spec_width(),
        ensures
            r == Self::spec_decode(bytes@),
    ;
}

impl FixedElement for u8 {
    open spec fn spec_tag() -> DataType {
        DataType::UInt8
    }

    open spec fn spec_width() -> nat {
        1
    }

    open spec fn spec_encode(self) -> Seq<u8> {
        seq![self]
    }

    open spec fn spec_decode(bytes: Seq<u8>) -> u8 {
        bytes[0]
    }

    proof fn lemma_encode_width(self) {
    }

    proof fn lemma_decode_encode(self) {
    }

    fn tag() -> DataType {
        DataType::UInt8
    }

    fn width() -> usize {
        1
    }

    fn encode(self) -> (v: Vec<u8>) {
        let mut v: Vec<u8> = Vec::new();
        v.push(self);
        proof {
            assert(v@ =~= seq![self]);
        }
        v
    }

    fn decode(bytes: &[u8]) -> (r: u8) {
        *vstd::slice::slice_index_get(bytes, 0)
    }
}

impl FixedElement for i32 {
    open spec fn spec_tag() -> DataType {
        DataType::Int32
    }

    open spec fn spec_width() -> nat {
        4
    }

    open spec fn spec_encode(self) -> Seq<u8> {
        spec_u32_to_le_bytes(self as u32)
    }

    open spec fn spec_decode(bytes: Seq<u8>) -> i32 {
        spec_u32_from_le_bytes(bytes) as i32
    }

    proof fn lemma_encode_width(self) {
        lemma_auto_spec_u32_to_from_le_bytes();
    }

    proof fn lemma_decode_encode(self) {
        lemma_auto_spec_u32_to_from_le_bytes();
        let x = self;
        assert(spec_u32_to_le_bytes(x as u32).len() == 4);
        assert(spec_u32_from_le_bytes(spec_u32_to_le_bytes(x as u32)) == x as u32);
        assert(x as u32 as i32 == x) by (bit_vector);
    }

    fn tag() -> DataType {
        DataType::Int32
    }

    fn width() -> usize {
        4
    }

    fn encode(self) -> (v: Vec<u8>) {
        u32_to_le_bytes(self as u32)
    }

    fn decode(bytes: &[u8]) -> (r: i32) {
        u32_from_le_bytes(bytes) as i32
    }
}

impl FixedElement for u64 {
    open spec fn spec_tag() -> DataType {
        DataType::UInt64
    }

    open spec fn spec_width() -> nat {
        8
    }

    open spec fn spec_encode(self) -> Seq<u8> {
        spec_u64_to_le_bytes(self)
    }

    open spec fn spec_decode(bytes: Seq<u8>) -> u64 {
        spec_u64_from_le_bytes(bytes)
    }

    proof fn lemma_encode_width(self) {
        lemma_auto_spec_u64_to_from_le_bytes();
    }

    proof fn lemma_decode_encode(self) {
        lemma_auto_spec_u64_to_from_le_bytes();
        assert(spec_u64_to_le_bytes(self).len() == 8);
    }

    fn tag() -> DataType {
        DataType::UInt64
    }

    fn width() -> usize {
        8
    }

    fn encode(self) -> (v: Vec<u8>) {
        u64_to_le_bytes(self)
    }

    fn decode(bytes: &[u8]) -> (r: u64) {
        u64_from_le_bytes(bytes)
    }
}

} // verus!
