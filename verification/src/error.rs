use vstd::prelude::*;

verus! {

/// Reason a raw-buffer layout is rejected when assembling or reinterpreting
/// an array descriptor.
#[derive(Clone, Copy, Debug, PartialEq, Eq, Structural)]
pub enum LayoutError {
    /// The number of buffers supplied does not match what the element type needs.
    WrongBufferCount,
    /// A supplied buffer holds fewer bytes than the declared length requires.
    BufferTooSmall,
    /// An offset points past the end of the data buffer, or the leading offset
    /// is not zero.
    OffsetOutOfRange,
    /// The offsets do not form a non-decreasing sequence.
    NonMonotonicOffsets,
}

/// Out-of-bounds access to an element, byte, or validity bit.
#[derive(Clone, Copy, Debug, PartialEq, Eq, Structural)]
pub enum AccessError {
    IndexOutOfRange,
}

} // verus!
