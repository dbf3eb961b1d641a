use vstd::prelude::*;

verus! {

use crate::buffer::Buffer;
use crate::data::ArrayData;
use crate::datatype::DataType;
use crate::fixed::FixedWidthArray;

/// Create an integer array directly from a raw buffer of bytes, going through
/// the type-erased descriptor: the buffer `[1, 2, 3]` described as three
/// unsigned 8-bit elements with no nulls, viewed as a typed array.
pub fn create_int_array_from_buffer() -> (a: FixedWidthArray<u8>)
    ensures
        a.wf(),
        a@ == seq![Some(1u8), Some(2u8), Some(3u8)],
        !a.has_nulls(),
{
    let mut bytes: Vec<u8> = Vec::new();
    bytes.push(1);
    bytes.push(2);
    bytes.push(3);
    let data = Buffer::from_bytes(bytes);
    let mut buffers: Vec<Buffer> = Vec::new();
    buffers.push(data);
    let children: Vec<ArrayData> = Vec::new();
    let array_data = match ArrayData::try_new(DataType::UInt8, 3, None, 0, buffers, children) {
        Ok(d) => d,
        Err(_) => {
            proof {
                assert(false);
            }
            vstd::pervasive::unreached()
        },
    };
    let a = FixedWidthArray::<u8>::from_data(array_data);
    proof {
        assert(a@ =~= seq![Some(1u8), Some(2u8), Some(3u8)]);
    }
    a
}

} // verus!
