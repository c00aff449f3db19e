//! Big-endian integer fields of the container and tree formats.

use vstd::prelude::*;

verus! {

/// The unsigned big-endian value of the two bytes at `i`.
pub open spec fn spec_be2(data: Seq<u8>, i: int) -> int {
    256 * (data[i] as int) + (data[i + 1] as int)
}

/// The unsigned big-endian value of the three bytes at `i`.
pub open spec fn spec_be3(data: Seq<u8>, i: int) -> int {
    65536 * (data[i] as int) + 256 * (data[i + 1] as int) + (data[i + 2] as int)
}

/// The unsigned big-endian value of the four bytes at `i`.
pub open spec fn spec_be4(data: Seq<u8>, i: int) -> int {
    16777216 * (data[i] as int) + 65536 * (data[i + 1] as int) + 256 * (data[i + 2] as int) + (
    data[i + 3] as int)
}

/// The signed (two's complement) big-endian value of the four bytes at `i`.
pub open spec fn spec_i32_be(data: Seq<u8>, i: int) -> int {
    if data[i] < 128 {
        spec_be4(data, i)
    } else {
        spec_be4(data, i) - 0x1_0000_0000
    }
}

/// Reads a two-byte big-endian size field.
pub fn read_two_byte_size(data: &Vec<u8>, index: usize) -> (r: usize)
    requires
        index + 2 <= data@.len(),
    ensures
        r == spec_be2(data@, index as int),
        r < 0x1_0000,
{
    let len = data.len();
    256 * (data[index] as usize) + (data[index + 1] as usize)
}

/// Reads a three-byte big-endian size field.
pub fn read_three_byte_size(data: &Vec<u8>, index: usize) -> (r: usize)
    requires
        index + 3 <= data@.len(),
    ensures
        r == spec_be3(data@, index as int),
        r < 0x100_0000,
{
    let len = data.len();
    65536 * (data[index] as usize) + 256 * (data[index + 1] as usize) + (data[index + 2] as usize)
}

/// Reads a four-byte big-endian size field.
pub fn read_four_byte_size(data: &Vec<u8>, index: usize) -> (r: usize)
    requires
        index + 4 <= data@.len(),
    ensures
        r == spec_be4(data@, index as int),
        r < 0x1_0000_0000,
{
    let len = data.len();
    16777216 * (data[index] as usize) + 65536 * (data[index + 1] as usize) + 256 * (data[index
        + 2] as usize) + (data[index + 3] as usize)
}

/// Reads a four-byte big-endian signed integer from the start of `data`.
pub fn read_i32(data: &Vec<u8>) -> (r: i32)
    requires
        data@.len() >= 4,
    ensures
        r == spec_i32_be(data@, 0),
{
    let hi: i32 = if data[0] >= 128 {
        (data[0] as i32) - 256
    } else {
        data[0] as i32
    };
    hi * 16777216 + (data[1] as i32) * 65536 + (data[2] as i32) * 256 + (data[3] as i32)
}

} // verus!
