//! Little-endian (and one big-endian) integer reads over a byte buffer.
//!
//! Every reader takes the buffer and an offset and states exactly which
//! bytes make up the returned value.

use vstd::prelude::*;

verus! {

/// The 16-bit value stored little-endian in the two bytes `b0`, `b1`.
pub open spec fn le16(b0: u8, b1: u8) -> u16 {
    (b0 + b1 * 0x100) as u16
}

/// The 32-bit value stored little-endian in the four bytes `b0`..`b3`.
pub open spec fn le32(b0: u8, b1: u8, b2: u8, b3: u8) -> u32 {
    (b0 + b1 * 0x100 + b2 * 0x10000 + b3 * 0x1000000) as u32
}

/// The 16-bit value stored big-endian in the two bytes `b0`, `b1`.
pub open spec fn be16(b0: u8, b1: u8) -> u16 {
    (b0 * 0x100 + b1) as u16
}

/// The little-endian 16-bit value at `off` in `s`.
pub open spec fn le16_at(s: Seq<u8>, off: int) -> u16 {
    le16(s[off], s[off + 1])
}

/// The little-endian 32-bit value at `off` in `s`.
pub open spec fn le32_at(s: Seq<u8>, off: int) -> u32 {
    le32(s[off], s[off + 1], s[off + 2], s[off + 3])
}

/// The big-endian 16-bit value at `off` in `s`.
pub open spec fn be16_at(s: Seq<u8>, off: int) -> u16 {
    be16(s[off], s[off + 1])
}

pub fn read_u8(data: &[u8], off: usize) -> (r: u8)
    requires
        off < data@.len(),
    ensures
        r == data@[off as int],
{
    data[off]
}

pub fn read_le_u16(data: &[u8], off: usize) -> (r: u16)
    requires
        off + 2 <= data@.len(),
    ensures
        r == le16_at(data@, off as int),
{
    let b0 = data[off] as u16;
    let b1 = data[off + 1] as u16;
    b0 + b1 * 0x100
}

pub fn read_le_u32(data: &[u8], off: usize) -> (r: u32)
    requires
        off + 4 <= data@.len(),
    ensures
        r == le32_at(data@, off as int),
{
    let b0 = data[off] as u32;
    let b1 = data[off + 1] as u32;
    let b2 = data[off + 2] as u32;
    let b3 = data[off + 3] as u32;
    b0 + b1 * 0x100 + b2 * 0x10000 + b3 * 0x1000000
}

pub fn read_be_u16(data: &[u8], off: usize) -> (r: u16)
    requires
        off + 2 <= data@.len(),
    ensures
        r == be16_at(data@, off as int),
{
    let b0 = data[off] as u16;
    let b1 = data[off + 1] as u16;
    b0 * 0x100 + b1
}

/// Copies `data[off .. off + n]` into a fresh vector.
pub fn take_bytes(data: &[u8], off: usize, n: usize) -> (r: Vec<u8>)
    requires
        off + n <= data@.len(),
    ensures
        r@ == data@.subrange(off as int, off + n),
{
    let len = data.len();
    let sub = vstd::slice::slice_subrange(data, off, off + n);
    vstd::slice::slice_to_vec(sub)
}

} // verus!
