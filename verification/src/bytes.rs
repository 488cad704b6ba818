//! Little-endian integer reads out of a byte buffer.

use vstd::prelude::*;

verus! {

/// The 16-bit little-endian value at offset `i`.
pub open spec fn le16(b: Seq<u8>, i: int) -> int {
    b[i] + 0x100 * b[i + 1]
}

/// The 32-bit little-endian value at offset `i`.
pub open spec fn le32(b: Seq<u8>, i: int) -> int {
    le16(b, i) + 0x10000 * le16(b, i + 2)
}

/// The 64-bit little-endian value at offset `i`.
pub open spec fn le64(b: Seq<u8>, i: int) -> int {
    le32(b, i) + 0x100000000 * le32(b, i + 4)
}

pub fn read_u16_le(b: &Vec<u8>, i: usize) -> (r: u16)
    requires
        i + 2 <= b@.len(),
    ensures
        r == le16(b@, i as int),
{
    let n = b.len();
    assert(i + 2 <= n);
    (b[i] as u16) + 0x100 * (b[i + 1] as u16)
}

pub fn read_u32_le(b: &Vec<u8>, i: usize) -> (r: u32)
    requires
        i + 4 <= b@.len(),
    ensures
        r == le32(b@, i as int),
{
    let n = b.len();
    assert(i + 4 <= n);
    (read_u16_le(b, i) as u32) + 0x10000 * (read_u16_le(b, i + 2) as u32)
}

pub fn read_u64_le(b: &Vec<u8>, i: usize) -> (r: u64)
    requires
        i + 8 <= b@.len(),
    ensures
        r == le64(b@, i as int),
{
    let n = b.len();
    assert(i + 8 <= n);
    (read_u32_le(b, i) as u64) + 0x100000000 * (read_u32_le(b, i + 4) as u64)
}

/// Bounds of the spec readers, handy at call sites.
pub proof fn lemma_le16_bounds(b: Seq<u8>, i: int)
    requires
        0 <= i,
        i + 2 <= b.len(),
    ensures
        0 <= le16(b, i) < 0x10000,
{
}

pub proof fn lemma_le32_bounds(b: Seq<u8>, i: int)
    requires
        0 <= i,
        i + 4 <= b.len(),
    ensures
        0 <= le32(b, i) < 0x100000000,
{
}

pub proof fn lemma_le64_bounds(b: Seq<u8>, i: int)
    requires
        0 <= i,
        i + 8 <= b.len(),
    ensures
        0 <= le64(b, i) < 0x10000000000000000,
{
    lemma_le32_bounds(b, i);
    lemma_le32_bounds(b, i + 4);
}

} // verus!
