use vstd::prelude::*;
use vstd::slice::slice_subrange;
use byteorder::ByteOrder;
use crate::model::u32_at;

verus! {

/// The value of the first four bytes of `b`, least significant byte first.
pub open spec fn le_u32(b: Seq<u8>) -> int {
    b[0] as int + 256 * (b[1] as int) + 65536 * (b[2] as int) + 16777216 * (b[3] as int)
}

/// A little-endian `u32` always fits in 32 bits.
pub proof fn lemma_le_u32_bounds(b: Seq<u8>)
    ensures
        0 <= le_u32(b) <= u32::MAX,
{
}

/// Relies on byteorder's `LittleEndian::read_u32`: it decodes the first four bytes
/// of `buf` as a little-endian integer, and panics when fewer than four are given.
#[verifier::external_body]
fn read_le_u32(buf: &[u8]) -> (r: u32)
    requires
        buf@.len() >= 4,
    ensures
        r as int == le_u32(buf@),
{
    byteorder::LittleEndian::read_u32(buf)
}

/// Decodes the little-endian `u32` stored at `pos` in `data`.
pub fn read_u32_at(data: &[u8], pos: usize) -> (r: u32)
    requires
        pos + 4 <= data@.len(),
    ensures
        r == u32_at(data@, pos as int),
{
    proof {
        lemma_le_u32_bounds(data@.subrange(pos as int, pos + 4));
    }
    let len: usize = data.len();
    assert(pos + 4 <= len);
    read_le_u32(slice_subrange(data, pos, pos + 4))
}

/// Copies the `N` bytes that start at `start` in `data` into an array.
pub fn copy_bytes<const N: usize>(data: &[u8], start: usize) -> (r: [u8; N])
    requires
        start + N <= data@.len(),
    ensures
        r@ == data@.subrange(start as int, start + N),
{
    let len: usize = data.len();
    let mut r: [u8; N] = [0u8; N];
    let mut i: usize = 0;
    while i < N
        invariant
            i <= N,
            start + N <= data@.len(),
            len == data@.len(),
            r@.len() == N,
            forall|k: int| 0 <= k < i ==> r@[k] == data@[start + k],
        decreases N - i,
    {
        r[i] = data[start + i];
        i = i + 1;
    }
    assert(r@ =~= data@.subrange(start as int, start + N));
    r
}

} // verus!
