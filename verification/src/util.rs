//! Small verified helpers over byte vectors and slices.

use vstd::prelude::*;
use vstd::slice::{slice_subrange, slice_to_vec};
use crate::model::{le16, le32, magic, sentinel};

verus! {

/// The fixed four magic bytes, as a vector.
pub(crate) fn magic_bytes() -> (r: Vec<u8>)
    ensures
        r@ == magic(),
{
    let r = vec![0x50u8, 0x57u8, 0x53u8, 0x33u8];
    proof {
        assert(r@ =~= magic());
    }
    r
}

/// The fixed sentinel block, as a vector.
pub(crate) fn sentinel_bytes() -> (r: Vec<u8>)
    ensures
        r@ == sentinel(),
{
    let r = vec![
        0x50u8, 0x57u8, 0x53u8, 0x33u8, 0x2du8, 0x45u8, 0x4fu8, 0x46u8, 0x50u8, 0x57u8, 0x53u8,
        0x33u8, 0x2du8, 0x45u8, 0x4fu8, 0x46u8,
    ];
    proof {
        assert(r@ =~= sentinel());
    }
    r
}

/// Copies `src[i..j]` into a fresh vector.
pub fn take_range(src: &[u8], i: usize, j: usize) -> (r: Vec<u8>)
    requires
        i <= j <= src@.len(),
    ensures
        r@ == src@.subrange(i as int, j as int),
{
    slice_to_vec(slice_subrange(src, i, j))
}

/// Appends `src[i..j]` to `dst`.
pub fn push_range(dst: &mut Vec<u8>, src: &[u8], i: usize, j: usize)
    requires
        i <= j <= src@.len(),
    ensures
        final(dst)@ == old(dst)@ + src@.subrange(i as int, j as int),
{
    let mut idx: usize = i;
    while idx < j
        invariant
            i <= idx <= j <= src@.len(),
            dst@ == old(dst)@ + src@.subrange(i as int, idx as int),
        decreases j - idx,
    {
        dst.push(src[idx]);
        idx = idx + 1;
        proof {
            assert(src@.subrange(i as int, idx as int) =~= src@.subrange(
                i as int,
                idx - 1,
            ).push(src@[idx - 1]));
        }
    }
    proof {
        assert(dst@ =~= old(dst)@ + src@.subrange(i as int, idx as int));
    }
}

/// Compares two byte slices for equality.
pub fn bytes_eq(a: &[u8], b: &[u8]) -> (r: bool)
    ensures
        r == (a@ == b@),
{
    if a.len() != b.len() {
        return false;
    }
    let mut i: usize = 0;
    while i < a.len()
        invariant
            i <= a@.len(),
            a@.len() == b@.len(),
            forall|m: int| 0 <= m < i ==> a@[m] == b@[m],
        decreases a@.len() - i,
    {
        if a[i] != b[i] {
            return false;
        }
        i = i + 1;
    }
    proof {
        assert(a@ =~= b@);
    }
    true
}

/// Reads a 32-bit little-endian integer from four bytes.
pub fn read_le32(b0: u8, b1: u8, b2: u8, b3: u8) -> (r: u32)
    ensures
        r == le32(seq![b0, b1, b2, b3]),
{
    b0 as u32 + 0x100 * (b1 as u32) + 0x10000 * (b2 as u32) + 0x1000000 * (b3 as u32)
}

/// Reads a 16-bit little-endian integer from two bytes.
pub fn read_le16(b0: u8, b1: u8) -> (r: u16)
    ensures
        r == le16(seq![b0, b1]),
{
    b0 as u16 + 0x100 * (b1 as u16)
}

/// Writes a 32-bit integer as four little-endian bytes.
pub fn write_le32(x: u32) -> (r: Vec<u8>)
    ensures
        r@.len() == 4,
        le32(r@) == x,
{
    let b0: u8 = (x % 0x100) as u8;
    let y1: u32 = x / 0x100;
    let b1: u8 = (y1 % 0x100) as u8;
    let y2: u32 = y1 / 0x100;
    let b2: u8 = (y2 % 0x100) as u8;
    let y3: u32 = y2 / 0x100;
    let b3: u8 = y3 as u8;
    proof {
        assert(y3 < 0x100);
        assert(x == b0 + 0x100 * y1);
        assert(y1 == b1 + 0x100 * y2);
        assert(y2 == b2 + 0x100 * y3);
    }
    let r = vec![b0, b1, b2, b3];
    proof {
        assert(r@ =~= seq![b0, b1, b2, b3]);
        assert(le32(r@) == b0 + 0x100 * b1 + 0x10000 * b2 + 0x1000000 * b3);
    }
    r
}

} // verus!
