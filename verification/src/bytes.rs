//! Reading numbers out of the bytes of a file.

use vstd::prelude::*;

verus! {

/// The little-endian value of the two bytes at `offset`, or 0 where they
/// do not both lie inside `data`.
pub open spec fn u16_le_at(data: Seq<u8>, offset: int) -> int {
    if 0 <= offset && offset + 2 <= data.len() {
        data[offset] as int + 256 * (data[offset + 1] as int)
    } else {
        0
    }
}

/// Reads a little-endian `u16` at `offset`; out-of-range reads give 0.
pub fn read_u16_le(data: &[u8], offset: usize) -> (r: u16)
    ensures
        r as int == u16_le_at(data@, offset as int),
{
    if data.len() < 2 || offset > data.len() - 2 {
        return 0;
    }
    let lo: u16 = data[offset] as u16;
    let hi: u16 = data[offset + 1] as u16;
    lo + hi * 256
}

/// The little-endian value of the four bytes at `offset`, or 0 where they
/// do not all lie inside `data`.
pub open spec fn u32_le_at(data: Seq<u8>, offset: int) -> int {
    if 0 <= offset && offset + 4 <= data.len() {
        data[offset] as int + 256 * (data[offset + 1] as int) + 65536 * (data[offset + 2] as int)
            + 16777216 * (data[offset + 3] as int)
    } else {
        0
    }
}

/// Reads a little-endian `u32` at `offset`; out-of-range reads give 0.
pub fn read_u32_le(data: &[u8], offset: usize) -> (r: u32)
    ensures
        r as int == u32_le_at(data@, offset as int),
{
    if data.len() < 4 || offset > data.len() - 4 {
        return 0;
    }
    let b0: u32 = data[offset] as u32;
    let b1: u32 = data[offset + 1] as u32;
    let b2: u32 = data[offset + 2] as u32;
    let b3: u32 = data[offset + 3] as u32;
    b0 + b1 * 256 + b2 * 65536 + b3 * 16777216
}

/// Copies `data[from..to]`.
pub fn slice_bytes(data: &[u8], from: usize, to: usize) -> (r: Vec<u8>)
    requires
        from <= to <= data.len(),
    ensures
        r@ == data@.subrange(from as int, to as int),
{
    let mut r: Vec<u8> = Vec::new();
    let mut i: usize = from;
    while i < to
        invariant
            from <= i <= to <= data.len(),
            r@ == data@.subrange(from as int, i as int),
        decreases to - i,
    {
        r.push(data[i]);
        proof {
            assert(data@.subrange(from as int, i as int).push(data@[i as int]) =~= data@.subrange(
                from as int,
                i + 1,
            ));
        }
        i += 1;
    }
    r
}

} // verus!
