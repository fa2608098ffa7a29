use vstd::prelude::*;

verus! {

/// The little-endian unsigned value of the four bytes of `b` at `off`.
pub open spec fn le_u32_at(b: Seq<u8>, off: int) -> int {
    b[off] + b[off + 1] * 256 + b[off + 2] * 0x1_0000 + b[off + 3] * 0x100_0000
}

/// The little-endian unsigned value of the eight bytes of `b` at `off`.
pub open spec fn le_u64_at(b: Seq<u8>, off: int) -> int {
    le_u32_at(b, off) + le_u32_at(b, off + 4) * 0x1_0000_0000
}

/// Reads a little-endian `u32` at `offset`.
pub fn le_u32(bytes: &[u8], offset: usize) -> (value: u32)
    requires
        offset + 4 <= bytes@.len(),
    ensures
        value == le_u32_at(bytes@, offset as int),
{
    let b0 = bytes[offset] as u32;
    let b1 = bytes[offset + 1] as u32;
    let b2 = bytes[offset + 2] as u32;
    let b3 = bytes[offset + 3] as u32;
    b0 + b1 * 256 + b2 * 0x1_0000 + b3 * 0x100_0000
}

/// Reads a little-endian `u64` at `offset`.
pub fn le_u64(bytes: &[u8], offset: usize) -> (value: u64)
    requires
        offset + 8 <= bytes@.len(),
    ensures
        value == le_u64_at(bytes@, offset as int),
{
    // the slice's length is a usize, so `offset + 4` cannot overflow
    let _len = bytes.len();
    let low = le_u32(bytes, offset) as u64;
    let high = le_u32(bytes, offset + 4) as u64;
    low + high * 0x1_0000_0000
}

/// The bytes held by an optional buffer.
pub open spec fn opt_bytes(o: Option<Vec<u8>>) -> Option<Seq<u8>> {
    match o {
        Some(v) => Some(v@),
        None => None,
    }
}

} // verus!
