//! Framing of a binary STL file: an 80-byte header, a little-endian triangle count, then one
//! 50-byte record per triangle. Reading the records' coordinates is left to the caller.
use vstd::prelude::*;

verus! {

pub const STL_HEADER: usize = 80;

pub const STL_RECORD: usize = 50;

/// The little-endian `u32` at `at`.
pub open spec fn le_u32(b: Seq<u8>, at: int) -> int {
    b[at] + 256 * b[at + 1] + 65536 * b[at + 2] + 16777216 * b[at + 3]
}

/// The number of triangles when `b` is a binary STL whose length matches its count exactly.
/// Some binary files start with `solid` too, so the length is what tells them from text.
pub open spec fn binary_stl_spec(b: Seq<u8>) -> Option<int> {
    if b.len() >= 84 && 84 + 50 * le_u32(b, 80) == b.len() {
        Some(le_u32(b, 80))
    } else {
        None
    }
}

pub fn binary_stl_count(bytes: &[u8]) -> (r: Option<usize>)
    ensures
        r matches Some(n) ==> binary_stl_spec(bytes@) == Some(n as int),
        r is None ==> binary_stl_spec(bytes@) is None,
{
    if bytes.len() < STL_HEADER + 4 {
        return None;
    }
    let n: u64 = bytes[80] as u64 + 256 * (bytes[81] as u64) + 65536 * (bytes[82] as u64) + 16777216 * (bytes[83] as u64);
    let len = bytes.len() as u64;
    if n * 50 + 84 == len {
        Some(n as usize)
    } else {
        None
    }
}

} // verus!
