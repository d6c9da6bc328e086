//! Numbers in a sequence of bytes, lowest byte first.
use vstd::prelude::*;

verus! {

/// The 16-bit number at `at`.
pub open spec fn u16_at(data: Seq<u8>, at: int) -> int {
    data[at] + 0x100 * data[at + 1]
}

/// The 32-bit number at `at`.
pub open spec fn u32_at(data: Seq<u8>, at: int) -> int {
    u16_at(data, at) + 0x1_0000 * u16_at(data, at + 2)
}

/// Reads the 16-bit number at `at`.
pub fn read_u16(data: &[u8], at: usize) -> (r: u32)
    requires
        at + 2 <= data@.len(),
    ensures
        r == u16_at(data@, at as int),
        r == data@[at as int] + 256 * data@[at + 1],
        r <= 0xffff,
{
    let bound = data.len();
    assert(at + 2 <= bound);
    data[at] as u32 + 0x100 * (data[at + 1] as u32)
}

/// Reads the 32-bit number at `at`.
pub fn read_u32(data: &[u8], at: usize) -> (r: u32)
    requires
        at + 4 <= data@.len(),
    ensures
        r == u32_at(data@, at as int),
        r == data@[at as int] + 256 * data@[at + 1] + 65_536 * data@[at + 2] + 16_777_216
            * data@[at + 3],
{
    let bound = data.len();
    assert(at + 4 <= bound);
    read_u16(data, at) + 0x1_0000 * read_u16(data, at + 2)
}

} // verus!
