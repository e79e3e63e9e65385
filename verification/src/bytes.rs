//! Little-endian numbers inside a byte sequence.
use vstd::prelude::*;

verus! {

pub open spec fn u16_at(bytes: Seq<u8>, offset: int) -> int {
    bytes[offset] + bytes[offset + 1] * 0x100
}

pub open spec fn u32_at(bytes: Seq<u8>, offset: int) -> int {
    u16_at(bytes, offset) + u16_at(bytes, offset + 2) * 0x1_0000
}

pub open spec fn u64_at(bytes: Seq<u8>, offset: int) -> int {
    u32_at(bytes, offset) + u32_at(bytes, offset + 4) * 0x1_0000_0000
}

pub fn read_u16(bytes: &[u8], offset: usize) -> (value: u16)
    requires
        offset + 2 <= bytes.len(),
    ensures
        value == u16_at(bytes@, offset as int),
{
    bytes[offset] as u16 + bytes[offset + 1] as u16 * 0x100
}

pub fn read_u32(bytes: &[u8], offset: usize) -> (value: u32)
    requires
        offset + 4 <= bytes.len(),
    ensures
        value == u32_at(bytes@, offset as int),
{
    read_u16(bytes, offset) as u32 + read_u16(bytes, offset + 2) as u32 * 0x1_0000
}

pub fn read_u64(bytes: &[u8], offset: usize) -> (value: u64)
    requires
        offset + 8 <= bytes.len(),
    ensures
        value == u64_at(bytes@, offset as int),
{
    read_u32(bytes, offset) as u64 + read_u32(bytes, offset + 4) as u64 * 0x1_0000_0000
}

} // verus!
