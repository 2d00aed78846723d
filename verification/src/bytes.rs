//! Little-endian integers in byte strings.

use byteorder::ByteOrder;
use vstd::prelude::*;
use vstd::slice::slice_subrange;

verus! {

/// The 16-bit integer whose little-endian encoding starts `bytes`.
pub open spec fn le_u16(bytes: Seq<u8>) -> u16 {
    (bytes[0] as int + 0x100 * (bytes[1] as int)) as u16
}

/// The 32-bit integer whose little-endian encoding starts `bytes`.
pub open spec fn le_u32(bytes: Seq<u8>) -> u32 {
    (bytes[0] as int + 0x100 * (bytes[1] as int) + 0x1_0000 * (bytes[2] as int) + 0x100_0000 * (
    bytes[3] as int)) as u32
}

/// The 16-bit little-endian integer at `offset` in `bytes`.
pub open spec fn u16_at(bytes: Seq<u8>, offset: int) -> u16 {
    le_u16(bytes.subrange(offset, offset + 2))
}

/// The 32-bit little-endian integer at `offset` in `bytes`.
pub open spec fn u32_at(bytes: Seq<u8>, offset: int) -> u32 {
    le_u32(bytes.subrange(offset, offset + 4))
}

/// `byteorder::LittleEndian::read_u16`: the first two bytes of `buf`, the
/// low byte first. The call panics on a shorter buffer, which the
/// precondition rules out.
#[verifier::external_body]
fn read_u16_le(buf: &[u8]) -> (value: u16)
    requires
        buf@.len() >= 2,
    ensures
        value == le_u16(buf@),
{
    byteorder::LittleEndian::read_u16(buf)
}

/// `byteorder::LittleEndian::read_u32`: the first four bytes of `buf`, the
/// lowest byte first. The call panics on a shorter buffer, which the
/// precondition rules out.
#[verifier::external_body]
fn read_u32_le(buf: &[u8]) -> (value: u32)
    requires
        buf@.len() >= 4,
    ensures
        value == le_u32(buf@),
{
    byteorder::LittleEndian::read_u32(buf)
}

/// Reads the 16-bit little-endian integer at `offset`.
pub fn read_u16_at(bytes: &[u8], offset: usize) -> (value: u16)
    requires
        offset + 2 <= bytes@.len(),
    ensures
        value == u16_at(bytes@, offset as int),
{
    assert(bytes@.len() == bytes.len());
    read_u16_le(slice_subrange(bytes, offset, offset + 2))
}

/// Reads the 32-bit little-endian integer at `offset`.
pub fn read_u32_at(bytes: &[u8], offset: usize) -> (value: u32)
    requires
        offset + 4 <= bytes@.len(),
    ensures
        value == u32_at(bytes@, offset as int),
{
    assert(bytes@.len() == bytes.len());
    read_u32_le(slice_subrange(bytes, offset, offset + 4))
}

} // verus!
