//! Little-endian integers, as the container stores them.

use byteorder::{ByteOrder, LittleEndian};
use vstd::prelude::*;

verus! {

/// The number that two bytes stand for, the low byte first.
#[verifier::opaque]
pub open spec fn u16_of_le(bytes: Seq<u8>) -> int {
    bytes[0] as int + bytes[1] as int * 0x100
}

/// The number that four bytes stand for, the lowest byte first.
#[verifier::opaque]
pub open spec fn u32_of_le(bytes: Seq<u8>) -> int {
    bytes[0] as int + bytes[1] as int * 0x100 + bytes[2] as int * 0x1_0000 + bytes[3] as int
        * 0x100_0000
}

/// The two bytes of `value`, the low byte first.
#[verifier::opaque]
pub open spec fn le_of_u16(value: u16) -> Seq<u8> {
    seq![(value as int % 0x100) as u8, (value as int / 0x100) as u8]
}

/// The four bytes of `value`, the lowest byte first.
#[verifier::opaque]
pub open spec fn le_of_u32(value: u32) -> Seq<u8> {
    seq![
        (value as int % 0x100) as u8,
        (value as int / 0x100 % 0x100) as u8,
        (value as int / 0x1_0000 % 0x100) as u8,
        (value as int / 0x100_0000) as u8,
    ]
}

/// The number that bytes stand for fits the bytes.
pub proof fn lemma_le_bounds(bytes: Seq<u8>)
    ensures
        bytes.len() >= 2 ==> 0 <= u16_of_le(bytes) <= 0xFFFF,
        bytes.len() >= 4 ==> 0 <= u32_of_le(bytes) <= 0xFFFF_FFFF,
{
    reveal(u16_of_le);
    reveal(u32_of_le);
}

/// Reading the bytes of a number gives the number.
pub proof fn lemma_le_round_trip_u16(value: u16)
    ensures
        le_of_u16(value).len() == 2,
        u16_of_le(le_of_u16(value)) == value,
{
    reveal(le_of_u16);
    reveal(u16_of_le);
}

/// Reading the bytes of a number gives the number.
pub proof fn lemma_le_round_trip_u32(value: u32)
    ensures
        le_of_u32(value).len() == 4,
        u32_of_le(le_of_u32(value)) == value,
{
    reveal(le_of_u32);
    reveal(u32_of_le);
}

/// `byteorder::LittleEndian::read_u16`: the number in the first two bytes of
/// `buf`, the low byte first. The call panics on a shorter slice, which the
/// precondition rules out.
#[verifier::external_body]
pub(crate) fn read_u16_le(buf: &[u8]) -> (value: u16)
    requires
        buf@.len() >= 2,
    ensures
        value == u16_of_le(buf@),
{
    LittleEndian::read_u16(buf)
}

/// `byteorder::LittleEndian::read_u32`: the number in the first four bytes
/// of `buf`, the lowest byte first. The call panics on a shorter slice,
/// which the precondition rules out.
#[verifier::external_body]
pub(crate) fn read_u32_le(buf: &[u8]) -> (value: u32)
    requires
        buf@.len() >= 4,
    ensures
        value == u32_of_le(buf@),
{
    LittleEndian::read_u32(buf)
}

/// `byteorder::LittleEndian::write_u16`, on a buffer of two bytes: the bytes
/// of `value`, the low byte first.
#[verifier::external_body]
pub(crate) fn write_u16_le(value: u16) -> (bytes: [u8; 2])
    ensures
        bytes@ == le_of_u16(value),
{
    let mut bytes = [0u8; 2];
    LittleEndian::write_u16(&mut bytes, value);
    bytes
}

/// `byteorder::LittleEndian::write_u32`, on a buffer of four bytes: the
/// bytes of `value`, the lowest byte first.
#[verifier::external_body]
pub(crate) fn write_u32_le(value: u32) -> (bytes: [u8; 4])
    ensures
        bytes@ == le_of_u32(value),
{
    let mut bytes = [0u8; 4];
    LittleEndian::write_u32(&mut bytes, value);
    bytes
}

/// Appends `bytes` to `out`.
pub fn append_bytes(out: &mut Vec<u8>, bytes: &[u8])
    ensures
        final(out)@ == old(out)@ + bytes@,
{
    let mut i: usize = 0;
    while i < bytes.len()
        invariant
            0 <= i <= bytes@.len(),
            out@ == old(out)@ + bytes@.take(i as int),
        decreases bytes@.len() - i,
    {
        out.push(bytes[i]);
        i = i + 1;
        proof {
            assert(out@ =~= old(out)@ + bytes@.take(i as int));
        }
    }
    proof {
        assert(bytes@.take(i as int) =~= bytes@);
    }
}

} // verus!
