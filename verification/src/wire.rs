//! Little-endian integers on the wire.
//!
//! The spec functions say what a run of bytes means as a number. The executable
//! functions hand the work to the `byteorder` crate.

use byteorder::{ByteOrder, LittleEndian};
use vstd::prelude::*;

verus! {

/// The unsigned number held by the first two bytes of `b`, least significant first.
pub open spec fn le_u16(b: Seq<u8>) -> int {
    b[0] as int + 0x100 * (b[1] as int)
}

/// The unsigned number held by the first four bytes of `b`, least significant first.
pub open spec fn le_u32(b: Seq<u8>) -> int {
    b[0] as int + 0x100 * (b[1] as int) + 0x1_0000 * (b[2] as int) + 0x100_0000 * (b[3] as int)
}

/// The unsigned number held by the first eight bytes of `b`, least significant first.
pub open spec fn le_u64(b: Seq<u8>) -> int {
    le_u32(b) + 0x1_0000_0000 * le_u32(b.skip(4))
}

/// The two's complement reading of `value`, an unsigned number below `modulus`.
pub open spec fn signed(value: int, modulus: int) -> int {
    if 2 * value >= modulus {
        value - modulus
    } else {
        value
    }
}

/// The signed number held by the first two bytes of `b`.
pub open spec fn le_i16(b: Seq<u8>) -> int {
    signed(le_u16(b), 0x1_0000)
}

/// The signed number held by the first four bytes of `b`.
pub open spec fn le_i32(b: Seq<u8>) -> int {
    signed(le_u32(b), 0x1_0000_0000)
}

/// The four bytes that hold `n` in two's complement, least significant first.
pub open spec fn i32_le_bytes(n: i32) -> Seq<u8> {
    let u: int = if n < 0 { n + 0x1_0000_0000 } else { n as int };
    seq![
        (u % 0x100) as u8,
        ((u / 0x100) % 0x100) as u8,
        ((u / 0x1_0000) % 0x100) as u8,
        ((u / 0x100_0000) % 0x100) as u8,
    ]
}

/// `byteorder::LittleEndian::read_i16`: the first two bytes of `buf` read as a signed
/// little-endian number. The call panics on a shorter slice.
#[verifier::external_body]
pub(crate) fn read_i16(buf: &[u8]) -> (n: i16)
    requires
        buf@.len() >= 2,
    ensures
        n as int == le_i16(buf@),
{
    LittleEndian::read_i16(buf)
}

/// `byteorder::LittleEndian::read_i32`: the first four bytes of `buf` read as a signed
/// little-endian number. The call panics on a shorter slice.
#[verifier::external_body]
pub(crate) fn read_i32(buf: &[u8]) -> (n: i32)
    requires
        buf@.len() >= 4,
    ensures
        n as int == le_i32(buf@),
{
    LittleEndian::read_i32(buf)
}

/// `byteorder::LittleEndian::read_u32`: the first four bytes of `buf` read as an
/// unsigned little-endian number. The call panics on a shorter slice.
#[verifier::external_body]
pub(crate) fn read_u32(buf: &[u8]) -> (n: u32)
    requires
        buf@.len() >= 4,
    ensures
        n as int == le_u32(buf@),
{
    LittleEndian::read_u32(buf)
}

/// `byteorder::LittleEndian::read_u64`: the first eight bytes of `buf` read as an
/// unsigned little-endian number. The call panics on a shorter slice.
#[verifier::external_body]
pub(crate) fn read_u64(buf: &[u8]) -> (n: u64)
    requires
        buf@.len() >= 8,
    ensures
        n as int == le_u64(buf@),
{
    LittleEndian::read_u64(buf)
}

/// `byteorder::LittleEndian::write_i32` on a buffer of four bytes: the bytes that hold
/// `n` in two's complement, least significant first.
#[verifier::external_body]
pub(crate) fn write_i32(n: i32) -> (bytes: [u8; 4])
    ensures
        bytes@ == i32_le_bytes(n),
{
    let mut bytes = [0u8; 4];
    LittleEndian::write_i32(&mut bytes, n);
    bytes
}

/// Reading back the bytes written for `n` gives `n`.
pub proof fn lemma_write_then_read(n: i32)
    ensures
        i32_le_bytes(n).len() == 4,
        le_i32(i32_le_bytes(n)) == n,
{
}

/// Writing the number read from four bytes gives those bytes.
pub proof fn lemma_read_then_write(b: Seq<u8>)
    requires
        b.len() == 4,
    ensures
        i32_le_bytes(le_i32(b) as i32) == b,
{
    assert(i32_le_bytes(le_i32(b) as i32) =~= b);
}

} // verus!
