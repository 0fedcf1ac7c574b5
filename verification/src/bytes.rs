//! Little-endian integer layouts, as the container stores every number.
//!
//! The spec functions give the arithmetic meaning of a byte group; the
//! executable conversions are `byteorder`'s, taken on trust at the item level.

use byteorder::{ByteOrder, LittleEndian};
use vstd::arithmetic::div_mod::lemma_fundamental_div_mod_converse;
use vstd::prelude::*;

verus! {

/// The value of the first two bytes of `b` as an unsigned little-endian integer.
pub open spec fn le_u16(b: Seq<u8>) -> int {
    b[0] as int + 0x100 * (b[1] as int)
}

/// The value of the first four bytes of `b` as an unsigned little-endian integer.
pub open spec fn le_u32(b: Seq<u8>) -> int {
    b[0] as int + 0x100 * (b[1] as int) + 0x1_0000 * (b[2] as int) + 0x100_0000 * (b[3] as int)
}

/// The value of the first four bytes of `b` as a two's complement
/// little-endian integer.
pub open spec fn le_i32(b: Seq<u8>) -> int {
    if le_u32(b) >= 0x8000_0000 {
        le_u32(b) - 0x1_0000_0000
    } else {
        le_u32(b)
    }
}

/// The value of the first eight bytes of `b` as an unsigned little-endian integer.
pub open spec fn le_u64(b: Seq<u8>) -> int {
    le_u32(b) + 0x1_0000_0000 * le_u32(b.skip(4))
}

/// The two bytes that store `v` in little-endian order.
pub open spec fn u16_le_bytes(v: u16) -> Seq<u8> {
    seq![(v % 0x100) as u8, (v / 0x100) as u8]
}

/// The four bytes that store `v` in little-endian order.
pub open spec fn u32_le_bytes(v: u32) -> Seq<u8> {
    seq![
        (v % 0x100) as u8,
        ((v / 0x100) % 0x100) as u8,
        ((v / 0x1_0000) % 0x100) as u8,
        (v / 0x100_0000) as u8,
    ]
}

/// The unsigned 32-bit integer with the same bit pattern as `v`.
pub open spec fn i32_bits(v: i32) -> u32 {
    if v < 0 {
        (v + 0x1_0000_0000) as u32
    } else {
        v as u32
    }
}

/// The four bytes that store `v` in two's complement little-endian order.
pub open spec fn i32_le_bytes(v: i32) -> Seq<u8> {
    u32_le_bytes(i32_bits(v))
}

/// Reading back what was written gives the number that was written.
pub proof fn lemma_le_u32_of_bytes(v: u32)
    ensures
        u32_le_bytes(v).len() == 4,
        le_u32(u32_le_bytes(v)) == v,
{
}

/// Writing the number that four bytes hold gives those four bytes back.
pub proof fn lemma_bytes_of_le_u32(b: Seq<u8>)
    requires
        b.len() == 4,
    ensures
        0 <= le_u32(b) <= u32::MAX,
        u32_le_bytes(le_u32(b) as u32) == b,
{
    let v = le_u32(b);
    let hi1 = b[1] as int + 0x100 * (b[2] as int) + 0x1_0000 * (b[3] as int);
    let hi2 = b[2] as int + 0x100 * (b[3] as int);
    lemma_fundamental_div_mod_converse(v, 0x100, hi1, b[0] as int);
    lemma_fundamental_div_mod_converse(hi1, 0x100, hi2, b[1] as int);
    lemma_fundamental_div_mod_converse(v, 0x1_0000, hi2, b[0] as int + 0x100 * (b[1] as int));
    lemma_fundamental_div_mod_converse(hi2, 0x100, b[3] as int, b[2] as int);
    lemma_fundamental_div_mod_converse(
        v,
        0x100_0000,
        b[3] as int,
        b[0] as int + 0x100 * (b[1] as int) + 0x1_0000 * (b[2] as int),
    );
    assert(u32_le_bytes(v as u32) =~= b);
}

/// Reading back what was written gives the number that was written.
pub proof fn lemma_le_u16_of_bytes(v: u16)
    ensures
        u16_le_bytes(v).len() == 2,
        le_u16(u16_le_bytes(v)) == v,
{
}

/// Reading back what was written gives the number that was written, and
/// writing the number that four bytes hold gives those four bytes back.
pub proof fn lemma_le_i32_roundtrip(v: i32, b: Seq<u8>)
    requires
        b.len() == 4,
    ensures
        le_i32(i32_le_bytes(v)) == v,
        i32::MIN <= le_i32(b) <= i32::MAX,
        i32_le_bytes(le_i32(b) as i32) == b,
{
    lemma_le_u32_of_bytes(i32_bits(v));
    lemma_bytes_of_le_u32(b);
}

/// `byteorder::LittleEndian::read_u16`: the first two bytes of `buf`, the
/// first one least significant. It panics on a shorter buffer, which the
/// precondition leaves out.
#[verifier::external_body]
pub(crate) fn read_u16_le(buf: &[u8]) -> (v: u16)
    requires
        buf@.len() >= 2,
    ensures
        v == le_u16(buf@),
{
    LittleEndian::read_u16(buf)
}

/// `byteorder::LittleEndian::read_u32`: the first four bytes of `buf`, the
/// first one least significant. It panics on a shorter buffer, which the
/// precondition leaves out.
#[verifier::external_body]
pub(crate) fn read_u32_le(buf: &[u8]) -> (v: u32)
    requires
        buf@.len() >= 4,
    ensures
        v == le_u32(buf@),
{
    LittleEndian::read_u32(buf)
}

/// `byteorder::LittleEndian::read_i32`: the first four bytes of `buf` as a
/// two's complement number, the first byte least significant. It panics on a
/// shorter buffer, which the precondition leaves out.
#[verifier::external_body]
pub(crate) fn read_i32_le(buf: &[u8]) -> (v: i32)
    requires
        buf@.len() >= 4,
    ensures
        v == le_i32(buf@),
{
    LittleEndian::read_i32(buf)
}

/// `byteorder::LittleEndian::read_u64`: the first eight bytes of `buf`, the
/// first one least significant. It panics on a shorter buffer, which the
/// precondition leaves out.
#[verifier::external_body]
pub(crate) fn read_u64_le(buf: &[u8]) -> (v: u64)
    requires
        buf@.len() >= 8,
    ensures
        v == le_u64(buf@),
{
    LittleEndian::read_u64(buf)
}

/// `byteorder::LittleEndian::write_u32` into a fresh four-byte array: the low
/// byte of `v` first.
#[verifier::external_body]
pub(crate) fn write_u32_le(v: u32) -> (out: [u8; 4])
    ensures
        out@ == u32_le_bytes(v),
{
    let mut out = [0u8; 4];
    LittleEndian::write_u32(&mut out, v);
    out
}

} // verus!
