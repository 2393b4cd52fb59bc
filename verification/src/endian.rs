//! Fixed-width integers as they lie on disk, read and written through the
//! `byteorder` crate.

use byteorder::{BigEndian, ByteOrder, LittleEndian};
use vstd::prelude::*;

verus! {

/// Value of the first two bytes, least significant first.
pub open spec fn le_u16(b: Seq<u8>) -> int {
    b[0] as int + 256 * (b[1] as int)
}

/// Value of the first four bytes, least significant first.
pub open spec fn le_u32(b: Seq<u8>) -> int {
    b[0] as int + 256 * (b[1] as int) + 65536 * (b[2] as int) + 16777216 * (b[3] as int)
}

/// Value of the first eight bytes, least significant first.
pub open spec fn le_u64(b: Seq<u8>) -> int {
    le_u32(b) + 4294967296 * le_u32(b.skip(4))
}

/// Value of the first two bytes, most significant first.
pub open spec fn be_u16(b: Seq<u8>) -> int {
    256 * (b[0] as int) + b[1] as int
}

/// Value of the first four bytes, most significant first.
pub open spec fn be_u32(b: Seq<u8>) -> int {
    16777216 * (b[0] as int) + 65536 * (b[1] as int) + 256 * (b[2] as int) + b[3] as int
}

/// The two's-complement reading of an unsigned 32-bit value.
pub open spec fn signed32(v: int) -> int {
    if v >= 0x8000_0000 {
        v - 0x1_0000_0000
    } else {
        v
    }
}

/// The unsigned 32-bit value whose two's-complement reading is `n`.
pub open spec fn unsigned32(n: int) -> int {
    if n < 0 {
        n + 0x1_0000_0000
    } else {
        n
    }
}

/// The four bytes of `v`, least significant first.
pub open spec fn u32_le(v: int) -> Seq<u8> {
    seq![
        (v % 256) as u8,
        ((v / 256) % 256) as u8,
        ((v / 65536) % 256) as u8,
        ((v / 16777216) % 256) as u8,
    ]
}

/// The eight bytes of `v`, least significant first.
pub open spec fn u64_le(v: int) -> Seq<u8> {
    u32_le(v % 0x1_0000_0000) + u32_le(v / 0x1_0000_0000)
}

/// Four bytes written for a 32-bit value read back as that value.
pub proof fn lemma_u32_le_round_trip(v: int)
    requires
        0 <= v < 0x1_0000_0000,
    ensures
        u32_le(v).len() == 4,
        le_u32(u32_le(v)) == v,
        unsigned32(signed32(v)) == v,
{
}

/// A signed 32-bit value survives the way through its unsigned form.
pub proof fn lemma_signed32_round_trip(n: int)
    requires
        -0x8000_0000 <= n < 0x8000_0000,
    ensures
        0 <= unsigned32(n) < 0x1_0000_0000,
        signed32(unsigned32(n)) == n,
        signed32(le_u32(u32_le(unsigned32(n)))) == n,
{
    lemma_u32_le_round_trip(unsigned32(n));
}

/// Eight bytes written for a 64-bit value read back as that value.
pub proof fn lemma_u64_le_round_trip(v: int)
    requires
        0 <= v < 0x1_0000_0000_0000_0000,
    ensures
        u64_le(v).len() == 8,
        le_u64(u64_le(v)) == v,
{
    let low = v % 0x1_0000_0000;
    let high = v / 0x1_0000_0000;
    lemma_u32_le_round_trip(low);
    lemma_u32_le_round_trip(high);
    assert(u64_le(v).skip(4) =~= u32_le(high));
    assert(le_u32(u64_le(v)) == le_u32(u32_le(low)));
}

/// `byteorder::LittleEndian::read_u16`: the first two bytes of `buf` read
/// least significant first. The call panics on fewer than two bytes.
#[verifier::external_body]
pub(crate) fn read_u16_le(buf: &[u8]) -> (r: u16)
    requires
        buf@.len() >= 2,
    ensures
        r as int == le_u16(buf@),
{
    LittleEndian::read_u16(buf)
}

/// `byteorder::LittleEndian::read_u32`: the first four bytes of `buf` read
/// least significant first. The call panics on fewer than four bytes.
#[verifier::external_body]
pub(crate) fn read_u32_le(buf: &[u8]) -> (r: u32)
    requires
        buf@.len() >= 4,
    ensures
        r as int == le_u32(buf@),
{
    LittleEndian::read_u32(buf)
}

/// `byteorder::LittleEndian::read_i32`: as `read_u32`, the value then taken
/// as two's complement.
#[verifier::external_body]
pub(crate) fn read_i32_le(buf: &[u8]) -> (r: i32)
    requires
        buf@.len() >= 4,
    ensures
        r as int == signed32(le_u32(buf@)),
{
    LittleEndian::read_i32(buf)
}

/// `byteorder::LittleEndian::read_u64`: the first eight bytes of `buf` read
/// least significant first. The call panics on fewer than eight bytes.
#[verifier::external_body]
pub(crate) fn read_u64_le(buf: &[u8]) -> (r: u64)
    requires
        buf@.len() >= 8,
    ensures
        r as int == le_u64(buf@),
{
    LittleEndian::read_u64(buf)
}

/// `byteorder::BigEndian::read_u16`: the first two bytes of `buf` read most
/// significant first. The call panics on fewer than two bytes.
#[verifier::external_body]
pub(crate) fn read_u16_be(buf: &[u8]) -> (r: u16)
    requires
        buf@.len() >= 2,
    ensures
        r as int == be_u16(buf@),
{
    BigEndian::read_u16(buf)
}

/// `byteorder::BigEndian::read_u32`: the first four bytes of `buf` read most
/// significant first. The call panics on fewer than four bytes.
#[verifier::external_body]
pub(crate) fn read_u32_be(buf: &[u8]) -> (r: u32)
    requires
        buf@.len() >= 4,
    ensures
        r as int == be_u32(buf@),
{
    BigEndian::read_u32(buf)
}

/// `byteorder::LittleEndian::write_i32` on a fresh four-byte buffer: the
/// two's-complement form of `n`, least significant byte first.
#[verifier::external_body]
pub(crate) fn i32_le_bytes(n: i32) -> (r: [u8; 4])
    ensures
        r@ == u32_le(unsigned32(n as int)),
{
    let mut buf = [0u8; 4];
    LittleEndian::write_i32(&mut buf, n);
    buf
}

/// `byteorder::LittleEndian::write_u64` on a fresh eight-byte buffer: the
/// bytes of `n`, least significant first.
#[verifier::external_body]
pub(crate) fn u64_le_bytes(n: u64) -> (r: [u8; 8])
    ensures
        r@ == u64_le(n as int),
{
    let mut buf = [0u8; 8];
    LittleEndian::write_u64(&mut buf, n);
    buf
}

} // verus!
