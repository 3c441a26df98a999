//! Appending little-endian integers to a byte buffer.
//!
//! The pixel data and the header are built up in a `Vec<u8>`. The bytes of
//! each integer are laid down by the `byteorder` crate; what it is trusted to
//! do is stated here, over the arithmetic definition of little-endian order.

use byteorder::{LittleEndian, WriteBytesExt};
use vstd::prelude::*;

verus! {

/// The two bytes of `n`, least significant first.
pub open spec fn le_bytes_u16(n: u16) -> Seq<u8> {
    seq![(n % 256) as u8, (n / 256) as u8]
}

/// The four bytes of `n`, least significant first.
pub open spec fn le_bytes_u32(n: u32) -> Seq<u8> {
    seq![
        (n % 256) as u8,
        (n / 256 % 256) as u8,
        (n / 65536 % 256) as u8,
        (n / 16777216) as u8,
    ]
}

/// The integer whose four bytes, least significant first, are `bytes`.
pub open spec fn u32_from_le_bytes(bytes: Seq<u8>) -> u32
    recommends
        bytes.len() == 4,
{
    (bytes[0] + 256 * bytes[1] + 65536 * bytes[2] + 16777216 * bytes[3]) as u32
}

/// Reading back the bytes of an integer gives the integer, and writing out
/// the integer read from four bytes gives those bytes.
#[verifier::rlimit(50)]
pub proof fn lemma_le_bytes_u32_round_trip(n: u32, bytes: Seq<u8>)
    ensures
        le_bytes_u32(n).len() == 4,
        u32_from_le_bytes(le_bytes_u32(n)) == n,
        bytes.len() == 4 ==> le_bytes_u32(u32_from_le_bytes(bytes)) == bytes,
{
    lemma_split_u32(n);
    if bytes.len() == 4 {
        let m = u32_from_le_bytes(bytes);
        lemma_join_u32(bytes[0], bytes[1], bytes[2], bytes[3]);
        assert(le_bytes_u32(m) =~= bytes);
    }
}

/// An integer is the sum of its four bytes, each at its place.
proof fn lemma_split_u32(n: u32)
    ensures
        n == n % 256 + 256 * (n / 256 % 256) + 65536 * (n / 65536 % 256) + 16777216 * (n
            / 16777216),
        n / 16777216 < 256,
{
    let a = n / 256;
    let b = a / 256;
    let c = b / 256;
    assert(n == 256 * a + n % 256);
    assert(a == 256 * b + a % 256);
    assert(b == 256 * c + b % 256);
    assert(b == n / 65536);
    assert(c == n / 16777216);
}

/// Four bytes, each at its place, sum to an integer that has those bytes.
proof fn lemma_join_u32(b0: u8, b1: u8, b2: u8, b3: u8)
    ensures
        ({
            let n = b0 + 256 * b1 + 65536 * b2 + 16777216 * b3;
            &&& n <= u32::MAX
            &&& n % 256 == b0
            &&& n / 256 % 256 == b1
            &&& n / 65536 % 256 == b2
            &&& n / 16777216 == b3
        }),
{
    let n = b0 + 256 * b1 + 65536 * b2 + 16777216 * b3;
    let a = b1 + 256 * b2 + 65536 * b3;
    let b = b2 + 256 * b3;
    assert(n == 256 * a + b0);
    assert(n / 256 == a);
    assert(a == 256 * b + b1);
    assert(a / 256 == b);
    assert(b / 256 == b3);
    assert(n / 65536 == b);
    assert(n / 16777216 == b3);
}

/// Appends one byte. Calls `byteorder::WriteBytesExt::write_u8` on the
/// buffer, which hands the byte to `Vec`'s `write_all`; that call extends the
/// buffer by the byte and cannot fail.
#[verifier::external_body]
pub(crate) fn put_u8(writer: &mut Vec<u8>, n: u8)
    ensures
        final(writer)@ == old(writer)@.push(n),
{
    writer.write_u8(n).unwrap()
}

/// Appends a 16-bit integer, least significant byte first. Calls
/// `byteorder::WriteBytesExt::write_u16` with `LittleEndian`, which fills a
/// two-byte array from `u16::to_le_bytes` and hands it to `Vec`'s
/// `write_all`.
#[verifier::external_body]
pub(crate) fn put_u16_le(writer: &mut Vec<u8>, n: u16)
    ensures
        final(writer)@ == old(writer)@ + le_bytes_u16(n),
{
    writer.write_u16::<LittleEndian>(n).unwrap()
}

/// Appends a 32-bit integer, least significant byte first. Calls
/// `byteorder::WriteBytesExt::write_u32` with `LittleEndian`, which fills a
/// four-byte array from `u32::to_le_bytes` and hands it to `Vec`'s
/// `write_all`.
#[verifier::external_body]
pub(crate) fn put_u32_le(writer: &mut Vec<u8>, n: u32)
    ensures
        final(writer)@ == old(writer)@ + le_bytes_u32(n),
{
    writer.write_u32::<LittleEndian>(n).unwrap()
}

} // verus!
