//! The byte buffer that frames are built in, and the checksum that seals them.

use bytes::{BufMut, BytesMut};
use vstd::prelude::*;

verus! {

/// A growable byte buffer of the `bytes` crate.
#[verifier::external_type_specification]
#[verifier::external_body]
pub struct ExBytesMut(BytesMut);

/// The bytes that a buffer holds.
pub uninterp spec fn bytes_in(buf: &BytesMut) -> Seq<u8>;

/// The two bytes of a 16-bit number, the high one first.
pub open spec fn be16(n: nat) -> Seq<u8> {
    seq![(n / 0x100 % 0x100) as u8, (n % 0x100) as u8]
}

/// The four bytes of a 32-bit number, the highest first.
pub open spec fn be32(n: nat) -> Seq<u8> {
    seq![
        (n / 0x100_0000 % 0x100) as u8,
        (n / 0x1_0000 % 0x100) as u8,
        (n / 0x100 % 0x100) as u8,
        (n % 0x100) as u8,
    ]
}

/// `BytesMut::new`: a buffer that holds nothing.
#[verifier::external_body]
pub(crate) fn empty() -> (buf: BytesMut)
    ensures
        bytes_in(&buf) == Seq::<u8>::empty(),
{
    BytesMut::new()
}

/// `BytesMut::with_capacity`: a buffer that holds nothing. It panics on a capacity above
/// `isize::MAX`.
#[verifier::external_body]
pub(crate) fn with_capacity(capacity: usize) -> (buf: BytesMut)
    requires
        capacity <= isize::MAX,
    ensures
        bytes_in(&buf) == Seq::<u8>::empty(),
{
    BytesMut::with_capacity(capacity)
}

/// `BufMut::put_u8` on a `BytesMut`: appends one byte. Like the other `put` functions it panics
/// where the buffer would grow past `isize::MAX` bytes.
#[verifier::external_body]
pub(crate) fn put_u8(buf: &mut BytesMut, n: u8)
    requires
        bytes_in(old(buf)).len() + 1 <= isize::MAX,
    ensures
        bytes_in(final(buf)) == bytes_in(old(buf)).push(n),
{
    buf.put_u8(n)
}

/// `BufMut::put_u16` on a `BytesMut`: appends the two bytes of a number, the high one first.
#[verifier::external_body]
pub(crate) fn put_u16(buf: &mut BytesMut, n: u16)
    requires
        bytes_in(old(buf)).len() + 2 <= isize::MAX,
    ensures
        bytes_in(final(buf)) == bytes_in(old(buf)) + be16(n as nat),
{
    buf.put_u16(n)
}

/// `BufMut::put_u32` on a `BytesMut`: appends the four bytes of a number, the highest first.
#[verifier::external_body]
pub(crate) fn put_u32(buf: &mut BytesMut, n: u32)
    requires
        bytes_in(old(buf)).len() + 4 <= isize::MAX,
    ensures
        bytes_in(final(buf)) == bytes_in(old(buf)) + be32(n as nat),
{
    buf.put_u32(n)
}

/// `BufMut::put_slice` on a `BytesMut`: appends the bytes of a slice.
#[verifier::external_body]
pub(crate) fn put_slice(buf: &mut BytesMut, src: &[u8])
    requires
        bytes_in(old(buf)).len() + src@.len() <= isize::MAX,
    ensures
        bytes_in(final(buf)) == bytes_in(old(buf)) + src@,
{
    buf.put_slice(src)
}

/// `BytesMut::as_ref`: the bytes of the buffer as a slice.
#[verifier::external_body]
pub(crate) fn as_slice(buf: &BytesMut) -> (s: &[u8])
    ensures
        s@ == bytes_in(buf),
{
    buf.as_ref()
}

/// The checksum of the `crc32fast` crate (CRC-32 with the IEEE polynomial).
pub uninterp spec fn checksum(bytes: Seq<u8>) -> u32;

/// `crc32fast::Hasher`, fed the bytes in one update: a checksum that depends on the bytes alone.
#[verifier::external_body]
pub(crate) fn crc32(bytes: &[u8]) -> (n: u32)
    ensures
        n == checksum(bytes@),
{
    let mut h = crc32fast::Hasher::new();
    h.update(bytes);
    h.finalize()
}

} // verus!
