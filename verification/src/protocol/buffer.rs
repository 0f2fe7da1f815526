//! The receive buffer. It is a `bytes::BytesMut`; what is stated of it here
//! is taken on trust from that crate, and the codec is proved against it.

use bytes::{Buf, BytesMut};
use vstd::prelude::*;
use vstd::utf8::{decode_utf8, valid_utf8};

verus! {

/// `bytes::BytesMut`, as a type whose values are opaque: all that is known
/// of one is what the functions below say of the bytes that it holds.
#[verifier::external_type_specification]
#[verifier::external_body]
pub struct ExBytesMut(bytes::BytesMut);

/// The bytes that a buffer holds, front first.
pub uninterp spec fn buffer_bytes(buf: BytesMut) -> Seq<u8>;

/// `BytesMut::len`: the number of bytes in the buffer.
#[verifier::external_body]
pub(crate) fn buffer_len(buf: &BytesMut) -> (n: usize)
    ensures
        n == buffer_bytes(*buf).len(),
{
    buf.len()
}

/// Indexing through `BytesMut`'s `Deref` to a byte slice: the byte at
/// position `i`, the buffer left as it is.
#[verifier::external_body]
pub(crate) fn buffer_byte(buf: &BytesMut, i: usize) -> (b: u8)
    requires
        i < buffer_bytes(*buf).len(),
    ensures
        b == buffer_bytes(*buf)[i as int],
{
    buf[i]
}

/// `Buf::advance` on a `BytesMut`: drops the first `cnt` bytes. It panics
/// when fewer are there, which the precondition excludes.
#[verifier::external_body]
pub(crate) fn buffer_advance(buf: &mut BytesMut, cnt: usize)
    requires
        cnt <= buffer_bytes(*old(buf)).len(),
    ensures
        buffer_bytes(*final(buf)) == buffer_bytes(*old(buf)).skip(cnt as int),
{
    buf.advance(cnt)
}

/// `BytesMut::split_to`: hands out the first `at` bytes as a buffer of their
/// own and keeps the rest. It panics when `at` exceeds the length, which the
/// precondition excludes.
#[verifier::external_body]
pub(crate) fn buffer_split_to(buf: &mut BytesMut, at: usize) -> (front: BytesMut)
    requires
        at <= buffer_bytes(*old(buf)).len(),
    ensures
        buffer_bytes(front) == buffer_bytes(*old(buf)).take(at as int),
        buffer_bytes(*final(buf)) == buffer_bytes(*old(buf)).skip(at as int),
{
    buf.split_to(at)
}

/// `Buf::get_u8` on a `BytesMut`: takes the first byte off the buffer. It
/// panics on an empty buffer, which the precondition excludes.
#[verifier::external_body]
pub(crate) fn buffer_get_u8(buf: &mut BytesMut) -> (b: u8)
    requires
        buffer_bytes(*old(buf)).len() >= 1,
    ensures
        b == buffer_bytes(*old(buf))[0],
        buffer_bytes(*final(buf)) == buffer_bytes(*old(buf)).skip(1),
{
    buf.get_u8()
}

/// `Buf::get_u16` on a `BytesMut`: takes the first two bytes off the buffer
/// and reads them as a big-endian number. It panics when fewer than two
/// bytes are there, which the precondition excludes.
#[verifier::external_body]
pub(crate) fn buffer_get_u16(buf: &mut BytesMut) -> (v: u16)
    requires
        buffer_bytes(*old(buf)).len() >= 2,
    ensures
        v == be16(buffer_bytes(*old(buf))[0], buffer_bytes(*old(buf))[1]),
        buffer_bytes(*final(buf)) == buffer_bytes(*old(buf)).skip(2),
{
    buf.get_u16()
}

/// `to_vec` on a range of the byte slice that a `BytesMut` dereferences
/// to: a copy of the bytes from position `from` up to `to`, the buffer left
/// as it is. The range must lie inside the buffer, else slicing panics.
#[verifier::external_body]
pub(crate) fn buffer_copy(buf: &BytesMut, from: usize, to: usize) -> (v: Vec<u8>)
    requires
        from <= to <= buffer_bytes(*buf).len(),
    ensures
        v@ == buffer_bytes(*buf).subrange(from as int, to as int),
{
    buf[from..to].to_vec()
}

/// `String::from_utf8`: the string that the bytes spell, if they are valid
/// UTF-8, and nothing otherwise.
#[verifier::external_body]
pub(crate) fn string_from_utf8(bytes: Vec<u8>) -> (s: Option<String>)
    ensures
        s.is_some() <==> valid_utf8(bytes@),
        s.is_some() ==> s.unwrap()@ == decode_utf8(bytes@),
{
    match String::from_utf8(bytes) {
        Ok(s) => Some(s),
        Err(_) => None,
    }
}

/// The number that two bytes spell, most significant byte first.
pub open spec fn be16(hi: u8, lo: u8) -> u16 {
    (hi as u16 * 256 + lo as u16) as u16
}

} // verus!
