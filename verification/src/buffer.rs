//! The growable output buffer of the `bytes` crate, as the response
//! writers use it.
use bytes::BufMut;
use bytes::BytesMut;
use vstd::prelude::*;

verus! {

#[verifier::external_type_specification]
#[verifier::external_body]
pub struct ExBytesMut(BytesMut);

/// The bytes that a `BytesMut` holds, first to last.
pub uninterp spec fn buf_bytes(b: BytesMut) -> Seq<u8>;

/// Big-endian bytes of a 16-bit integer.
pub open spec fn be16(n: u16) -> Seq<u8> {
    seq![(n / 256) as u8, (n % 256) as u8]
}

/// Big-endian bytes of a 32-bit integer.
pub open spec fn be32(n: u32) -> Seq<u8> {
    seq![(n / 0x100_0000) as u8, ((n / 0x1_0000) % 256) as u8, ((n / 256) % 256) as u8, (n % 256) as u8]
}

/// `BytesMut::new` makes an empty buffer.
pub assume_specification[ BytesMut::new ]() -> (b: BytesMut)
    ensures
        buf_bytes(b) == Seq::<u8>::empty(),
;

/// `BytesMut::with_capacity` makes an empty buffer; the capacity is not
/// part of what the buffer holds.
pub assume_specification[ BytesMut::with_capacity ](capacity: usize) -> (b: BytesMut)
    requires
        capacity <= isize::MAX,
    ensures
        buf_bytes(b) == Seq::<u8>::empty(),
;

/// `BytesMut::len` is the number of bytes held.
pub assume_specification[ BytesMut::len ](b: &BytesMut) -> (n: usize)
    ensures
        n == buf_bytes(*b).len(),
;

/// `BytesMut::extend_from_slice` appends the slice; it panics only when the
/// new length would not fit an allocation.
pub assume_specification[ BytesMut::extend_from_slice ](b: &mut BytesMut, extend: &[u8])
    requires
        buf_bytes(*old(b)).len() + extend@.len() <= isize::MAX,
    ensures
        buf_bytes(*final(b)) == buf_bytes(*old(b)) + extend@,
;

/// Calls `BufMut::put_u8`, which appends one byte.
#[verifier::external_body]
pub(crate) fn put_u8(b: &mut BytesMut, n: u8)
    requires
        buf_bytes(*old(b)).len() + 1 <= isize::MAX,
    ensures
        buf_bytes(*final(b)) == buf_bytes(*old(b)).push(n),
{
    b.put_u8(n)
}

/// Calls `BufMut::put_u16`, which appends the integer in big-endian order.
#[verifier::external_body]
pub(crate) fn put_u16(b: &mut BytesMut, n: u16)
    requires
        buf_bytes(*old(b)).len() + 2 <= isize::MAX,
    ensures
        buf_bytes(*final(b)) == buf_bytes(*old(b)) + be16(n),
{
    b.put_u16(n)
}

/// Calls `BufMut::put_u32`, which appends the integer in big-endian order.
#[verifier::external_body]
pub(crate) fn put_u32(b: &mut BytesMut, n: u32)
    requires
        buf_bytes(*old(b)).len() + 4 <= isize::MAX,
    ensures
        buf_bytes(*final(b)) == buf_bytes(*old(b)) + be32(n),
{
    b.put_u32(n)
}

/// Calls `Extend::extend` with the bytes of another buffer, which are
/// appended in order.
#[verifier::external_body]
pub(crate) fn extend_buf(b: &mut BytesMut, other: BytesMut)
    requires
        buf_bytes(*old(b)).len() + buf_bytes(other).len() <= isize::MAX,
    ensures
        buf_bytes(*final(b)) == buf_bytes(*old(b)) + buf_bytes(other),
{
    b.extend(other)
}

} // verus!
