//! The byte buffers of the `bytes` crate, as this library sees them.
//!
//! Nothing in this module is proved. Each item states what the `bytes` crate
//! documents of one of its functions, over the sequence of bytes that a
//! buffer holds. Running out of memory is outside these contracts.

use crate::endian::{u16_be, u16_from_be, u32_be, u32_from_be};
use bytes::{Buf, BufMut, Bytes, BytesMut};
use vstd::prelude::*;

verus! {

/// `bytes::BytesMut`, a growable byte buffer that is written at its end and
/// read from its front.
#[verifier::external_type_specification]
#[verifier::external_body]
pub struct ExBytesMut(BytesMut);

/// `bytes::Bytes`, an immutable byte buffer.
#[verifier::external_type_specification]
#[verifier::external_body]
pub struct ExBytes(Bytes);

/// The bytes that a `BytesMut` holds, front first.
pub uninterp spec fn buf_view(buf: BytesMut) -> Seq<u8>;

/// The bytes that a `Bytes` holds, front first.
pub uninterp spec fn bytes_view(bytes: Bytes) -> Seq<u8>;

/// `BytesMut::new`: a buffer that holds no bytes.
pub assume_specification[ BytesMut::new ]() -> (buf: BytesMut)
    ensures
        buf_view(buf) == Seq::<u8>::empty(),
;

/// `BytesMut::with_capacity`: a buffer that holds no bytes, whatever the
/// capacity. The capacity is bounded as an allocation is.
pub assume_specification[ BytesMut::with_capacity ](capacity: usize) -> (buf: BytesMut)
    requires
        capacity <= isize::MAX,
    ensures
        buf_view(buf) == Seq::<u8>::empty(),
;

/// `BytesMut::len`: the number of bytes held.
pub assume_specification[ BytesMut::len ](buf: &BytesMut) -> (n: usize)
    ensures
        n == buf_view(*buf).len(),
;

/// `BytesMut::extend_from_slice`: appends the bytes of `extend`.
pub assume_specification[ BytesMut::extend_from_slice ](buf: &mut BytesMut, extend: &[u8])
    ensures
        buf_view(*final(buf)) == buf_view(*old(buf)) + extend@,
;

/// `BytesMut::split_to`: takes the first `at` bytes off the front and
/// returns them; the buffer keeps the rest. Panics where `at` exceeds the
/// length, which `requires` leaves out.
pub assume_specification[ BytesMut::split_to ](buf: &mut BytesMut, at: usize) -> (head: BytesMut)
    requires
        at <= buf_view(*old(buf)).len(),
    ensures
        buf_view(head) == buf_view(*old(buf)).subrange(0, at as int),
        buf_view(*final(buf)) == buf_view(*old(buf)).subrange(
            at as int,
            buf_view(*old(buf)).len() as int,
        ),
;

/// `BytesMut::freeze`: the same bytes, immutable from now on.
pub assume_specification[ BytesMut::freeze ](buf: BytesMut) -> (bytes: Bytes)
    ensures
        bytes_view(bytes) == buf_view(buf),
;

/// `BufMut::put_u8` on a `BytesMut`: appends one byte.
#[verifier::external_body]
pub(crate) fn put_u8(buf: &mut BytesMut, n: u8)
    ensures
        buf_view(*final(buf)) == buf_view(*old(buf)).push(n),
{
    buf.put_u8(n)
}

/// `BufMut::put_u16` on a `BytesMut`: appends the two bytes of `n` in
/// big-endian order.
#[verifier::external_body]
pub(crate) fn put_u16(buf: &mut BytesMut, n: u16)
    ensures
        buf_view(*final(buf)) == buf_view(*old(buf)) + u16_be(n),
{
    buf.put_u16(n)
}

/// `BufMut::put_u32` on a `BytesMut`: appends the four bytes of `n` in
/// big-endian order.
#[verifier::external_body]
pub(crate) fn put_u32(buf: &mut BytesMut, n: u32)
    ensures
        buf_view(*final(buf)) == buf_view(*old(buf)) + u32_be(n),
{
    buf.put_u32(n)
}

/// `BufMut::put_slice` on a `BytesMut`: appends the bytes of `src`.
#[verifier::external_body]
pub(crate) fn put_slice(buf: &mut BytesMut, src: &[u8])
    ensures
        buf_view(*final(buf)) == buf_view(*old(buf)) + src@,
{
    buf.put_slice(src)
}

/// `Buf::get_u8` on a `BytesMut`: takes one byte off the front. Panics on an
/// empty buffer, which `requires` leaves out.
#[verifier::external_body]
pub(crate) fn get_u8(buf: &mut BytesMut) -> (n: u8)
    requires
        buf_view(*old(buf)).len() >= 1,
    ensures
        n == buf_view(*old(buf))[0],
        buf_view(*final(buf)) == buf_view(*old(buf)).skip(1),
{
    buf.get_u8()
}

/// `Buf::get_u16` on a `BytesMut`: takes two bytes off the front and reads
/// them in big-endian order. Panics on fewer than two bytes.
#[verifier::external_body]
pub(crate) fn get_u16(buf: &mut BytesMut) -> (n: u16)
    requires
        buf_view(*old(buf)).len() >= 2,
    ensures
        n == u16_from_be(buf_view(*old(buf))),
        buf_view(*final(buf)) == buf_view(*old(buf)).skip(2),
{
    buf.get_u16()
}

/// `Buf::get_u32` on a `BytesMut`: takes four bytes off the front and reads
/// them in big-endian order. Panics on fewer than four bytes.
#[verifier::external_body]
pub(crate) fn get_u32(buf: &mut BytesMut) -> (n: u32)
    requires
        buf_view(*old(buf)).len() >= 4,
    ensures
        n == u32_from_be(buf_view(*old(buf))),
        buf_view(*final(buf)) == buf_view(*old(buf)).skip(4),
{
    buf.get_u32()
}

/// `Buf::copy_to_slice` on a `BytesMut`: fills `dst` from the front of the
/// buffer and takes those bytes off. Panics where the buffer holds fewer
/// bytes than `dst`.
#[verifier::external_body]
pub(crate) fn copy_to_slice<const N: usize>(buf: &mut BytesMut, dst: &mut [u8; N])
    requires
        buf_view(*old(buf)).len() >= N,
    ensures
        final(dst)@ == buf_view(*old(buf)).subrange(0, N as int),
        buf_view(*final(buf)) == buf_view(*old(buf)).skip(N as int),
{
    buf.copy_to_slice(dst)
}

/// `Deref` of a `BytesMut`: the bytes held, as a slice.
#[verifier::external_body]
pub(crate) fn buf_as_slice(buf: &BytesMut) -> (s: &[u8])
    ensures
        s@ == buf_view(*buf),
{
    buf
}

/// `Deref` of a `Bytes`: the bytes held, as a slice.
#[verifier::external_body]
pub(crate) fn bytes_as_slice(bytes: &Bytes) -> (s: &[u8])
    ensures
        s@ == bytes_view(*bytes),
{
    bytes
}

} // verus!
