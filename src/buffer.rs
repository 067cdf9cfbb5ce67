//! The byte buffer that framed transports hand to the codec: `bytes::BytesMut`,
//! seen through the sequence of bytes it holds.

use vstd::prelude::*;
use bytes::BytesMut;

verus! {

/// `bytes::BytesMut`, the read and write buffer of a framed transport; Verus
/// sees it only through `buffer_contents`.
#[verifier::external_type_specification]
#[verifier::external_body]
pub struct ExBytesMut(BytesMut);

/// The bytes that a buffer holds, front first.
pub uninterp spec fn buffer_contents(b: BytesMut) -> Seq<u8>;

/// Relies on `BytesMut::len`: the number of bytes held.
#[verifier::external_body]
pub(crate) fn buf_len(b: &BytesMut) -> (r: usize)
    ensures
        r == buffer_contents(*b).len(),
{
    b.len()
}

/// Relies on `BytesMut` dereferencing to its bytes: the byte at `i`.
#[verifier::external_body]
pub(crate) fn buf_byte(b: &BytesMut, i: usize) -> (r: u8)
    requires
        i < buffer_contents(*b).len(),
    ensures
        r == buffer_contents(*b)[i as int],
{
    b[i]
}

/// Relies on `BytesMut` dereferencing to its bytes: a copy of `start..end`.
#[verifier::external_body]
pub(crate) fn buf_copy(b: &BytesMut, start: usize, end: usize) -> (r: Vec<u8>)
    requires
        start <= end <= buffer_contents(*b).len(),
    ensures
        r@ == buffer_contents(*b).subrange(start as int, end as int),
{
    b[start..end].to_vec()
}

/// Relies on `Buf::advance` for `BytesMut`: drops the first `n` bytes (it
/// panics past the end, which `requires` rules out).
#[verifier::external_body]
pub(crate) fn buf_advance(b: &mut BytesMut, n: usize)
    requires
        n <= buffer_contents(*old(b)).len(),
    ensures
        buffer_contents(*final(b)) == buffer_contents(*old(b)).skip(n as int),
{
    bytes::Buf::advance(b, n)
}

/// Relies on `BytesMut::extend_from_slice`: appends the bytes of `s`.
#[verifier::external_body]
pub(crate) fn buf_extend(b: &mut BytesMut, s: &[u8])
    ensures
        buffer_contents(*final(b)) == buffer_contents(*old(b)) + s@,
{
    b.extend_from_slice(s)
}

/// Relies on `BufMut::put_u8` for `BytesMut`: appends one byte.
#[verifier::external_body]
pub(crate) fn buf_put_u8(b: &mut BytesMut, v: u8)
    ensures
        buffer_contents(*final(b)) == buffer_contents(*old(b)).push(v),
{
    bytes::BufMut::put_u8(b, v)
}

} // verus!
