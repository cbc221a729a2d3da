//! Byte buffers of the `bytes` crate, as the decoders see them.

use bytes::{Buf, Bytes, BytesMut};
use vstd::prelude::*;

verus! {

#[verifier::external_type_specification]
#[verifier::external_body]
pub struct ExBytesMut(BytesMut);

#[verifier::external_type_specification]
#[verifier::external_body]
pub struct ExBytes(Bytes);

/// The bytes that a `BytesMut` holds, first to last.
pub uninterp spec fn bytes_mut_view(b: BytesMut) -> Seq<u8>;

/// The bytes that a `Bytes` holds, first to last.
pub uninterp spec fn bytes_view(b: Bytes) -> Seq<u8>;

/// `BytesMut`'s `Deref` to `[u8]`: the slice is exactly the held bytes.
#[verifier::external_body]
pub(crate) fn bytes_mut_as_slice(b: &BytesMut) -> (s: &[u8])
    ensures
        s@ == bytes_mut_view(*b),
{
    &b[..]
}

/// `BytesMut::split_to(at)`: the returned buffer holds the first `at` bytes,
/// and `b` keeps the rest. The crate panics when `at` exceeds the length.
#[verifier::external_body]
pub(crate) fn bytes_mut_split_to(b: &mut BytesMut, at: usize) -> (front: BytesMut)
    requires
        at <= bytes_mut_view(*old(b)).len(),
    ensures
        bytes_mut_view(front) == bytes_mut_view(*old(b)).take(at as int),
        bytes_mut_view(*final(b)) == bytes_mut_view(*old(b)).skip(at as int),
{
    b.split_to(at)
}

/// `Buf::advance(cnt)` on `BytesMut`: drops the first `cnt` bytes. The crate
/// panics when `cnt` exceeds the length.
#[verifier::external_body]
pub(crate) fn bytes_mut_advance(b: &mut BytesMut, cnt: usize)
    requires
        cnt <= bytes_mut_view(*old(b)).len(),
    ensures
        bytes_mut_view(*final(b)) == bytes_mut_view(*old(b)).skip(cnt as int),
{
    b.advance(cnt)
}

/// `Bytes::from(Vec<u8>)`: the bytes are those of the vector.
#[verifier::external_body]
pub(crate) fn bytes_from_vec(v: Vec<u8>) -> (b: Bytes)
    ensures
        bytes_view(b) == v@,
{
    Bytes::from(v)
}

} // verus!

verus! {

/// `Bytes::from(String)`: the UTF-8 bytes of the string.
#[verifier::external_body]
pub(crate) fn bytes_from_string(s: String) -> (b: Bytes)
    ensures
        bytes_view(b) == vstd::utf8::encode_utf8(s@),
{
    Bytes::from(s)
}

} // verus!
