//! The byte buffers of the `bytes` crate.

use bytes::{Buf, Bytes, BytesMut};
use vstd::prelude::*;

verus! {

#[verifier::external_type_specification]
#[verifier::external_body]
pub struct ExBytesMut(BytesMut);

#[verifier::external_type_specification]
#[verifier::external_body]
pub struct ExBytes(Bytes);

/// The bytes that a `BytesMut` holds.
pub uninterp spec fn bytes_mut_content(buffer: BytesMut) -> Seq<u8>;

/// The bytes that a `Bytes` holds.
pub uninterp spec fn bytes_content(buffer: Bytes) -> Seq<u8>;

/// Calls `BytesMut::with_capacity`, which makes an empty buffer.
#[verifier::external_body]
pub(crate) fn bytes_mut_with_capacity(capacity: usize) -> (buffer: BytesMut)
    requires
        capacity <= isize::MAX,
    ensures
        bytes_mut_content(buffer) == Seq::<u8>::empty(),
{
    BytesMut::with_capacity(capacity)
}

/// Calls `BytesMut::extend_from_slice`, which appends the bytes.
#[verifier::external_body]
pub(crate) fn bytes_mut_put(buffer: &mut BytesMut, value: &[u8])
    ensures
        bytes_mut_content(*final(buffer)) == bytes_mut_content(*old(buffer)) + value@,
{
    buffer.extend_from_slice(value);
}

/// Calls `deref` of `BytesMut`, which borrows the bytes.
#[verifier::external_body]
pub(crate) fn bytes_mut_slice(buffer: &BytesMut) -> (bytes: &[u8])
    ensures
        bytes@ == bytes_mut_content(*buffer),
{
    buffer
}

/// Calls `BytesMut::advance`, which drops the first `count` bytes.
#[verifier::external_body]
pub(crate) fn bytes_mut_advance(buffer: &mut BytesMut, count: usize)
    requires
        count <= bytes_mut_content(*old(buffer)).len(),
    ensures
        bytes_mut_content(*final(buffer)) == bytes_mut_content(*old(buffer)).skip(count as int),
{
    buffer.advance(count);
}

/// Calls `BytesMut::split_to`, which takes the first `at` bytes out of the
/// buffer.
#[verifier::external_body]
pub(crate) fn bytes_mut_split_to(buffer: &mut BytesMut, at: usize) -> (front: BytesMut)
    requires
        at <= bytes_mut_content(*old(buffer)).len(),
    ensures
        bytes_mut_content(front) == bytes_mut_content(*old(buffer)).take(at as int),
        bytes_mut_content(*final(buffer)) == bytes_mut_content(*old(buffer)).skip(at as int),
{
    buffer.split_to(at)
}

/// Calls `BytesMut::freeze`, which keeps the bytes.
#[verifier::external_body]
pub(crate) fn bytes_mut_freeze(buffer: BytesMut) -> (frozen: Bytes)
    ensures
        bytes_content(frozen) == bytes_mut_content(buffer),
{
    buffer.freeze()
}

/// Calls `Bytes::from` on a vector, which keeps its bytes.
#[verifier::external_body]
pub(crate) fn bytes_from_vec(bytes: Vec<u8>) -> (frozen: Bytes)
    ensures
        bytes_content(frozen) == bytes@,
{
    Bytes::from(bytes)
}

} // verus!
