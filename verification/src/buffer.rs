//! The byte buffer that the codecs read from and write to.

use bytes::BytesMut;
use vstd::prelude::*;

verus! {

/// A growable byte buffer of the `bytes` crate.
#[verifier::external_type_specification]
#[verifier::external_body]
pub struct ExBytesMut(bytes::BytesMut);

/// The error of an input or output operation, carried and never looked into.
#[verifier::external_type_specification]
#[verifier::external_body]
pub struct ExIoError(std::io::Error);

/// The bytes that a buffer holds, first to last.
pub uninterp spec fn contents(buf: BytesMut) -> Seq<u8>;

/// The bytes of a buffer.
///
/// Trusted: dereferencing a `BytesMut` (`<BytesMut as Deref>::deref`) gives a slice of
/// the bytes that it holds.
#[verifier::external_body]
pub(crate) fn bytes_of(buf: &BytesMut) -> (bytes: &[u8])
    ensures
        bytes@ == contents(*buf),
{
    buf
}

/// Takes the first `at` bytes off a buffer.
///
/// Trusted: `BytesMut::split_to` returns a buffer with the first `at` bytes and leaves
/// the others; it panics where there are fewer than `at`.
#[verifier::external_body]
pub(crate) fn split_to(buf: &mut BytesMut, at: usize) -> (front: BytesMut)
    requires
        at <= contents(*old(buf)).len(),
    ensures
        contents(front) == contents(*old(buf)).take(at as int),
        contents(*final(buf)) == contents(*old(buf)).skip(at as int),
{
    buf.split_to(at)
}

/// The most bytes that a buffer is made to hold.
///
/// A buffer that runs out of space asks for up to twice the space that it takes, the bytes
/// that were taken off its front included, and no piece of memory is longer than half of
/// `usize::MAX`. With this many bytes it stays below that.
pub const MAX_LENGTH: usize = usize::MAX / 8;

/// An eighth of all the bytes that can be counted have room in a buffer.
pub proof fn law_max_length()
    ensures
        8 * MAX_LENGTH <= usize::MAX < 8 * (MAX_LENGTH + 1),
{
}

/// Whether a buffer can take `count` more bytes.
pub fn has_room(buf: &BytesMut, count: usize) -> (room: bool)
    ensures
        room == (contents(*buf).len() + count <= MAX_LENGTH),
{
    let held = bytes_of(buf).len();
    held <= MAX_LENGTH && count <= MAX_LENGTH - held
}

/// Appends bytes to a buffer.
///
/// Trusted: `<BytesMut as Extend<&u8>>::extend` puts the bytes behind those that the buffer
/// holds. It panics where the space that it asks for overflows, which [`MAX_LENGTH`] keeps
/// from happening.
#[verifier::external_body]
pub(crate) fn extend(buf: &mut BytesMut, bytes: &[u8])
    requires
        contents(*old(buf)).len() + bytes@.len() <= MAX_LENGTH,
    ensures
        contents(*final(buf)) == contents(*old(buf)) + bytes@,
{
    buf.extend(bytes)
}

}
