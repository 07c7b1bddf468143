//! The receive buffer: what the parser needs of [`bytes::BytesMut`].
//!
//! Every item here is trusted: Verus takes the contracts as they stand, without reading the
//! code of the `bytes` crate.

use std::ops::Deref;

use bytes::BytesMut;
use vstd::prelude::*;

verus! {

/// Declares [`bytes::BytesMut`] to Verus as an opaque type.
#[verifier::external_type_specification]
#[verifier::external_body]
pub struct ExBytesMut(BytesMut);

/// The bytes that a buffer holds, in order.
pub uninterp spec fn contents(buffer: BytesMut) -> Seq<u8>;

/// Whether `extra` more bytes can be appended to a buffer that holds `held` bytes.
///
/// An allocation has at most `isize::MAX` bytes. When a `BytesMut` grows, it may double an
/// allocation of which only the part behind the already consumed bytes is still in use. This
/// bound keeps the result within the limit whatever the present allocation is.
pub open spec fn fits(held: nat, extra: nat) -> bool {
    2 * held + extra <= isize::MAX / 2
}

/// Calls `BytesMut::with_capacity`. The new buffer is empty, whatever its capacity.
#[verifier::external_body]
pub(crate) fn with_capacity(capacity: usize) -> (buffer: BytesMut)
    requires
        capacity <= isize::MAX,
    ensures
        contents(buffer) == Seq::<u8>::empty(),
{
    BytesMut::with_capacity(capacity)
}

/// Calls `<BytesMut as Deref>::deref`. The slice is what the buffer holds.
#[verifier::external_body]
pub(crate) fn as_slice(buffer: &BytesMut) -> (bytes: &[u8])
    ensures
        bytes@ == contents(*buffer),
{
    buffer.deref()
}

/// Calls `BytesMut::extend_from_slice`. The bytes are appended at the end.
#[verifier::external_body]
pub(crate) fn extend_from_slice(buffer: &mut BytesMut, extend: &[u8])
    requires
        fits(contents(*old(buffer)).len(), extend@.len()),
    ensures
        contents(*final(buffer)) == contents(*old(buffer)) + extend@,
{
    buffer.extend_from_slice(extend)
}

/// Calls `BytesMut::split_to`, which panics where `at` is past the end. The first `at` bytes
/// leave the buffer and are handed out; the rest stays.
#[verifier::external_body]
pub(crate) fn split_to(buffer: &mut BytesMut, at: usize) -> (head: BytesMut)
    requires
        at <= contents(*old(buffer)).len(),
    ensures
        contents(head) == contents(*old(buffer)).take(at as int),
        contents(*final(buffer)) == contents(*old(buffer)).skip(at as int),
{
    buffer.split_to(at)
}

} // verus!
