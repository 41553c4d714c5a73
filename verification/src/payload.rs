//! Payload buffers.
//!
//! A payload is a `bytes::Bytes`: immutable and shared by reference count.
//! The verifier sees such a buffer only through [`payload_bytes`].

use vstd::prelude::*;
use bytes::Bytes;

verus! {

/// Makes `bytes::Bytes` known to the verifier as a type whose inside it
/// does not see.
#[verifier::external_type_specification]
#[verifier::external_body]
pub struct ExBytes(bytes::Bytes);

/// The bytes that a buffer holds, in order.
pub uninterp spec fn payload_bytes(buffer: Bytes) -> Seq<u8>;

/// Calls `Bytes::copy_from_slice`, which copies the slice into a new buffer.
/// Trusted: the buffer holds the bytes of the slice, in order.
#[verifier::external_body]
pub(crate) fn copy_payload(data: &[u8]) -> (buffer: Bytes)
    ensures
        payload_bytes(buffer) == data@,
{
    Bytes::copy_from_slice(data)
}

/// Reads a buffer through its `Deref` to `[u8]` and copies that slice with
/// `to_vec`. Trusted: the vector holds the bytes of the buffer, in order.
#[verifier::external_body]
pub(crate) fn payload_to_vec(buffer: &Bytes) -> (data: Vec<u8>)
    ensures
        data@ == payload_bytes(*buffer),
{
    buffer.to_vec()
}

} // verus!
