//! Fixed-capacity byte buffers of the `heapless` crate, as the library uses
//! them, and what the library relies on of them.
use vstd::prelude::*;

use crate::commands::{MAX_PACKET_SIZE, MAX_PAYLOAD_SIZE};

verus! {

/// `heapless::Vec`, a vector of fixed capacity `N`; opaque to the proofs.
#[verifier::external_type_specification]
#[verifier::external_body]
#[verifier::reject_recursive_types(T)]
pub struct ExHeaplessVec<T, const N: usize>(heapless::Vec<T, N>);

/// Buffer holding the payload of one packet.
pub type PayloadBuf = heapless::Vec<u8, MAX_PAYLOAD_SIZE>;

/// Buffer holding one whole encoded frame.
pub type FrameBuf = heapless::Vec<u8, MAX_PACKET_SIZE>;

/// The bytes that a payload buffer holds, in order.
pub uninterp spec fn payload_bytes(v: heapless::Vec<u8, MAX_PAYLOAD_SIZE>) -> Seq<u8>;

/// The bytes that a frame buffer holds, in order.
pub uninterp spec fn frame_bytes(v: heapless::Vec<u8, MAX_PACKET_SIZE>) -> Seq<u8>;

/// Relies on `heapless::Vec::from_slice`, at the capacity of a payload: it
/// fails exactly when the slice is longer than the capacity, and otherwise
/// holds a copy of the slice.
#[verifier::external_body]
pub(crate) fn payload_from_slice(s: &[u8]) -> (r: Result<PayloadBuf, ()>)
    ensures
        r is Ok <==> s@.len() <= MAX_PAYLOAD_SIZE,
        r is Ok ==> payload_bytes(r->Ok_0) == s@,
{
    heapless::Vec::from_slice(s)
}

/// Relies on `heapless::Vec::as_slice`: the slice is the buffer's contents,
/// which never exceed its capacity.
#[verifier::external_body]
pub(crate) fn payload_as_slice(v: &PayloadBuf) -> (r: &[u8])
    ensures
        r@ == payload_bytes(*v),
        r@.len() <= MAX_PAYLOAD_SIZE,
{
    v.as_slice()
}

/// Relies on `heapless::Vec::from_slice`, at the capacity of a frame: it
/// fails exactly when the slice is longer than the capacity, and otherwise
/// holds a copy of the slice.
#[verifier::external_body]
pub(crate) fn frame_from_slice(s: &[u8]) -> (r: Result<FrameBuf, ()>)
    ensures
        r is Ok <==> s@.len() <= MAX_PACKET_SIZE,
        r is Ok ==> frame_bytes(r->Ok_0) == s@,
{
    heapless::Vec::from_slice(s)
}

} // verus!
