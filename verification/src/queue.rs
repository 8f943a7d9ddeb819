use crate::descriptor::Descriptor;
use core::task::{Context, Poll};
use s2n_quic_core::sync::spsc::{ClosedError, Receiver};
use vstd::prelude::*;

verus! {

/// `s2n_quic_core::sync::spsc::Receiver`: the receiving side of a bounded
/// queue with one producer and one consumer.
#[verifier::external_type_specification]
#[verifier::external_body]
#[verifier::reject_recursive_types(T)]
pub struct ExReceiver<T>(Receiver<T>);

/// `s2n_quic_core::sync::spsc::ClosedError`: the queue is closed and drained.
#[verifier::external_type_specification]
#[verifier::external_body]
pub struct ExClosedError(ClosedError);

/// The descriptors that the receiving side of the queue has seen and not yet
/// released, oldest first.
pub uninterp spec fn queued(receiver: Receiver<Descriptor>) -> Seq<Descriptor>;

/// Calls `Receiver::poll_slice` and drops the slice it hands out.
///
/// The call looks for descriptors that the sending side has added, which come
/// behind those already seen. It is ready with `Ok` when there is at least one
/// descriptor to read. It is ready with the error when the queue is closed and
/// drained, and pending, with the waker of `cx` registered, when the queue is
/// open and empty.
#[verifier::external_body]
pub(crate) fn poll_queue(receiver: &mut Receiver<Descriptor>, cx: &mut Context<'_>) -> (polled: Poll<
    Result<(), ClosedError>,
>)
    ensures
        queued(*old(receiver)).is_prefix_of(queued(*final(receiver))),
        polled matches Poll::Ready(Ok(_)) <==> queued(*final(receiver)).len() > 0,
{
    receiver.poll_slice(cx).map_ok(|_| ())
}

/// Calls `Receiver::len`: the number of descriptors seen and not yet released.
#[verifier::external_body]
pub(crate) fn queue_len(receiver: &Receiver<Descriptor>) -> (len: usize)
    ensures
        len == queued(*receiver).len(),
{
    receiver.len()
}

/// Calls `RecvSlice::peek` on the receiver's slice and copies out the two
/// segments it returns.
///
/// The call first looks for descriptors that the sending side has added. The
/// front segment followed by the wrapped segment is then all that the receiver
/// has to read, oldest first. Nothing is released.
#[verifier::external_body]
pub(crate) fn peek_queue(receiver: &mut Receiver<Descriptor>) -> (segments: (
    Vec<Descriptor>,
    Vec<Descriptor>,
))
    ensures
        queued(*old(receiver)).is_prefix_of(queued(*final(receiver))),
        segments.0@ + segments.1@ == queued(*final(receiver)),
{
    let mut slice = receiver.slice();
    let (front, wrap) = slice.peek();
    (front.to_vec(), wrap.to_vec())
}

/// Calls `RecvSlice::release` on the receiver's slice: the oldest `count`
/// descriptors leave the queue and their slots go back to the sending side.
#[verifier::external_body]
pub(crate) fn release_queue(receiver: &mut Receiver<Descriptor>, count: usize)
    requires
        count <= queued(*old(receiver)).len(),
    ensures
        queued(*final(receiver)) == queued(*old(receiver)).skip(count as int),
{
    receiver.slice().release(count)
}

} // verus!
