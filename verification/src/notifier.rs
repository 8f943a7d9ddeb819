use crate::ring::Ring;
use core::task::{Context, Poll};
use s2n_quic_core::sync::worker::Sender;
use vstd::prelude::*;

verus! {

/// `s2n_quic_core::sync::worker::Sender`: hands units of work to a worker.
#[verifier::external_type_specification]
#[verifier::external_body]
pub struct ExSender(Sender);

/// `Sender::submit` adds `count` units of work to the worker's counter and
/// wakes the worker. It gives nothing back, and nothing is claimed of it.
pub assume_specification[ Sender::submit ](sender: &Sender, count: usize)
;

/// Is told of progress on the transmit ring.
///
/// A notifier may look at the ring. It leaves alone what the ring has
/// published, what is acquired and what the ring was asked for.
pub trait Notifier {
    /// Whether a notifier that is `self` and is told of `count` descriptors
    /// can be `after` once it has been told. A notifier of which no more is
    /// known leaves this open.
    open spec fn told(&self, count: u32, after: &Self) -> bool {
        true
    }

    /// Whether a notifier that is `self` and is told that the ring granted
    /// nothing can be `after` and report `ready`. A notifier of which no more
    /// is known leaves this open.
    open spec fn asked(&self, after: &Self, ready: bool) -> bool {
        true
    }

    /// Tells the notifier that `count` descriptors became visible in the ring.
    /// The ring has published them by then.
    fn notify<R: Ring>(&mut self, ring: &mut R, cx: &mut Context<'_>, count: u32)
        requires
            old(ring).wf(),
            count <= old(ring).published().len(),
        ensures
            old(self).told(count, final(self)),
            final(ring).wf(),
            final(ring).published() == old(ring).published(),
            final(ring).staged() == old(ring).staged(),
            final(ring).requested() == old(ring).requested(),
    ;

    /// Tells the notifier that the ring granted no capacity.
    ///
    /// Ready means that capacity may come without outside help, so that the
    /// caller may try again at once. Pending means that the notifier will wake
    /// the task of `cx` when it is worth trying again.
    fn notify_empty<R: Ring>(&mut self, ring: &mut R, cx: &mut Context<'_>) -> (readiness: Poll<()>)
        requires
            old(ring).wf(),
        ensures
            old(self).asked(final(self), readiness is Ready),
            final(ring).wf(),
            final(ring).published() == old(ring).published(),
            final(ring).staged() == old(ring).staged(),
            final(ring).requested() == old(ring).requested(),
    ;
}

/// What a pair of notifiers reports when its two members reported `first`
/// and `second`: ready if and only if both are ready.
pub fn both_ready(first: Poll<()>, second: Poll<()>) -> (both: Poll<()>)
    ensures
        both is Ready <==> first is Ready && second is Ready,
{
    match (first, second) {
        (Poll::Ready(_), Poll::Ready(_)) => first,
        _ => Poll::Pending,
    }
}

/// The notifier that does nothing and is always ready.
impl Notifier for () {
    /// It reports ready whenever it is asked.
    open spec fn asked(&self, after: &Self, ready: bool) -> bool {
        ready
    }

    #[allow(unused_variables)]
    fn notify<R: Ring>(&mut self, ring: &mut R, cx: &mut Context<'_>, count: u32)
        ensures
            *final(ring) == *old(ring),
    {
    }

    #[allow(unused_variables)]
    fn notify_empty<R: Ring>(&mut self, ring: &mut R, cx: &mut Context<'_>) -> (readiness: Poll<()>)
        ensures
            readiness is Ready,
            *final(ring) == *old(ring),
    {
        Poll::Ready(())
    }
}

/// A pair of notifiers is told what each of its members is told.
impl<A: Notifier, B: Notifier> Notifier for (A, B) {
    /// Each member was told of `count`.
    open spec fn told(&self, count: u32, after: &Self) -> bool {
        &&& self.0.told(count, &after.0)
        &&& self.1.told(count, &after.1)
    }

    /// Each member was asked, and the pair is ready if and only if both
    /// members reported ready.
    open spec fn asked(&self, after: &Self, ready: bool) -> bool {
        exists|first: bool, second: bool|
            {
                &&& #[trigger] self.0.asked(&after.0, first)
                &&& #[trigger] self.1.asked(&after.1, second)
                &&& ready == (first && second)
            }
    }

    fn notify<R: Ring>(&mut self, ring: &mut R, cx: &mut Context<'_>, count: u32)
        ensures
            old(self).0.told(count, &final(self).0),
            old(self).1.told(count, &final(self).1),
    {
        self.0.notify(ring, cx, count);
        self.1.notify(ring, cx, count);
    }

    fn notify_empty<R: Ring>(&mut self, ring: &mut R, cx: &mut Context<'_>) -> (readiness: Poll<()>)
        ensures
            exists|first: bool, second: bool|
                {
                    &&& #[trigger] old(self).0.asked(&final(self).0, first)
                    &&& #[trigger] old(self).1.asked(&final(self).1, second)
                    &&& readiness is Ready <==> first && second
                },
    {
        let first = self.0.notify_empty(ring, cx);
        let second = self.1.notify_empty(ring, cx);
        let both = both_ready(first, second);
        proof {
            let first_ready = first is Ready;
            let second_ready = second is Ready;
            assert(old(self).0.asked(&self.0, first_ready));
            assert(old(self).1.asked(&self.1, second_ready));
            assert(both is Ready <==> first_ready && second_ready);
        }
        both
    }
}

/// Hands each count to a worker as units of work. The worker gives no
/// feedback, so this notifier is always ready.
impl Notifier for Sender {
    /// It reports ready whenever it is asked.
    open spec fn asked(&self, after: &Self, ready: bool) -> bool {
        ready
    }

    #[allow(unused_variables)]
    fn notify<R: Ring>(&mut self, ring: &mut R, cx: &mut Context<'_>, count: u32)
        ensures
            *final(ring) == *old(ring),
    {
        self.submit(count as usize);
    }

    #[allow(unused_variables)]
    fn notify_empty<R: Ring>(&mut self, ring: &mut R, cx: &mut Context<'_>) -> (readiness: Poll<()>)
        ensures
            readiness is Ready,
            *final(ring) == *old(ring),
    {
        Poll::Ready(())
    }
}

/// What a notifier that wakes the ring's consumer through its socket does.
#[derive(Clone, Copy, Debug, PartialEq, Eq)]
pub struct SocketStep {
    /// Whether to issue the wakeup call.
    pub wake: bool,
    /// What to report to the caller, whatever the call returns.
    pub readiness: Poll<()>,
}

/// Decides what a socket notifier does, given the ring's wakeup flag.
///
/// The wakeup call is issued only when the consumer asked for it. The
/// notifier is ready either way.
pub fn socket_step(needs_wakeup: bool) -> (step: SocketStep)
    ensures
        step.wake == needs_wakeup,
        step.readiness is Ready,
{
    SocketStep { wake: needs_wakeup, readiness: Poll::Ready(()) }
}

} // verus!
