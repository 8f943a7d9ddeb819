use crate::descriptor::Descriptor;
use crate::flow::{lemma_advance_order, Flow};
use crate::notifier::Notifier;
use crate::queue::{peek_queue, poll_queue, queue_len, queued, release_queue};
use crate::ring::Ring;
use crate::segments::{copy_segments, min_len};
use core::task::{Context, Poll};
use s2n_quic_core::sync::spsc::{ClosedError, Receiver};
use vstd::prelude::*;

verus! {

/// The most passes that one resumption makes before it yields.
pub const ITERATION_CAP: u32 = 10;

/// What one pass over the queue and the ring came to.
#[derive(Clone, Copy, Debug, PartialEq, Eq)]
pub enum Pass {
    /// The queue is open and has nothing to read.
    Idle,
    /// The queue is closed and drained.
    Closed,
    /// The queue had `available` descriptors and the ring granted nothing.
    Starved {
        available: u32,
        /// Whether the notifier reported ready.
        ready: bool,
    },
    /// The queue had `available` descriptors, the ring granted `granted`
    /// slots and `copied` descriptors went from the queue into the ring.
    Moved { available: u32, granted: u32, copied: u32 },
}

/// Why a resumption ended.
#[derive(Clone, Copy, Debug, PartialEq, Eq)]
pub enum Outcome {
    /// The queue is closed and drained. The driver is not to be resumed again.
    Completed,
    /// The queue is empty. New arrivals wake the task.
    Idle,
    /// The ring is full and the notifier is not ready. The notifier wakes the task.
    Blocked,
    /// The cap on passes was reached. The task is to be scheduled again.
    Yielded,
}

/// What one resumption did.
#[derive(Clone, Copy, Debug, PartialEq, Eq)]
pub struct Resumption {
    pub outcome: Outcome,
    /// The passes that moved descriptors.
    pub batches: u32,
    /// The passes in which the ring granted nothing and the notifier was ready.
    pub retries: u32,
    /// The descriptors that went from the queue into the ring.
    pub moved: u64,
}

/// What a resumption has done so far.
#[derive(Clone, Copy, Debug, PartialEq, Eq)]
pub struct Progress {
    /// The passes that moved descriptors.
    pub batches: u32,
    /// The passes in which the ring granted nothing and the notifier was ready.
    pub retries: u32,
    /// The descriptors that went from the queue into the ring.
    pub moved: u64,
}

/// How a resumption goes on after a pass.
#[derive(Clone, Copy, Debug, PartialEq, Eq)]
pub enum Step {
    /// The next pass follows at once.
    Go(Progress),
    /// The resumption ends with this report.
    End(Resumption),
}

/// What a poll of the driver answers, and whether it schedules the task again.
#[derive(Clone, Copy, Debug, PartialEq, Eq)]
pub struct Answer {
    pub polled: Poll<()>,
    /// Whether the task's own waker is to be woken.
    pub reschedule: bool,
}

/// How many slots to ask the ring for when the queue holds `len` descriptors.
pub fn request_size(len: usize) -> (requested: u32)
    ensures
        requested == min_len(len as nat, u32::MAX as nat),
{
    if len <= u32::MAX as usize {
        len as u32
    } else {
        u32::MAX
    }
}

/// What a pass comes to at once when the queue was polled: nothing yet where
/// the queue has descriptors to read, `Closed` where it is closed and drained,
/// `Idle` where it is open and empty.
pub fn pass_on_queue(polled: Poll<Result<(), ClosedError>>) -> (early: Option<Pass>)
    ensures
        early == match polled {
            Poll::Ready(Ok(_)) => None,
            Poll::Ready(Err(_)) => Some(Pass::Closed),
            Poll::Pending => Some(Pass::Idle),
        },
{
    match polled {
        Poll::Ready(Ok(_)) => None,
        Poll::Ready(Err(_)) => Some(Pass::Closed),
        Poll::Pending => Some(Pass::Idle),
    }
}

/// The report of a resumption that ends with `outcome` after `progress`.
pub open spec fn ended(progress: Progress, outcome: Outcome) -> Resumption {
    Resumption {
        outcome,
        batches: progress.batches,
        retries: progress.retries,
        moved: progress.moved,
    }
}

/// How a resumption goes on once a pass was counted: it yields when the cap
/// on passes is reached.
pub open spec fn capped(progress: Progress) -> Step {
    if progress.batches + progress.retries >= ITERATION_CAP {
        Step::End(ended(progress, Outcome::Yielded))
    } else {
        Step::Go(progress)
    }
}

/// How a resumption goes on after `progress` and one more pass.
///
/// An empty queue suspends it and a closed queue completes it. A pass that
/// moved descriptors counts as a batch. A pass in which the ring granted
/// nothing counts as a retry when the notifier was ready, and suspends the
/// resumption when it was not.
pub open spec fn next_step(progress: Progress, pass: Pass) -> Step {
    match pass {
        Pass::Idle => Step::End(ended(progress, Outcome::Idle)),
        Pass::Closed => Step::End(ended(progress, Outcome::Completed)),
        Pass::Starved { available, ready } => if ready {
            capped(
                Progress {
                    batches: progress.batches,
                    retries: (progress.retries + 1) as u32,
                    moved: progress.moved,
                },
            )
        } else {
            Step::End(ended(progress, Outcome::Blocked))
        },
        Pass::Moved { available, granted, copied } => capped(
            Progress {
                batches: (progress.batches + 1) as u32,
                retries: progress.retries,
                moved: (progress.moved + copied) as u64,
            },
        ),
    }
}

/// How a resumption stands after the passes of `passes`, made one after the
/// other from its start. Nothing follows the pass that ended it.
pub open spec fn progress_after(passes: Seq<Pass>) -> Step
    decreases passes.len(),
{
    if passes.len() == 0 {
        Step::Go(Progress { batches: 0, retries: 0, moved: 0 })
    } else {
        match progress_after(passes.drop_last()) {
            Step::Go(progress) => next_step(progress, passes.last()),
            Step::End(report) => Step::End(report),
        }
    }
}

/// Whether the next pass follows a pass at once, as far as the cap allows:
/// it moved descriptors, or the ring granted nothing and the notifier was ready.
pub open spec fn continues(pass: Pass) -> bool {
    match pass {
        Pass::Moved { .. } => true,
        Pass::Starved { available, ready } => ready,
        _ => false,
    }
}

/// Whether a resumption whose last pass came to `last` can end with `outcome`.
pub open spec fn ends_with(last: Pass, outcome: Outcome) -> bool {
    match outcome {
        Outcome::Completed => last is Closed,
        Outcome::Idle => last is Idle,
        Outcome::Blocked => last is Starved && !continues(last),
        Outcome::Yielded => continues(last),
    }
}

/// How many of `passes` moved descriptors.
pub open spec fn batches_of(passes: Seq<Pass>) -> nat
    decreases passes.len(),
{
    if passes.len() == 0 {
        0
    } else {
        batches_of(passes.drop_last()) + if passes.last() is Moved {
            1nat
        } else {
            0nat
        }
    }
}

/// In how many of `passes` the ring granted nothing and the notifier was ready.
pub open spec fn retries_of(passes: Seq<Pass>) -> nat
    decreases passes.len(),
{
    if passes.len() == 0 {
        0
    } else {
        retries_of(passes.drop_last()) + match passes.last() {
            Pass::Starved { available, ready } => if ready {
                1nat
            } else {
                0nat
            },
            _ => 0nat,
        }
    }
}

/// How many descriptors `passes` copied, which is the sum of the counts that
/// the ring and the queue released and that the notifier was told.
pub open spec fn copied_of(passes: Seq<Pass>) -> nat
    decreases passes.len(),
{
    if passes.len() == 0 {
        0
    } else {
        copied_of(passes.drop_last()) + match passes.last() {
            Pass::Moved { available, granted, copied } => copied as nat,
            _ => 0nat,
        }
    }
}

/// A resumption that goes on after `passes` has counted each of them: each
/// was a batch or a retry, and there are fewer of them than the cap.
pub proof fn lemma_going(passes: Seq<Pass>)
    requires
        progress_after(passes) is Go,
    ensures
        passes.len() < ITERATION_CAP,
        forall|i: int| 0 <= i < passes.len() ==> continues(#[trigger] passes[i]),
        progress_after(passes)->Go_0.batches == batches_of(passes),
        progress_after(passes)->Go_0.retries == retries_of(passes),
        progress_after(passes)->Go_0.moved == copied_of(passes),
        batches_of(passes) + retries_of(passes) == passes.len(),
        copied_of(passes) <= batches_of(passes) * u32::MAX,
    decreases passes.len(),
{
    if passes.len() > 0 {
        let earlier = passes.drop_last();
        lemma_going(earlier);
        assert forall|i: int| 0 <= i < passes.len() implies continues(#[trigger] passes[i]) by {
            if i < earlier.len() {
                assert(passes[i] == earlier[i]);
            }
        }
    }
}

/// Fairness and the shape of a resumption. The passes of one resumption are
/// at most as many as the cap. Each but the last was a batch or a retry. The
/// last one decides the outcome: the resumption completes on a closed queue,
/// suspends on an empty queue or on a notifier that is not ready, and yields
/// when the cap is reached. The report counts the batches, the retries and
/// the descriptors copied.
pub proof fn lemma_resumption_shape(passes: Seq<Pass>, report: Resumption)
    requires
        passes.len() > 0,
        progress_after(passes.drop_last()) is Go,
        progress_after(passes) == Step::End(report),
    ensures
        passes.len() <= ITERATION_CAP,
        forall|i: int| 0 <= i < passes.len() - 1 ==> continues(#[trigger] passes[i]),
        ends_with(passes.last(), report.outcome),
        report.outcome is Yielded <==> passes.len() == ITERATION_CAP && continues(passes.last()),
        report.batches == batches_of(passes),
        report.retries == retries_of(passes),
        report.moved == copied_of(passes),
        report.batches + report.retries == if continues(passes.last()) {
            passes.len()
        } else {
            (passes.len() - 1) as nat
        },
{
    let earlier = passes.drop_last();
    lemma_going(earlier);
    assert forall|i: int| 0 <= i < passes.len() - 1 implies continues(#[trigger] passes[i]) by {
        assert(passes[i] == earlier[i]);
    }
}

/// Counts a pass and decides how the resumption goes on.
pub fn step(progress: Progress, pass: Pass) -> (next: Step)
    requires
        progress.batches < u32::MAX,
        progress.retries < u32::MAX,
        progress.moved + u32::MAX <= u64::MAX,
    ensures
        next == next_step(progress, pass),
{
    let counted = match pass {
        Pass::Idle => {
            return Step::End(
                Resumption {
                    outcome: Outcome::Idle,
                    batches: progress.batches,
                    retries: progress.retries,
                    moved: progress.moved,
                },
            );
        },
        Pass::Closed => {
            return Step::End(
                Resumption {
                    outcome: Outcome::Completed,
                    batches: progress.batches,
                    retries: progress.retries,
                    moved: progress.moved,
                },
            );
        },
        Pass::Starved { available: _, ready } => {
            if !ready {
                return Step::End(
                    Resumption {
                        outcome: Outcome::Blocked,
                        batches: progress.batches,
                        retries: progress.retries,
                        moved: progress.moved,
                    },
                );
            }
            Progress {
                batches: progress.batches,
                retries: progress.retries + 1,
                moved: progress.moved,
            }
        },
        Pass::Moved { available: _, granted: _, copied } => Progress {
            batches: progress.batches + 1,
            retries: progress.retries,
            moved: progress.moved + copied as u64,
        },
    };
    if counted.batches as u64 + counted.retries as u64 >= ITERATION_CAP as u64 {
        Step::End(
            Resumption {
                outcome: Outcome::Yielded,
                batches: counted.batches,
                retries: counted.retries,
                moved: counted.moved,
            },
        )
    } else {
        Step::Go(counted)
    }
}

/// What a poll answers to the outcome of its resumption: ready when the
/// driver completed and pending otherwise. Only a resumption that yielded
/// schedules the task again by itself.
pub fn answer(outcome: Outcome) -> (answer: Answer)
    ensures
        answer.polled is Ready <==> outcome is Completed,
        answer.reschedule <==> outcome is Yielded,
{
    match outcome {
        Outcome::Completed => Answer { polled: Poll::Ready(()), reschedule: false },
        Outcome::Yielded => Answer { polled: Poll::Pending, reschedule: true },
        Outcome::Idle | Outcome::Blocked => Answer { polled: Poll::Pending, reschedule: false },
    }
}

/// Moves descriptors from a queue into a transmit ring.
pub struct Tx<R: Ring, N: Notifier> {
    pub outgoing: Receiver<Descriptor>,
    pub ring: R,
    pub notifier: N,
}

impl<R: Ring, N: Notifier> Tx<R, N> {
    /// Where the descriptors in the driver's charge are.
    pub open spec fn flow(&self) -> Flow {
        Flow { published: self.ring.published(), queued: queued(self.outgoing) }
    }

    /// Whether a driver that was `before` can be `after` once it made a pass
    /// that came to `pass`.
    ///
    /// - `Idle`, `Closed`: the queue is empty, and ring and notifier are as
    ///   they were.
    /// - `Starved`: the ring was asked for as many slots as the queue holds
    ///   descriptors and holds none. Nothing was published. The notifier was
    ///   asked and reported `ready`.
    /// - `Moved`: the ring was asked for as many slots as the queue held
    ///   descriptors and granted some. As many descriptors, the oldest of the
    ///   queue, were published in their order and left the queue, and the
    ///   notifier was told of that many.
    pub open spec fn passed(before: Self, after: Self, pass: Pass) -> bool {
        &&& after.ring.wf()
        &&& before.flow().advances_to(after.flow())
        &&& match pass {
            Pass::Idle | Pass::Closed => {
                &&& after.ring == before.ring
                &&& after.notifier == before.notifier
                &&& after.flow().queued.len() == 0
            },
            Pass::Starved { available, ready } => {
                &&& after.flow().published == before.flow().published
                &&& after.flow().queued.len() > 0
                &&& available == min_len(after.flow().queued.len(), u32::MAX as nat)
                &&& after.ring.requested() == available
                &&& after.ring.staged().len() == 0
                &&& before.notifier.asked(&after.notifier, ready)
            },
            Pass::Moved { available, granted, copied } => {
                &&& 0 < copied
                &&& copied == granted
                &&& granted <= available
                &&& available >= min_len(before.flow().queued.len(), u32::MAX as nat)
                &&& available <= before.flow().queued.len() + before.flow().arrived(
                    after.flow(),
                ).len()
                &&& after.ring.requested() == available
                &&& after.ring.staged().len() == 0
                &&& before.flow().released(after.flow()).len() == copied
                &&& before.flow().released(after.flow()) == (before.flow().queued
                    + before.flow().arrived(after.flow())).take(copied as int)
                &&& before.notifier.told(copied, &after.notifier)
            },
        }
    }

    /// Whether the driver went from `before` to `after` through `states`,
    /// by the passes of `passes`, one after the other.
    pub open spec fn is_trace(before: Self, after: Self, states: Seq<Self>, passes: Seq<Pass>) -> bool {
        &&& states.len() == passes.len() + 1
        &&& states[0] == before
        &&& states[states.len() - 1] == after
        &&& forall|i: int|
            0 <= i < passes.len() ==> Self::passed(states[i], states[i + 1], #[trigger] passes[i])
    }

    /// Whether a driver that was `before` can be `after` once it was resumed
    /// and reported `report`: it made passes one after the other, the report
    /// counts them, and the last of them is the one that ended the resumption.
    pub open spec fn resumed(before: Self, after: Self, report: Resumption) -> bool {
        exists|states: Seq<Self>, passes: Seq<Pass>|
            {
                &&& #[trigger] Self::is_trace(before, after, states, passes)
                &&& passes.len() > 0
                &&& progress_after(passes.drop_last()) is Go
                &&& progress_after(passes) == Step::End(report)
            }
    }

    /// No overrun: in each pass of a resumption the ring is asked for as many
    /// slots as the queue holds descriptors, it grants no more than that, and
    /// as many descriptors are copied as it granted.
    pub proof fn lemma_no_overrun(before: Self, after: Self, states: Seq<Self>, passes: Seq<Pass>)
        requires
            Self::is_trace(before, after, states, passes),
        ensures
            forall|i: int|
                0 <= i < passes.len() ==> match #[trigger] passes[i] {
                    Pass::Moved { available, granted, copied } => {
                        &&& states[i + 1].ring.requested() == available
                        &&& 0 < copied
                        &&& copied == granted
                        &&& granted <= available
                        &&& available <= states[i].flow().queued.len() + states[i].flow().arrived(
                            states[i + 1].flow(),
                        ).len()
                    },
                    Pass::Starved { available, ready } => {
                        &&& states[i + 1].ring.requested() == available
                        &&& available <= states[i + 1].flow().queued.len()
                    },
                    _ => true,
                },
    {
        assert forall|i: int| 0 <= i < passes.len() implies match #[trigger] passes[i] {
            Pass::Moved { available, granted, copied } => {
                &&& states[i + 1].ring.requested() == available
                &&& 0 < copied
                &&& copied == granted
                &&& granted <= available
                &&& available <= states[i].flow().queued.len() + states[i].flow().arrived(
                    states[i + 1].flow(),
                ).len()
            },
            Pass::Starved { available, ready } => {
                &&& states[i + 1].ring.requested() == available
                &&& available <= states[i + 1].flow().queued.len()
            },
            _ => true,
        } by {
            assert(Self::passed(states[i], states[i + 1], passes[i]));
        }
    }

    /// The pass that ended a resumption decides its outcome. A resumption
    /// completes only on a pass that found the queue closed, and it is
    /// blocked only on a pass in which the notifier reported that it is not
    /// ready.
    pub proof fn lemma_last_pass(before: Self, after: Self, report: Resumption)
        requires
            Self::resumed(before, after, report),
        ensures
            exists|earlier: Self, last: Pass|
                {
                    &&& #[trigger] Self::passed(earlier, after, last)
                    &&& ends_with(last, report.outcome)
                },
    {
        let (states, passes) = choose|states: Seq<Self>, passes: Seq<Pass>|
            {
                &&& #[trigger] Self::is_trace(before, after, states, passes)
                &&& passes.len() > 0
                &&& progress_after(passes.drop_last()) is Go
                &&& progress_after(passes) == Step::End(report)
            };
        lemma_resumption_shape(passes, report);
        let at = passes.len() - 1;
        assert(Self::passed(states[at], states[at + 1], passes[at]));
    }

    /// A driver that takes descriptors from `outgoing`, puts them into `ring`
    /// and tells `notifier`.
    pub fn new(outgoing: Receiver<Descriptor>, ring: R, notifier: N) -> (tx: Self)
        ensures
            tx.outgoing == outgoing,
            tx.ring == ring,
            tx.notifier == notifier,
    {
        Tx { outgoing, ring, notifier }
    }

    /// Makes one pass: looks into the queue, asks the ring for as many slots
    /// as the queue has descriptors, copies what fits, releases it on both
    /// sides and tells the notifier.
    pub fn pass(&mut self, cx: &mut Context<'_>) -> (pass: Pass)
        requires
            old(self).ring.wf(),
        ensures
            Self::passed(*old(self), *final(self), pass),
    {
        let polled = poll_queue(&mut self.outgoing, cx);
        if let Some(early) = pass_on_queue(polled) {
            return early;
        }
        let available = request_size(queue_len(&self.outgoing));
        let granted = self.ring.acquire(available);
        if granted == 0 {
            let ready = match self.notifier.notify_empty(&mut self.ring, cx) {
                Poll::Ready(_) => true,
                Poll::Pending => false,
            };
            return Pass::Starved { available, ready };
        }
        let (head, tail) = peek_queue(&mut self.outgoing);
        let ghost window = queued(self.outgoing);
        let ghost published = self.ring.published();
        let (front, wrap) = self.ring.data();
        let count = copy_segments(head.as_slice(), tail.as_slice(), front, wrap);
        assert(count == granted);
        assert(self.ring.staged().take(count as int) =~= window.take(count as int));
        self.ring.release(count as u32);
        release_queue(&mut self.outgoing, count);
        self.notifier.notify(&mut self.ring, cx, count as u32);
        proof {
            let before = old(self).flow();
            let after = self.flow();
            assert(after.stream() =~= published + window);
            assert(before.stream().is_prefix_of(after.stream()));
            assert(before.arrived(after) =~= window.skip(before.queued.len() as int));
            assert(before.queued + before.arrived(after) =~= window);
            assert(before.released(after) =~= window.take(count as int));
        }
        Pass::Moved { available, granted, copied: count as u32 }
    }

    /// Resumes the driver: makes passes until the queue is empty or closed,
    /// until the ring is full and the notifier is not ready, or until the cap
    /// on passes is reached.
    ///
    /// A pass in which the ring granted nothing and the notifier was ready is
    /// followed by the next pass at once, and counts towards the cap.
    pub fn resume(&mut self, cx: &mut Context<'_>) -> (report: Resumption)
        requires
            old(self).ring.wf(),
        ensures
            final(self).ring.wf(),
            Self::resumed(*old(self), *final(self), report),
            old(self).flow().advances_to(final(self).flow()),
            report.moved == old(self).flow().released(final(self).flow()).len(),
            old(self).flow().released(final(self).flow()) == (old(self).flow().queued
                + old(self).flow().arrived(final(self).flow())).take(report.moved as int),
            report.batches <= report.moved,
            report.batches + report.retries <= ITERATION_CAP,
            report.outcome is Yielded <==> report.batches + report.retries == ITERATION_CAP,
            report.batches == ITERATION_CAP ==> report.outcome is Yielded,
            report.outcome is Completed || report.outcome is Idle ==> {
                final(self).flow().queued.len() == 0
            },
            report.outcome is Blocked || (report.outcome is Yielded && report.batches == 0) ==> {
                &&& final(self).flow().queued.len() > 0
                &&& final(self).ring.staged().len() == 0
            },
    {
        let mut progress = Progress { batches: 0, retries: 0, moved: 0 };
        let ghost mut states: Seq<Self> = seq![*self];
        let ghost mut passes: Seq<Pass> = Seq::empty();
        loop
            invariant
                self.ring.wf(),
                Self::is_trace(*old(self), *self, states, passes),
                progress_after(passes) == Step::Go(progress),
                old(self).flow().advances_to(self.flow()),
                self.flow().published.len() == old(self).flow().published.len() + progress.moved,
                progress.batches <= progress.moved,
                progress.moved <= progress.batches * u32::MAX,
                progress.batches + progress.retries < ITERATION_CAP,
                progress.batches == 0 && progress.retries > 0 ==> {
                    &&& self.flow().queued.len() > 0
                    &&& self.ring.staged().len() == 0
                },
            decreases ITERATION_CAP - progress.batches - progress.retries,
        {
            let ghost earlier = *self;
            let pass = self.pass(cx);
            proof {
                let longer = states.push(*self);
                let counted = passes.push(pass);
                assert(counted.drop_last() =~= passes);
                assert forall|i: int| 0 <= i < counted.len() implies Self::passed(
                    longer[i],
                    longer[i + 1],
                    #[trigger] counted[i],
                ) by {
                    if i < passes.len() {
                        assert(Self::passed(states[i], states[i + 1], passes[i]));
                    }
                }
                states = longer;
                passes = counted;
            }
            match step(progress, pass) {
                Step::Go(next) => {
                    progress = next;
                },
                Step::End(report) => {
                    proof {
                        lemma_advance_order(old(self).flow(), self.flow());
                        assert(Self::is_trace(*old(self), *self, states, passes));
                    }
                    return report;
                },
            }
        }
    }

    /// Polls the driver as a task: resumes it, and asks for the task to be
    /// scheduled again when the resumption yielded.
    ///
    /// It is ready when the resumption completed, and pending otherwise.
    pub fn poll(&mut self, cx: &mut Context<'_>) -> (polled: Poll<()>)
        requires
            old(self).ring.wf(),
        ensures
            final(self).ring.wf(),
            exists|report: Resumption|
                {
                    &&& #[trigger] Self::resumed(*old(self), *final(self), report)
                    &&& polled is Ready <==> report.outcome is Completed
                },
            old(self).flow().advances_to(final(self).flow()),
            polled is Ready ==> final(self).flow().queued.len() == 0,
    {
        let report = self.resume(cx);
        let answer = answer(report.outcome);
        if answer.reschedule {
            cx.waker().wake_by_ref();
        }
        answer.polled
    }
}

} // verus!
