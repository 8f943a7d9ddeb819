use crate::descriptor::Descriptor;
use vstd::prelude::*;

verus! {

/// Where the descriptors in the driver's charge are: those the ring has
/// published, and those still in the queue, each oldest first.
pub struct Flow {
    /// Every descriptor released to the ring's consuming side.
    pub published: Seq<Descriptor>,
    /// The descriptors seen in the queue and not yet released from it.
    pub queued: Seq<Descriptor>,
}

impl Flow {
    /// Every descriptor that was enqueued and seen, in the order of enqueueing.
    pub open spec fn stream(self) -> Seq<Descriptor> {
        self.published + self.queued
    }

    /// Whether `later` can follow `self`: the ring's log and the stream only
    /// grow, and only at their ends.
    pub open spec fn advances_to(self, later: Flow) -> bool {
        &&& self.published.is_prefix_of(later.published)
        &&& self.stream().is_prefix_of(later.stream())
    }

    /// The descriptors that arrived in the queue between `self` and `later`.
    pub open spec fn arrived(self, later: Flow) -> Seq<Descriptor> {
        later.stream().skip(self.stream().len() as int)
    }

    /// The descriptors that the ring published between `self` and `later`.
    pub open spec fn released(self, later: Flow) -> Seq<Descriptor> {
        later.published.skip(self.published.len() as int)
    }
}

/// Whether each flow of `run` advances to the next one.
pub open spec fn is_run(run: Seq<Flow>) -> bool {
    forall|i: int| 0 <= i < run.len() - 1 ==> (#[trigger] run[i]).advances_to(run[i + 1])
}

/// Advancing is transitive: what two resumptions did one after the other is
/// an advance as well.
pub proof fn lemma_advances_transitive(first: Flow, second: Flow, third: Flow)
    requires
        first.advances_to(second),
        second.advances_to(third),
    ensures
        first.advances_to(third),
{
}

/// Over any number of resumptions the first flow advances to the last.
pub proof fn lemma_run_advances(run: Seq<Flow>)
    requires
        run.len() > 0,
        is_run(run),
    ensures
        run.first().advances_to(run.last()),
    decreases run.len(),
{
    if run.len() > 1 {
        let shorter = run.drop_last();
        assert forall|i: int| 0 <= i < shorter.len() - 1 implies (#[trigger] shorter[i]).advances_to(
            shorter[i + 1],
        ) by {
            assert(run[i].advances_to(run[i + 1]));
        }
        lemma_run_advances(shorter);
        assert(run[run.len() - 2].advances_to(run[run.len() - 2 + 1]));
        lemma_advances_transitive(run.first(), shorter.last(), run.last());
    }
}

/// A sequence is its prefix followed by what comes behind the prefix.
proof fn lemma_prefix_split(prefix: Seq<Descriptor>, whole: Seq<Descriptor>)
    requires
        prefix.is_prefix_of(whole),
    ensures
        whole == prefix + whole.skip(prefix.len() as int),
{
    let rest = whole.skip(prefix.len() as int);
    assert forall|i: int| 0 <= i < whole.len() implies whole[i] == (prefix + rest)[i] by {
        if i < prefix.len() {
            assert(whole.subrange(0, prefix.len() as int)[i] == whole[i]);
        }
    }
    assert(whole =~= prefix + rest);
}

/// Ordering between two flows: what the ring published from `before` to
/// `after` is the start of what was queued at `before` followed by what
/// arrived since. No descriptor is left out, comes twice or changes place.
pub proof fn lemma_advance_order(before: Flow, after: Flow)
    requires
        before.advances_to(after),
    ensures
        after.published == before.published + before.released(after),
        after.stream() == before.stream() + before.arrived(after),
        before.released(after) == (before.queued + before.arrived(after)).take(
            before.released(after).len() as int,
        ),
        before.released(after).len() + after.queued.len() == before.queued.len()
            + before.arrived(after).len(),
{
    let released = before.released(after);
    let fed = before.queued + before.arrived(after);
    lemma_prefix_split(before.published, after.published);
    lemma_prefix_split(before.stream(), after.stream());
    assert(before.stream() + before.arrived(after) =~= before.published + fed);
    assert(after.stream() == before.published + fed);
    assert(after.stream().len() == after.published.len() + after.queued.len());
    assert(released.len() <= fed.len());
    assert forall|i: int| 0 <= i < released.len() implies released[i] == fed[i] by {
        let at = before.published.len() + i;
        assert(after.published[at] == released[i]);
        assert(after.stream()[at] == after.published[at]);
        assert((before.published + fed)[at] == fed[i]);
    }
    assert(released =~= fed.take(released.len() as int));
}

/// Ordering: over any run of resumptions the ring publishes the descriptors
/// in the order in which they were enqueued, none left out and none twice.
/// What it published is the start of what was queued at first, followed by
/// what arrived since.
pub proof fn lemma_order_kept(run: Seq<Flow>)
    requires
        run.len() > 0,
        is_run(run),
    ensures
        run.last().published == run.first().published + run.first().released(run.last()),
        run.first().released(run.last()).is_prefix_of(
            run.first().queued + run.first().arrived(run.last()),
        ),
{
    lemma_run_advances(run);
    lemma_advance_order(run.first(), run.last());
}

/// Conservation: over any run of resumptions as many descriptors leave the
/// queue as the ring publishes. When the run ends with the queue drained, as
/// it does when the queue is closed, these are all that were enqueued.
pub proof fn lemma_conservation(run: Seq<Flow>)
    requires
        run.len() > 0,
        is_run(run),
    ensures
        run.first().released(run.last()).len() == run.first().queued.len() + run.first().arrived(
            run.last(),
        ).len() - run.last().queued.len(),
        run.last().queued.len() == 0 ==> run.first().released(run.last()) == run.first().queued
            + run.first().arrived(run.last()),
{
    lemma_run_advances(run);
    lemma_advance_order(run.first(), run.last());
    let fed = run.first().queued + run.first().arrived(run.last());
    if run.last().queued.len() == 0 {
        assert(fed.take(fed.len() as int) =~= fed);
    }
}

} // verus!
