use crate::descriptor::Descriptor;
use crate::segments::min_len;
use vstd::prelude::*;

verus! {

/// The producing side of a transmit ring.
///
/// A ring is a bounded circular buffer. Capacity is handed out by `acquire`
/// and is never assumed. The acquired slots are written through the two
/// segments that `data` returns and become visible to the consuming side
/// with `release`.
pub trait Ring {
    /// The invariant of the ring. Every method keeps it.
    spec fn wf(&self) -> bool;

    /// Every descriptor that was released to the consuming side, oldest first.
    spec fn published(&self) -> Seq<Descriptor>;

    /// What the acquired slots hold, in the order in which they will be published.
    spec fn staged(&self) -> Seq<Descriptor>;

    /// How many slots the ring was last asked for.
    spec fn requested(&self) -> u32;

    /// Asks for up to `requested` slots and returns how many the ring grants.
    fn acquire(&mut self, requested: u32) -> (granted: u32)
        requires
            old(self).wf(),
        ensures
            final(self).wf(),
            granted <= requested,
            final(self).requested() == requested,
            final(self).staged().len() == granted,
            final(self).published() == old(self).published(),
    ;

    /// The acquired slots as a front segment and a wrapped segment.
    ///
    /// What is written through the segments is what the slots hold afterwards.
    /// A slice keeps its length. Verus does not know that of a mutably
    /// borrowed slice, so the facts about the ring afterwards are stated for
    /// segments of unchanged length.
    fn data(&mut self) -> (segments: (&mut [Descriptor], &mut [Descriptor]))
        requires
            old(self).wf(),
        ensures
            segments.0@ + segments.1@ == old(self).staged(),
            final(segments.0)@.len() == segments.0@.len() && final(segments.1)@.len()
                == segments.1@.len() ==> {
                &&& final(self).wf()
                &&& final(self).staged() == final(segments.0)@ + final(segments.1)@
                &&& final(self).published() == old(self).published()
                &&& final(self).requested() == old(self).requested()
            },
    ;

    /// Makes the first `count` acquired slots visible to the consuming side.
    fn release(&mut self, count: u32)
        requires
            old(self).wf(),
            count <= old(self).staged().len(),
        ensures
            final(self).wf(),
            final(self).published() == old(self).published() + old(self).staged().take(
                count as int,
            ),
            final(self).staged() == old(self).staged().skip(count as int),
            final(self).requested() == old(self).requested(),
    ;

    /// Whether the consuming side asked to be woken up.
    fn needs_wakeup(&self) -> bool
        requires
            self.wf(),
    ;

    /// Tests the invariant. A caller that cannot prove the invariant calls
    /// this before any other method. A ring that cannot tell answers `false`.
    fn intact(&self) -> (ok: bool)
        ensures
            ok ==> self.wf(),
    ;
}

/// Where the slot `offset` places after `head` lies in a ring of `capacity` slots.
pub open spec fn slot_index(head: int, offset: int, capacity: int) -> int {
    if head + offset >= capacity {
        head + offset - capacity
    } else {
        head + offset
    }
}

/// A transmit ring in process memory, with its consuming side.
pub struct MemoryRing {
    slots: Vec<Descriptor>,
    head: usize,
    pending: usize,
    granted: usize,
    wakeup: bool,
    consumed: Ghost<Seq<Descriptor>>,
    requested: Ghost<u32>,
}

impl MemoryRing {
    /// The number of slots.
    pub closed spec fn capacity(&self) -> nat {
        self.slots@.len()
    }

    /// The descriptors that the consuming side has taken out, oldest first.
    pub closed spec fn consumed(&self) -> Seq<Descriptor> {
        self.consumed@
    }

    /// The descriptors that were released and not yet taken out, oldest first.
    pub closed spec fn pending(&self) -> Seq<Descriptor> {
        Seq::new(
            self.pending as nat,
            |i: int| self.slots@[slot_index(self.head as int, i, self.slots@.len() as int)],
        )
    }

    /// Whether the consuming side asks to be woken up.
    pub closed spec fn wants_wakeup(&self) -> bool {
        self.wakeup
    }

    /// A ring of `capacity` slots with nothing in it.
    pub fn new(capacity: u32) -> (ring: MemoryRing)
        ensures
            ring.wf(),
            ring.capacity() == capacity,
            ring.consumed().len() == 0,
            ring.pending().len() == 0,
            ring.staged().len() == 0,
            ring.requested() == 0,
            !ring.wants_wakeup(),
    {
        let mut slots: Vec<Descriptor> = Vec::new();
        let mut filled: u32 = 0;
        while filled < capacity
            invariant
                filled <= capacity,
                slots@.len() == filled,
            decreases capacity - filled,
        {
            slots.push(Descriptor { address: 0, len: 0 });
            filled = filled + 1;
        }
        MemoryRing {
            slots,
            head: 0,
            pending: 0,
            granted: 0,
            wakeup: false,
            consumed: Ghost(Seq::empty()),
            requested: Ghost(0),
        }
    }

    /// Takes the oldest published descriptor out, as the consuming side does.
    /// Its slot is free again.
    pub fn pop(&mut self) -> (taken: Option<Descriptor>)
        requires
            old(self).wf(),
        ensures
            final(self).wf(),
            final(self).capacity() == old(self).capacity(),
            final(self).published() == old(self).published(),
            final(self).staged() == old(self).staged(),
            final(self).requested() == old(self).requested(),
            final(self).wants_wakeup() == old(self).wants_wakeup(),
            match taken {
                Some(descriptor) => {
                    &&& old(self).pending().len() > 0
                    &&& descriptor == old(self).pending()[0]
                    &&& final(self).consumed() == old(self).consumed().push(descriptor)
                    &&& final(self).pending() == old(self).pending().skip(1)
                },
                None => {
                    &&& old(self).pending().len() == 0
                    &&& final(self).consumed() == old(self).consumed()
                    &&& final(self).pending() == old(self).pending()
                },
            },
    {
        if self.pending == 0 {
            return None;
        }
        let descriptor = self.slots[self.head];
        self.head = if self.head + 1 == self.slots.len() {
            0
        } else {
            self.head + 1
        };
        self.pending = self.pending - 1;
        proof {
            self.consumed@ = self.consumed@.push(descriptor);
            assert(self.pending() =~= old(self).pending().skip(1));
            assert(self.staged() =~= old(self).staged());
            assert(self.published() =~= old(self).published());
        }
        Some(descriptor)
    }

    /// Sets whether the consuming side asks to be woken up.
    pub fn set_needs_wakeup(&mut self, wanted: bool)
        requires
            old(self).wf(),
        ensures
            final(self).wf(),
            final(self).wants_wakeup() == wanted,
            final(self).capacity() == old(self).capacity(),
            final(self).consumed() == old(self).consumed(),
            final(self).pending() == old(self).pending(),
            final(self).staged() == old(self).staged(),
            final(self).requested() == old(self).requested(),
    {
        self.wakeup = wanted;
    }
}

impl Ring for MemoryRing {
    closed spec fn wf(&self) -> bool {
        &&& self.slots@.len() <= u32::MAX
        &&& self.head <= self.slots@.len()
        &&& self.slots@.len() > 0 ==> self.head < self.slots@.len()
        &&& self.pending + self.granted <= self.slots@.len()
    }

    open spec fn published(&self) -> Seq<Descriptor> {
        self.consumed() + self.pending()
    }

    closed spec fn requested(&self) -> u32 {
        self.requested@
    }

    closed spec fn staged(&self) -> Seq<Descriptor> {
        Seq::new(
            self.granted as nat,
            |i: int|
                self.slots@[slot_index(
                    self.head as int,
                    self.pending + i,
                    self.slots@.len() as int,
                )],
        )
    }

    /// Grants as many slots as were asked for and are free.
    fn acquire(&mut self, requested: u32) -> (granted: u32)
        ensures
            granted == min_len(
                requested as nat,
                (old(self).capacity() - old(self).pending().len()) as nat,
            ),
            final(self).capacity() == old(self).capacity(),
            final(self).consumed() == old(self).consumed(),
            final(self).pending() == old(self).pending(),
            final(self).wants_wakeup() == old(self).wants_wakeup(),
    {
        let free = self.slots.len() - self.pending;
        let granted = if requested as usize <= free {
            requested
        } else {
            free as u32
        };
        self.granted = granted as usize;
        proof {
            self.requested@ = requested;
        }
        granted
    }

    fn data(&mut self) -> (segments: (&mut [Descriptor], &mut [Descriptor]))
        ensures
            final(segments.0)@.len() == segments.0@.len() && final(segments.1)@.len()
                == segments.1@.len() ==> {
                &&& final(self).capacity() == old(self).capacity()
                &&& final(self).consumed() == old(self).consumed()
                &&& final(self).pending() == old(self).pending()
                &&& final(self).wants_wakeup() == old(self).wants_wakeup()
            },
    {
        let capacity = self.slots.len();
        let room = capacity - self.head;
        let start = if self.pending >= room {
            self.pending - room
        } else {
            self.head + self.pending
        };
        let front_len = if self.granted <= capacity - start {
            self.granted
        } else {
            capacity - start
        };
        let wrap_len = self.granted - front_len;
        let (low, high) = self.slots.as_mut_slice().split_at_mut(start);
        let (front, _) = high.split_at_mut(front_len);
        let (wrap, _) = low.split_at_mut(wrap_len);
        (front, wrap)
    }

    fn release(&mut self, count: u32)
        ensures
            final(self).capacity() == old(self).capacity(),
            final(self).consumed() == old(self).consumed(),
            final(self).pending() == old(self).pending() + old(self).staged().take(count as int),
            final(self).wants_wakeup() == old(self).wants_wakeup(),
    {
        self.pending = self.pending + count as usize;
        self.granted = self.granted - count as usize;
        assert(self.pending() =~= old(self).pending() + old(self).staged().take(count as int));
        assert(self.staged() =~= old(self).staged().skip(count as int));
    }

    fn needs_wakeup(&self) -> (wanted: bool)
        ensures
            wanted == self.wants_wakeup(),
    {
        self.wakeup
    }

    fn intact(&self) -> (ok: bool)
        ensures
            ok == self.wf(),
    {
        let capacity = self.slots.len();
        capacity <= u32::MAX as usize && (self.head < capacity || (capacity == 0 && self.head
            == 0)) && self.pending <= capacity && self.granted <= capacity - self.pending
    }
}

} // verus!
