use s2n_quic_core::sync::{spsc, worker};
use std::sync::atomic::{AtomicUsize, Ordering};
use std::sync::Arc;
use std::task::{Context, Poll, Wake, Waker};
use xdp_tx::{
    answer, pass_on_queue, request_size, step, Answer, Descriptor, MemoryRing, Notifier, Outcome,
    Pass, Progress, Resumption, Ring, Step, Tx, ITERATION_CAP,
};

const TEST_ITEMS: u64 = 1000;
const QUEUE_SIZE_SMALL: usize = 8;
const QUEUE_SIZE_LARGE: usize = 4096;

struct WakeCount(AtomicUsize);

impl Wake for WakeCount {
    fn wake(self: Arc<Self>) {
        self.0.fetch_add(1, Ordering::SeqCst);
    }

    fn wake_by_ref(self: &Arc<Self>) {
        self.0.fetch_add(1, Ordering::SeqCst);
    }
}

fn waker() -> (Arc<WakeCount>, Waker) {
    let count = Arc::new(WakeCount(AtomicUsize::new(0)));
    (count.clone(), Waker::from(count))
}

fn descriptor(address: u64) -> Descriptor {
    Descriptor { address, len: 0 }
}

/// A small generator of numbers, so that a test takes the same course each time.
struct Random(u64);

impl Random {
    fn next(&mut self) -> u64 {
        self.0 ^= self.0 << 13;
        self.0 ^= self.0 >> 7;
        self.0 ^= self.0 << 17;
        self.0
    }

    /// A number in `low..high`.
    fn range(&mut self, low: usize, high: usize) -> usize {
        low + (self.next() % (high - low) as u64) as usize
    }

    /// Whether a turn is skipped, which stands for a delay.
    fn delayed(&mut self) -> bool {
        self.next() % 3 == 0
    }
}

/// Enqueues the descriptors with the given addresses, as far as they fit, and
/// returns how many were taken.
fn enqueue(sender: &mut spsc::Sender<Descriptor>, addresses: std::ops::Range<u64>) -> u64 {
    let mut taken = 0;
    let mut items = addresses.map(|address| {
        taken += 1;
        descriptor(address)
    });
    if let Ok(Some(mut slice)) = sender.try_slice() {
        let room = slice.capacity();
        let mut batch = (&mut items).take(room);
        slice.extend(&mut batch).unwrap();
    }
    drop(items);
    taken
}

/// Takes everything out of the ring and checks that the addresses go on from `next`.
fn consume<N: Notifier>(tx: &mut Tx<MemoryRing, N>, next: &mut u64) {
    while let Some(entry) = tx.ring.pop() {
        assert_eq!(entry.address, *next);
        *next += 1;
    }
}

/// Reports what it was made with and records what it is told.
struct Scripted {
    readiness: Poll<()>,
    notified: Vec<u32>,
    asked: usize,
}

impl Scripted {
    fn new(readiness: Poll<()>) -> Self {
        Scripted { readiness, notified: Vec::new(), asked: 0 }
    }
}

impl Notifier for Scripted {
    fn notify<R: Ring>(&mut self, _ring: &mut R, _cx: &mut Context<'_>, count: u32) {
        self.notified.push(count);
    }

    fn notify_empty<R: Ring>(&mut self, _ring: &mut R, _cx: &mut Context<'_>) -> Poll<()> {
        self.asked += 1;
        self.readiness
    }
}

/// Enqueues one more descriptor each time it is told of progress, as a
/// producer that keeps up with the driver would.
struct Feeder {
    sender: spsc::Sender<Descriptor>,
    next: u64,
}

impl Notifier for Feeder {
    fn notify<R: Ring>(&mut self, _ring: &mut R, _cx: &mut Context<'_>, _count: u32) {
        self.next += enqueue(&mut self.sender, self.next..self.next + 1);
    }

    fn notify_empty<R: Ring>(&mut self, _ring: &mut R, _cx: &mut Context<'_>) -> Poll<()> {
        Poll::Ready(())
    }
}

fn execute_test(channel_size: usize) {
    let (wakes, waker) = waker();
    let mut cx = Context::from_waker(&waker);
    let (tx_send, tx_recv) = spsc::channel(channel_size);
    let ring = MemoryRing::new(channel_size as u32);
    let (worker_send, mut worker_recv) = worker::channel();
    let mut tx = Tx::new(tx_recv, ring, worker_send);

    let mut random = Random(0x2545_f491_4f6c_dd1d ^ channel_size as u64);
    let mut sender = Some(tx_send);
    let mut enqueued = 0;
    let mut total = 0;
    let mut completed = false;
    let mut turns = 0u64;

    while !completed {
        turns += 1;
        assert!(turns < 1_000_000, "the run does not end");

        if !random.delayed() {
            if enqueued == TEST_ITEMS {
                // dropping the sender closes the queue
                sender = None;
            } else if let Some(sender) = sender.as_mut() {
                let batch_size = random.range(1, channel_size) as u64;
                let end = TEST_ITEMS.min(enqueued + batch_size);
                enqueued += enqueue(sender, enqueued..end);
            }
        }

        completed = tx.poll(&mut cx).is_ready();

        if !random.delayed() {
            if let Poll::Ready(Some(credits)) = worker_recv.poll_acquire(&mut cx) {
                consume(&mut tx, &mut total);
                worker_recv.finish(credits);
            }
        }
    }

    consume(&mut tx, &mut total);
    assert_eq!(enqueued, TEST_ITEMS);
    assert_eq!(total, TEST_ITEMS);
    assert!(wakes.0.load(Ordering::SeqCst) > 0);
}

#[test]
fn tx_small_test() {
    execute_test(QUEUE_SIZE_SMALL);
}

#[test]
fn tx_large_test() {
    execute_test(QUEUE_SIZE_LARGE);
}

#[test]
fn moved_counts_add_up_to_what_was_enqueued() {
    let (_, waker) = waker();
    let mut cx = Context::from_waker(&waker);
    let (tx_send, tx_recv) = spsc::channel(QUEUE_SIZE_SMALL);
    let mut tx = Tx::new(tx_recv, MemoryRing::new(4), Scripted::new(Poll::Pending));
    let mut random = Random(0x9e37_79b9_7f4a_7c15);
    let mut sender = Some(tx_send);
    let mut enqueued = 0;
    let mut moved = 0;
    let mut total = 0;
    loop {
        if enqueued == TEST_ITEMS {
            sender = None;
        } else if let Some(sender) = sender.as_mut() {
            let end = TEST_ITEMS.min(enqueued + random.range(1, QUEUE_SIZE_SMALL) as u64);
            enqueued += enqueue(sender, enqueued..end);
        }
        let report = tx.resume(&mut cx);
        moved += report.moved;
        assert!(report.batches as u64 <= report.moved);
        assert!(report.batches + report.retries <= ITERATION_CAP);
        if !random.delayed() {
            consume(&mut tx, &mut total);
        }
        if report.outcome == Outcome::Completed {
            break;
        }
    }
    consume(&mut tx, &mut total);
    // what the ring released, what left the queue and what was enqueued are the same
    assert_eq!(moved, TEST_ITEMS);
    assert_eq!(total, TEST_ITEMS);
    assert_eq!(tx.notifier.notified.iter().map(|count| *count as u64).sum::<u64>(), TEST_ITEMS);
    assert!(tx.notifier.notified.iter().all(|count| *count > 0));
}

#[test]
fn pass_takes_the_smaller_of_queue_and_ring() {
    let (_, waker) = waker();
    let mut cx = Context::from_waker(&waker);
    let (mut tx_send, tx_recv) = spsc::channel(QUEUE_SIZE_SMALL);
    let mut tx = Tx::new(tx_recv, MemoryRing::new(3), ());
    assert_eq!(enqueue(&mut tx_send, 0..5), 5);

    // the queue has more than the ring accepts
    assert_eq!(tx.pass(&mut cx), Pass::Moved { available: 5, granted: 3, copied: 3 });
    assert_eq!(tx.pass(&mut cx), Pass::Starved { available: 2, ready: true });
    let mut next = 0;
    consume(&mut tx, &mut next);
    assert_eq!(next, 3);

    // the ring accepts more than the queue has
    assert_eq!(tx.pass(&mut cx), Pass::Moved { available: 2, granted: 2, copied: 2 });
    assert_eq!(tx.pass(&mut cx), Pass::Idle);
    consume(&mut tx, &mut next);
    assert_eq!(next, 5);

    drop(tx_send);
    assert_eq!(tx.pass(&mut cx), Pass::Closed);
}

#[test]
fn pass_tells_the_notifier_the_copied_count() {
    let (_, waker) = waker();
    let mut cx = Context::from_waker(&waker);
    let (mut tx_send, tx_recv) = spsc::channel(QUEUE_SIZE_SMALL);
    let mut tx = Tx::new(tx_recv, MemoryRing::new(3), Scripted::new(Poll::Ready(())));
    assert_eq!(enqueue(&mut tx_send, 0..4), 4);
    assert_eq!(tx.pass(&mut cx), Pass::Moved { available: 4, granted: 3, copied: 3 });
    assert_eq!(tx.notifier.notified, vec![3]);
    assert_eq!(tx.notifier.asked, 0);
    assert_eq!(tx.pass(&mut cx), Pass::Starved { available: 1, ready: true });
    assert_eq!(tx.notifier.notified, vec![3]);
    assert_eq!(tx.notifier.asked, 1);
}

#[test]
fn descriptors_cross_the_wrap_of_queue_and_ring() {
    let (_, waker) = waker();
    let mut cx = Context::from_waker(&waker);
    let (mut tx_send, tx_recv) = spsc::channel(6);
    let mut tx = Tx::new(tx_recv, MemoryRing::new(7), ());
    let mut next = 0;

    assert_eq!(enqueue(&mut tx_send, 0..5), 5);
    assert_eq!(tx.pass(&mut cx), Pass::Moved { available: 5, granted: 5, copied: 5 });
    consume(&mut tx, &mut next);

    // the next descriptors lie across the end of the queue's storage and go
    // across the end of the ring's
    assert_eq!(enqueue(&mut tx_send, 5..11), 6);
    assert_eq!(tx.pass(&mut cx), Pass::Moved { available: 6, granted: 6, copied: 6 });
    consume(&mut tx, &mut next);
    assert_eq!(next, 11);
    assert_eq!(tx.pass(&mut cx), Pass::Idle);
}

#[test]
fn descriptors_keep_their_fields() {
    let (_, waker) = waker();
    let mut cx = Context::from_waker(&waker);
    let (mut tx_send, tx_recv) = spsc::channel(4);
    let mut tx = Tx::new(tx_recv, MemoryRing::new(4), ());
    let sent = [
        Descriptor { address: 4096, len: 1500 },
        Descriptor { address: u64::MAX, len: u32::MAX },
        Descriptor { address: 0, len: 0 },
    ];
    {
        let mut slice = tx_send.try_slice().unwrap().unwrap();
        for item in sent {
            slice.push(item).unwrap();
        }
    }
    assert_eq!(tx.pass(&mut cx), Pass::Moved { available: 3, granted: 3, copied: 3 });
    for item in sent {
        assert_eq!(tx.ring.pop(), Some(item));
    }
    assert_eq!(tx.ring.pop(), None);
}

#[test]
fn empty_queue_suspends_until_something_arrives() {
    let (wakes, waker) = waker();
    let mut cx = Context::from_waker(&waker);
    let (mut tx_send, tx_recv) = spsc::channel(QUEUE_SIZE_SMALL);
    let mut tx = Tx::new(tx_recv, MemoryRing::new(4), ());
    assert_eq!(
        tx.resume(&mut cx),
        Resumption { outcome: Outcome::Idle, batches: 0, retries: 0, moved: 0 }
    );
    assert_eq!(wakes.0.load(Ordering::SeqCst), 0);
    // an arrival wakes the task
    assert_eq!(enqueue(&mut tx_send, 0..2), 2);
    assert_eq!(wakes.0.load(Ordering::SeqCst), 1);
    assert_eq!(
        tx.resume(&mut cx),
        Resumption { outcome: Outcome::Idle, batches: 1, retries: 0, moved: 2 }
    );
}

#[test]
fn closed_queue_completes_after_it_is_drained() {
    let (_, waker) = waker();
    let mut cx = Context::from_waker(&waker);
    let (mut tx_send, tx_recv) = spsc::channel(QUEUE_SIZE_SMALL);
    let mut tx = Tx::new(tx_recv, MemoryRing::new(8), ());
    assert_eq!(enqueue(&mut tx_send, 0..3), 3);
    drop(tx_send);
    // what was enqueued before the queue was closed is still moved
    assert_eq!(
        tx.resume(&mut cx),
        Resumption { outcome: Outcome::Completed, batches: 1, retries: 0, moved: 3 }
    );
    let mut next = 0;
    consume(&mut tx, &mut next);
    assert_eq!(next, 3);
}

#[test]
fn closed_queue_completes_the_poll() {
    let (wakes, waker) = waker();
    let mut cx = Context::from_waker(&waker);
    let (tx_send, tx_recv) = spsc::channel(QUEUE_SIZE_SMALL);
    let mut tx = Tx::new(tx_recv, MemoryRing::new(8), ());
    assert_eq!(tx.poll(&mut cx), Poll::Pending);
    drop(tx_send);
    assert_eq!(tx.poll(&mut cx), Poll::Ready(()));
    // the only wake is that of the queue being closed
    assert!(wakes.0.load(Ordering::SeqCst) >= 1);
}

#[test]
fn full_ring_with_pending_notifier_suspends() {
    let (wakes, waker) = waker();
    let mut cx = Context::from_waker(&waker);
    let (mut tx_send, tx_recv) = spsc::channel(QUEUE_SIZE_SMALL);
    let mut tx = Tx::new(tx_recv, MemoryRing::new(2), Scripted::new(Poll::Pending));
    assert_eq!(enqueue(&mut tx_send, 0..5), 5);
    assert_eq!(
        tx.resume(&mut cx),
        Resumption { outcome: Outcome::Blocked, batches: 1, retries: 0, moved: 2 }
    );
    assert_eq!(tx.notifier.asked, 1);
    assert_eq!(tx.poll(&mut cx), Poll::Pending);
    assert_eq!(tx.notifier.asked, 2);
    // the driver did not ask to be scheduled again: that is up to the notifier
    assert_eq!(wakes.0.load(Ordering::SeqCst), 0);
}

#[test]
fn full_ring_with_ready_notifier_retries_up_to_the_cap() {
    let (wakes, waker) = waker();
    let mut cx = Context::from_waker(&waker);
    let (mut tx_send, tx_recv) = spsc::channel(QUEUE_SIZE_SMALL);
    let mut tx = Tx::new(tx_recv, MemoryRing::new(2), Scripted::new(Poll::Ready(())));
    assert_eq!(enqueue(&mut tx_send, 0..5), 5);

    // the ring grants nothing after the first pass, and the driver goes on
    // within the same resumption
    assert_eq!(
        tx.resume(&mut cx),
        Resumption { outcome: Outcome::Yielded, batches: 1, retries: 9, moved: 2 }
    );
    assert_eq!(tx.notifier.asked, 9);

    // so it does in the resumptions that follow
    for resumption in 1..4 {
        assert_eq!(
            tx.resume(&mut cx),
            Resumption { outcome: Outcome::Yielded, batches: 0, retries: 10, moved: 0 }
        );
        assert_eq!(tx.notifier.asked, 9 + 10 * resumption);
    }
    assert_eq!(wakes.0.load(Ordering::SeqCst), 0);

    // once the ring has room again the descriptors move on
    let mut next = 0;
    consume(&mut tx, &mut next);
    assert_eq!(
        tx.resume(&mut cx),
        Resumption { outcome: Outcome::Yielded, batches: 1, retries: 9, moved: 2 }
    );
    consume(&mut tx, &mut next);
    assert_eq!(
        tx.resume(&mut cx),
        Resumption { outcome: Outcome::Idle, batches: 1, retries: 0, moved: 1 }
    );
    consume(&mut tx, &mut next);
    assert_eq!(next, 5);
    assert_eq!(tx.notifier.notified, vec![2, 2, 1]);
}

#[test]
fn poll_schedules_itself_again_when_it_yields() {
    let (wakes, waker) = waker();
    let mut cx = Context::from_waker(&waker);
    let (mut tx_send, tx_recv) = spsc::channel(QUEUE_SIZE_SMALL);
    let mut tx = Tx::new(tx_recv, MemoryRing::new(2), ());
    assert_eq!(enqueue(&mut tx_send, 0..5), 5);
    assert_eq!(tx.poll(&mut cx), Poll::Pending);
    assert_eq!(wakes.0.load(Ordering::SeqCst), 1);
    assert_eq!(tx.poll(&mut cx), Poll::Pending);
    assert_eq!(wakes.0.load(Ordering::SeqCst), 2);
}

#[test]
fn backlog_beyond_the_cap_makes_the_driver_yield() {
    let (wakes, waker) = waker();
    let mut cx = Context::from_waker(&waker);
    let (mut tx_send, tx_recv) = spsc::channel(QUEUE_SIZE_SMALL);
    assert_eq!(enqueue(&mut tx_send, 0..1), 1);
    let feeder = Feeder { sender: tx_send, next: 1 };
    let mut tx = Tx::new(tx_recv, MemoryRing::new(64), feeder);

    // each pass finds one more descriptor: the driver stops at the cap
    for resumption in 1..=3u64 {
        assert_eq!(
            tx.resume(&mut cx),
            Resumption { outcome: Outcome::Yielded, batches: 10, retries: 0, moved: 10 }
        );
        assert_eq!(tx.notifier.next, 1 + 10 * resumption);
    }
    assert_eq!(tx.poll(&mut cx), Poll::Pending);
    assert_eq!(wakes.0.load(Ordering::SeqCst), 1);
    let mut next = 0;
    consume(&mut tx, &mut next);
    assert_eq!(next, 40);
}

#[test]
fn iteration_cap_is_ten() {
    assert_eq!(ITERATION_CAP, 10);
}

#[test]
fn request_is_the_queue_length_as_far_as_it_fits() {
    assert_eq!(request_size(0), 0);
    assert_eq!(request_size(1), 1);
    assert_eq!(request_size(4096), 4096);
    assert_eq!(request_size(u32::MAX as usize), u32::MAX);
    assert_eq!(request_size(usize::MAX), u32::MAX);
}

#[test]
fn queue_poll_decides_the_early_pass() {
    assert_eq!(pass_on_queue(Poll::Ready(Ok(()))), None);
    assert_eq!(pass_on_queue(Poll::Ready(Err(spsc::ClosedError))), Some(Pass::Closed));
    assert_eq!(pass_on_queue(Poll::Pending), Some(Pass::Idle));
}

#[test]
fn step_counts_batches_and_retries() {
    let progress = Progress { batches: 1, retries: 2, moved: 5 };
    assert_eq!(
        step(progress, Pass::Moved { available: 4, granted: 3, copied: 3 }),
        Step::Go(Progress { batches: 2, retries: 2, moved: 8 })
    );
    assert_eq!(
        step(progress, Pass::Starved { available: 4, ready: true }),
        Step::Go(Progress { batches: 1, retries: 3, moved: 5 })
    );
}

#[test]
fn step_ends_on_idle_closed_and_pending_notifier() {
    let progress = Progress { batches: 1, retries: 2, moved: 5 };
    assert_eq!(
        step(progress, Pass::Idle),
        Step::End(Resumption { outcome: Outcome::Idle, batches: 1, retries: 2, moved: 5 })
    );
    assert_eq!(
        step(progress, Pass::Closed),
        Step::End(Resumption { outcome: Outcome::Completed, batches: 1, retries: 2, moved: 5 })
    );
    assert_eq!(
        step(progress, Pass::Starved { available: 4, ready: false }),
        Step::End(Resumption { outcome: Outcome::Blocked, batches: 1, retries: 2, moved: 5 })
    );
}

#[test]
fn step_yields_at_the_cap() {
    let batch = Pass::Moved { available: 1, granted: 1, copied: 1 };
    assert_eq!(
        step(Progress { batches: 8, retries: 0, moved: 8 }, batch),
        Step::Go(Progress { batches: 9, retries: 0, moved: 9 })
    );
    assert_eq!(
        step(Progress { batches: 9, retries: 0, moved: 9 }, batch),
        Step::End(Resumption { outcome: Outcome::Yielded, batches: 10, retries: 0, moved: 10 })
    );
    assert_eq!(
        step(
            Progress { batches: 4, retries: 5, moved: 4 },
            Pass::Starved { available: 2, ready: true }
        ),
        Step::End(Resumption { outcome: Outcome::Yielded, batches: 4, retries: 6, moved: 4 })
    );
    // the pass that reaches the cap still ends on what it found
    assert_eq!(
        step(Progress { batches: 9, retries: 0, moved: 9 }, Pass::Idle),
        Step::End(Resumption { outcome: Outcome::Idle, batches: 9, retries: 0, moved: 9 })
    );
}

#[test]
fn answer_is_ready_only_on_completion() {
    assert_eq!(
        answer(Outcome::Completed),
        Answer { polled: Poll::Ready(()), reschedule: false }
    );
    assert_eq!(answer(Outcome::Yielded), Answer { polled: Poll::Pending, reschedule: true });
    assert_eq!(answer(Outcome::Idle), Answer { polled: Poll::Pending, reschedule: false });
    assert_eq!(answer(Outcome::Blocked), Answer { polled: Poll::Pending, reschedule: false });
}

#[test]
fn one_resumption_with_two_free_slots() {
    let (wakes, waker) = waker();
    let mut cx = Context::from_waker(&waker);
    let (mut tx_send, tx_recv) = spsc::channel(QUEUE_SIZE_SMALL);
    let mut tx = Tx::new(tx_recv, MemoryRing::new(2), Scripted::new(Poll::Ready(())));
    assert_eq!(enqueue(&mut tx_send, 0..5), 5);

    assert_eq!(tx.poll(&mut cx), Poll::Pending);
    assert_eq!(wakes.0.load(Ordering::SeqCst), 1);
    // one batch of two, and the notifier was told once, of two
    assert_eq!(tx.notifier.notified, vec![2]);
    assert_eq!(tx.notifier.asked, 9);
    assert_eq!(tx.ring.pop(), Some(descriptor(0)));
    assert_eq!(tx.ring.pop(), Some(descriptor(1)));
    assert_eq!(tx.ring.pop(), None);
    // the queue still holds the other three, in their order
    assert_eq!(tx.pass(&mut cx), Pass::Moved { available: 3, granted: 2, copied: 2 });
    assert_eq!(tx.ring.pop(), Some(descriptor(2)));
    assert_eq!(tx.ring.pop(), Some(descriptor(3)));
    assert_eq!(tx.pass(&mut cx), Pass::Moved { available: 1, granted: 1, copied: 1 });
    assert_eq!(tx.ring.pop(), Some(descriptor(4)));
}

#[test]
fn empty_open_queue_leaves_ring_and_notifier_alone() {
    let (wakes, waker) = waker();
    let mut cx = Context::from_waker(&waker);
    let (tx_send, tx_recv) = spsc::channel(QUEUE_SIZE_SMALL);
    let mut tx = Tx::new(tx_recv, MemoryRing::new(4), Scripted::new(Poll::Pending));
    assert_eq!(tx.poll(&mut cx), Poll::Pending);
    assert_eq!(tx.notifier.asked, 0);
    assert!(tx.notifier.notified.is_empty());
    assert_eq!(tx.ring.acquire(9), 4);
    assert_eq!(tx.ring.pop(), None);
    assert_eq!(wakes.0.load(Ordering::SeqCst), 0);
    drop(tx_send);
}
