//! A bridge from an in-process descriptor queue to a transmit ring.
//!
//! The [`Tx`] driver is resumed by a cooperative scheduler. Each resumption
//! moves as many descriptors as the ring accepts from the queue into the ring,
//! in order, and tells a [`Notifier`] about it.
//!
//! - `descriptor`: the record that is moved.
//! - `queue`: the receiving side of the queue and what is known of its calls.
//! - `ring`: the producing side of a transmit ring, and a ring in process memory.
//! - `segments`: the copy between two pairs of segments.
//! - `notifier`: who is told of progress, and the notifiers that come with the library.
//! - `driver`: the passes of a resumption and what each resumption reports.
//! - `flow`: the order and the number of descriptors over any run of resumptions.
//! - `task`: the types a task is polled with.

pub mod descriptor;
pub mod driver;
pub mod flow;
pub mod notifier;
pub mod queue;
pub mod ring;
pub mod segments;
pub mod task;

pub use descriptor::Descriptor;
pub use driver::{
    answer, pass_on_queue, request_size, step, Answer, Outcome, Pass, Progress, Resumption, Step, Tx,
    ITERATION_CAP,
};
pub use flow::Flow;
pub use notifier::{both_ready, socket_step, Notifier, SocketStep};
pub use ring::{MemoryRing, Ring};
