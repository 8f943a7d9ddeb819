use core::task::{Context, Poll, Waker};
use vstd::prelude::*;

verus! {

/// `core::task::Context`: what a task is polled with. It is handed on to
/// the calls that register the task's waker.
#[verifier::external_type_specification]
#[verifier::external_body]
pub struct ExContext<'a>(Context<'a>);

/// `core::task::Poll`, with its two variants `Ready` and `Pending`.
#[verifier::external_type_specification]
#[verifier::reject_recursive_types(T)]
pub struct ExPoll<T>(Poll<T>);

/// `core::task::Waker`: the handle that schedules a task again.
#[verifier::external_type_specification]
#[verifier::external_body]
pub struct ExWaker(Waker);

/// `Context::waker` hands out the waker of the task that is being polled.
/// Nothing is claimed of it.
pub assume_specification<'a, 'b>[ Context::<'a>::waker ](cx: &'b Context<'a>) -> (waker: &'a Waker)
;

/// `Waker::wake_by_ref` asks the scheduler to poll the task again. It gives
/// nothing back, and nothing is claimed of it.
pub assume_specification[ Waker::wake_by_ref ](waker: &Waker)
;

} // verus!
