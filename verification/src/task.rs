//! The parts of `std::task` that the signals use: a context that carries the
//! polling task's waker, and the waker itself.
use vstd::prelude::*;

verus! {

#[verifier::external_type_specification]
#[verifier::external_body]
pub struct ExWaker(std::task::Waker);

#[verifier::external_type_specification]
#[verifier::external_body]
pub struct ExContext<'a>(std::task::Context<'a>);

/// The result of polling a signal: a value (or the end of the signal) is
/// ready, or the task will be woken once there is something to report.
#[derive(Debug, Clone, Copy, PartialEq, Eq)]
pub enum Poll<T> {
    Ready(T),
    Pending,
}

/// Calls `std::task::Context::waker`; nothing is claimed of the waker it
/// hands back.
#[verifier::external_body]
pub(crate) fn context_waker<'a, 'b>(cx: &'b std::task::Context<'a>) -> &'b std::task::Waker {
    cx.waker()
}

/// Calls `<std::task::Waker as Clone>::clone`. The contract says only that
/// the result is what that `clone` returned for `waker` (vstd's `cloned`);
/// it does not claim that the copy equals `waker`.
#[verifier::external_body]
pub(crate) fn clone_waker(waker: &std::task::Waker) -> (r: std::task::Waker)
    ensures
        cloned(*waker, r),
{
    waker.clone()
}

/// Calls `std::task::Waker::wake`, which schedules the task; it returns
/// nothing.
#[verifier::external_body]
pub(crate) fn wake_task(waker: std::task::Waker) {
    waker.wake()
}

} // verus!
