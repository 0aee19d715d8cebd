//! The decision step of the child-wait loop.
//!
//! Waiting for the child is an outside call that can be interrupted; the
//! loop around it retries until a definitive status arrives. The decision —
//! given one wait outcome, stop with a code, retry, or fail — is pure and
//! stands here; the caller performs the wait itself and feeds each outcome
//! through `wait_step` until it says to stop.

use vstd::prelude::*;

verus! {

/// One outcome of asking for the child's status.
#[derive(Clone, Copy, PartialEq, Eq, Structural, Debug)]
pub enum WaitEvent {
    /// The child exited normally with this code.
    Exited { code: i32 },
    /// Some other status change (stopped, continued, killed by a signal):
    /// not a normal exit, keep waiting.
    OtherStatus,
    /// The wait itself was interrupted by a signal; harmless, wait again.
    Interrupted,
    /// The wait failed for any other reason.
    Failed,
}

/// What the wait loop does next.
#[derive(Clone, Copy, PartialEq, Eq, Structural, Debug)]
pub enum WaitDecision {
    /// The child terminated with this exit code; stop waiting.
    Finished { code: i32 },
    /// Ask for the status again.
    Retry,
    /// Give up: the status cannot be obtained.
    Fail,
}

/// Decide what one wait outcome means: a normal exit ends the loop with the
/// child's code; an interruption or a non-exit status change is retried; any
/// other failure is fatal.
pub fn wait_step(e: WaitEvent) -> (d: WaitDecision)
    ensures
        (e matches WaitEvent::Exited { code } ==> d == (WaitDecision::Finished { code })),
        (e is OtherStatus ==> d is Retry),
        (e is Interrupted ==> d is Retry),
        (e is Failed ==> d is Fail),
{
    match e {
        WaitEvent::Exited { code } => WaitDecision::Finished { code },
        WaitEvent::OtherStatus => WaitDecision::Retry,
        WaitEvent::Interrupted => WaitDecision::Retry,
        WaitEvent::Failed => WaitDecision::Fail,
    }
}

} // verus!
