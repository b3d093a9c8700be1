use vstd::prelude::*;

verus! {

// The futex-based wait strategy keeps one state word per direction in
// the shared header.  The word has exactly two states: `AVAILABLE`
// (nobody sleeps; a kernel wake would be a wasted call) and `ASLEEP`
// (the single waiter is sleeping, or about to sleep, on the word).
// The waiter arms the word before the kernel wait; the notifier
// resets it and issues a kernel wake only if it was armed, so that a
// channel running without contention never enters the kernel.

/// State word value: no waiter is sleeping on the word.
pub const AVAILABLE: u32 = 0;

/// State word value: the single waiter sleeps, or is about to sleep,
/// on the word.
pub const ASLEEP: u32 = 1;

/// How a kernel wait on a state word ended.
#[derive(Clone, Copy, Debug, PartialEq, Eq, Structural)]
pub enum WaitResult {
    /// The waiter slept and was woken.
    OK,
    /// The kernel found the word already changed, so the sleep was
    /// avoided: the awaited data or space had already arrived.
    ValNotEqual,
    /// The bounded wait elapsed before a wake arrived.
    Timeout,
}

/// The cause of a failed kernel call, classified from its errno value.
#[derive(Clone, Copy, Debug, PartialEq, Eq, Structural)]
pub enum SysError {
    /// The call was interrupted by a signal.
    Interrupted,
    /// The kernel refused without blocking: for a wait, the word no
    /// longer held the expected value.
    Again,
    /// A bounded wait timed out.
    TimedOut,
    /// Any other failure, carrying the errno value.
    Other(i32),
}

/// What a wait loop does next, decided from the kernel's answer.
#[derive(Clone, Copy, Debug, PartialEq, Eq, Structural)]
pub enum WaitStep {
    /// The wait is over, with the given result.
    Complete(WaitResult),
    /// The call was interrupted; reissue it transparently.
    Retry,
    /// The primitive failed; the error is fatal to the operation.
    Fail(SysError),
}

/// Decides how an unbounded kernel wait proceeds from the call's
/// outcome: interruption is retried transparently, a word mismatch is
/// success (the awaited change already happened), and anything else
/// is fatal.
pub fn wait_outcome(res: Result<(), SysError>) -> (r: WaitStep)
    ensures
        res is Ok ==> r == WaitStep::Complete(WaitResult::OK),
        res == Err::<(), SysError>(SysError::Interrupted) ==> r == WaitStep::Retry,
        res == Err::<(), SysError>(SysError::Again) ==> r == WaitStep::Complete(
            WaitResult::ValNotEqual,
        ),
        forall|e: SysError|
            res == Err::<(), SysError>(e) && (e is TimedOut || e is Other) ==> r
                == WaitStep::Fail(e),
{
    match res {
        Ok(()) => WaitStep::Complete(WaitResult::OK),
        Err(SysError::Interrupted) => WaitStep::Retry,
        Err(SysError::Again) => WaitStep::Complete(WaitResult::ValNotEqual),
        Err(e) => WaitStep::Fail(e),
    }
}

/// Decides how a bounded kernel wait proceeds: as [`wait_outcome`],
/// except that running out of time is a distinguished outcome, not an
/// error.
pub fn timed_wait_outcome(res: Result<(), SysError>) -> (r: WaitStep)
    ensures
        res is Ok ==> r == WaitStep::Complete(WaitResult::OK),
        res == Err::<(), SysError>(SysError::Interrupted) ==> r == WaitStep::Retry,
        res == Err::<(), SysError>(SysError::Again) ==> r == WaitStep::Complete(
            WaitResult::ValNotEqual,
        ),
        res == Err::<(), SysError>(SysError::TimedOut) ==> r == WaitStep::Complete(
            WaitResult::Timeout,
        ),
        forall|e: SysError|
            res == Err::<(), SysError>(e) && e is Other ==> r == WaitStep::Fail(e),
{
    match res {
        Ok(()) => WaitStep::Complete(WaitResult::OK),
        Err(SysError::Interrupted) => WaitStep::Retry,
        Err(SysError::Again) => WaitStep::Complete(WaitResult::ValNotEqual),
        Err(SysError::TimedOut) => WaitStep::Complete(WaitResult::Timeout),
        Err(e) => WaitStep::Fail(e),
    }
}

/// The notifier's transition on a state word: an armed word is reset
/// to `AVAILABLE` and exactly one sleeper must be woken; an unarmed
/// word is left alone and no kernel call is needed.
pub fn notify_transition(word: u32) -> (r: (u32, bool))
    ensures
        r.0 == (if word == ASLEEP {
            AVAILABLE
        } else {
            word
        }),
        r.1 == (word == ASLEEP),
{
    if word == ASLEEP {
        (AVAILABLE, true)
    } else {
        (word, false)
    }
}

/// The waiter's transition on a state word, taken just before the
/// kernel wait.  The caller has just observed the unfavourable
/// condition, so the word must currently be `AVAILABLE`; the
/// transition therefore always succeeds.
pub fn arm_transition(word: u32) -> (r: u32)
    requires
        word == AVAILABLE,
    ensures
        r == ASLEEP,
{
    let _ = word;
    ASLEEP
}

} // verus!
