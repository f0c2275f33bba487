//! The unattended walkthrough's waits: a step that holds until a check
//! passes, polled on a timer, and failing once its time is spent.

use vstd::prelude::*;

verus! {

/// How often a waiting step checks again, in milliseconds.
pub const POLL_MS: u64 = 250;

/// What a waiting step does after a check.
#[derive(Clone, Copy, Debug, PartialEq, Eq, Structural)]
pub enum Next {
    /// The check passed: on to the next step.
    Advance,
    /// The check failed with no time left: the walkthrough fails.
    Fail,
    /// The check failed: check again in `POLL_MS`, with this much time left.
    Poll(u64),
}

/// What follows a check that `passed` or not, with `left` milliseconds to
/// go: the next step, failure once no time is left, or another check with
/// `POLL_MS` less time (none below zero).
pub open spec fn after_check(passed: bool, left: u64) -> Next {
    if passed {
        Next::Advance
    } else if left == 0 {
        Next::Fail
    } else if left < POLL_MS {
        Next::Poll(0)
    } else {
        Next::Poll((left - POLL_MS) as u64)
    }
}

/// `after_check` of the check's outcome and the time left.
pub fn next_after_check(passed: bool, left: u64) -> (r: Next)
    ensures
        r == after_check(passed, left),
        r matches Next::Poll(l) ==> l < left,
{
    if passed {
        Next::Advance
    } else if left == 0 {
        Next::Fail
    } else {
        Next::Poll(left.saturating_sub(POLL_MS))
    }
}

/// How many checks a step makes, with `left` milliseconds to go, when its
/// check never passes: one now, and those after each poll.
pub open spec fn checks_until_failure(left: u64) -> nat
    decreases left,
{
    match after_check(false, left) {
        Next::Poll(l) => 1 + checks_until_failure(l),
        _ => 1,
    }
}

/// A check that never passes is made once now and once per `POLL_MS` of
/// the step's time, rounded up, and then the walkthrough fails: it never
/// waits for ever.
pub proof fn law_waits_end(left: u64)
    ensures
        checks_until_failure(left) == 1 + (left as nat + (POLL_MS - 1) as nat) / POLL_MS as nat,
    decreases left,
{
    if left == 0 {
    } else if left < POLL_MS {
        assert(checks_until_failure(0) == 1);
    } else {
        law_waits_end((left - POLL_MS) as u64);
    }
}

} // verus!
