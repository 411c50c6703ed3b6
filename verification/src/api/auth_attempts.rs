//! Failed logins, counted for each address, and the lockout they lead to.

use vstd::prelude::*;

verus! {

/// How many failures in a row lock an address out.
pub const MAX_FAILURES: u32 = 5;

/// How long a lockout lasts, in seconds.
pub const LOCKOUT_SECONDS: i64 = 900;

/// What is remembered of an address.
#[derive(Debug, Clone, Copy, PartialEq, Eq, Structural)]
pub struct AttemptState {
    /// Failures in a row.
    pub failed_count: u32,
    /// The time until which the address is locked out; 0 where it never was.
    pub lockout_until: i64,
}

/// An address of which nothing is remembered.
pub open spec fn clean() -> AttemptState {
    AttemptState { failed_count: 0, lockout_until: 0 }
}

/// What is remembered of an address, given what is stored.
pub open spec fn state_of(stored: Option<AttemptState>) -> AttemptState {
    match stored {
        Some(s) => s,
        None => clean(),
    }
}

/// The state after one more failure at `now`: from the fifth on the address is
/// locked out.
pub open spec fn after_failure(s: AttemptState, now: i64) -> AttemptState {
    AttemptState {
        failed_count: (s.failed_count + 1) as u32,
        lockout_until: if s.failed_count + 1 >= MAX_FAILURES {
            (now + LOCKOUT_SECONDS) as i64
        } else {
            s.lockout_until
        },
    }
}

/// The current state of an address; a clean one where nothing is stored.
pub fn current_state(stored: Option<AttemptState>) -> (r: AttemptState)
    ensures
        r == state_of(stored),
{
    match stored {
        Some(s) => s,
        None => AttemptState { failed_count: 0, lockout_until: 0 },
    }
}

/// The state of an address after one more failure.
pub fn record_failure(stored: Option<AttemptState>, now: i64) -> (r: AttemptState)
    requires
        state_of(stored).failed_count < u32::MAX,
        now + LOCKOUT_SECONDS <= i64::MAX,
    ensures
        r == after_failure(state_of(stored), now),
{
    let s = current_state(stored);
    let failed_count: u32 = s.failed_count + 1;
    let lockout_until: i64 = if failed_count >= MAX_FAILURES {
        now + LOCKOUT_SECONDS
    } else {
        s.lockout_until
    };
    AttemptState { failed_count, lockout_until }
}

/// What is stored for an address after a success: nothing.
pub fn record_success(stored: Option<AttemptState>) -> (r: Option<AttemptState>)
    ensures
        r is None,
        state_of(r) == clean(),
{
    None
}

// ---------------------------------------------------------------------------
// Laws
// ---------------------------------------------------------------------------

/// The state after failures at the given times, one after the other.
pub open spec fn after_failures(s: AttemptState, times: Seq<i64>) -> AttemptState
    decreases times.len(),
{
    if times.len() == 0 {
        s
    } else {
        after_failure(after_failures(s, times.drop_last()), times.last())
    }
}

/// Fewer than five failures in a row do not lock an address out; the fifth
/// does, for fifteen minutes from then on.
pub proof fn five_failures_lock_out(times: Seq<i64>)
    requires
        times.len() <= MAX_FAILURES,
        forall|i: int| 0 <= i < times.len() ==> #[trigger] times[i] + LOCKOUT_SECONDS <= i64::MAX,
    ensures
        after_failures(clean(), times).failed_count == times.len(),
        times.len() < MAX_FAILURES ==> after_failures(clean(), times).lockout_until == 0,
        times.len() == MAX_FAILURES ==> after_failures(clean(), times).lockout_until
            == times.last() + LOCKOUT_SECONDS,
    decreases times.len(),
{
    if times.len() > 0 {
        let front = times.drop_last();
        assert forall|i: int| 0 <= i < front.len() implies #[trigger] front[i] + LOCKOUT_SECONDS
            <= i64::MAX by {
            assert(front[i] == times[i]);
        }
        five_failures_lock_out(front);
        assert(times[times.len() - 1] == times.last());
    }
}

/// A failure after a lockout has run out locks the address out again at once:
/// only a success clears the count.
pub proof fn a_failure_after_lockout_locks_again(s: AttemptState, now: i64)
    requires
        MAX_FAILURES <= s.failed_count < u32::MAX,
        now + LOCKOUT_SECONDS <= i64::MAX,
    ensures
        after_failure(s, now).lockout_until == now + LOCKOUT_SECONDS,
{
}

/// A failure is counted from whatever count there was; it locks the address out
/// for fifteen minutes exactly where it makes the count five or more.
pub proof fn failures_are_counted(s: AttemptState, now: i64)
    requires
        s.failed_count < u32::MAX,
        now + LOCKOUT_SECONDS <= i64::MAX,
    ensures
        after_failure(s, now).failed_count == s.failed_count + 1,
        s.failed_count >= 4 ==> after_failure(s, now).lockout_until == now + 900,
        s.failed_count < 4 ==> after_failure(s, now).lockout_until == s.lockout_until,
        state_of(None) == clean(),
        state_of(Some(s)) == s,
        clean().failed_count == 0 && clean().lockout_until == 0,
{
}

} // verus!
