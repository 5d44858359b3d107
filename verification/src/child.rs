//! When the bootstrapper restarts a managed binary that exited: after a
//! wait that doubles with every quick failure, up to a cap, and starts over
//! once the binary has stayed up long enough.
//!
//! Times are nanoseconds.

use vstd::prelude::*;

verus! {

/// The first wait before a restart: one second.
pub const INITIAL_BACKOFF: u64 = 1000000000;

/// The longest wait before a restart: thirty seconds.
pub const BACKOFF_CAP: u64 = 30000000000;

/// How long a binary has to stay up for its failures to be forgiven: one
/// minute.
pub const STABILITY_THRESHOLD: u64 = 60000000000;

/// The wait before the next restart.
pub struct Backoff {
    pub current: u64,
}

/// The wait for a restart after a binary that ran for `ran_for` (if it was
/// running at all) exits, with `current` the wait it had earned.
pub open spec fn wait_for(current: u64, ran_for: Option<u64>) -> u64 {
    match ran_for {
        Some(t) => if t >= STABILITY_THRESHOLD {
            INITIAL_BACKOFF
        } else {
            current
        },
        None => current,
    }
}

/// The wait after this one: twice as long, up to the cap.
pub open spec fn next_wait(wait: u64) -> u64 {
    if 2 * wait < BACKOFF_CAP {
        (2 * wait) as u64
    } else {
        BACKOFF_CAP
    }
}

impl Backoff {
    /// The wait a freshly launched binary starts with.
    pub fn new() -> (r: Backoff)
        ensures
            r.current == INITIAL_BACKOFF,
    {
        Backoff { current: INITIAL_BACKOFF }
    }

    /// The binary exited after running for `ran_for`: how long to wait
    /// before restarting it. The wait after that doubles, up to the cap.
    pub fn on_exit(&mut self, ran_for: Option<u64>) -> (r: u64)
        requires
            old(self).current <= BACKOFF_CAP,
        ensures
            r == wait_for(old(self).current, ran_for),
            final(self).current == next_wait(r),
            final(self).current <= BACKOFF_CAP,
    {
        let wait = match ran_for {
            Some(t) => if t >= STABILITY_THRESHOLD {
                INITIAL_BACKOFF
            } else {
                self.current
            },
            None => self.current,
        };
        self.current = if 2 * wait < BACKOFF_CAP {
            2 * wait
        } else {
            BACKOFF_CAP
        };
        wait
    }
}

/// However often a binary fails, no wait exceeds the cap, and a binary that
/// stayed up long enough is restarted after the initial wait.
pub proof fn backoff_is_bounded(current: u64, ran_for: Option<u64>)
    requires
        current <= BACKOFF_CAP,
    ensures
        wait_for(current, ran_for) <= BACKOFF_CAP,
        next_wait(wait_for(current, ran_for)) <= BACKOFF_CAP,
        (ran_for matches Some(t) && t >= STABILITY_THRESHOLD) ==> wait_for(current, ran_for)
            == INITIAL_BACKOFF,
{
}

} // verus!
