//! How a render client treats the stream of show frames: which frame is
//! still worth drawing, and how often a failure that repeats is reported.
//!
//! Times are nanoseconds on the client's monotonic clock.

use vstd::prelude::*;

verus! {

/// How old the newest frame may be before a client stops drawing it: one
/// second.
pub const MAX_FRAME_AGE: u64 = 1000000000;

/// How long a run of failures goes unreported before its count is reported:
/// one second.
pub const ERROR_REPORT_PERIOD: u64 = 1000000000;

/// Time from `earlier` to `later`, or none if `earlier` is not earlier.
pub open spec fn elapsed(later: u64, earlier: u64) -> u64 {
    if later >= earlier {
        (later - earlier) as u64
    } else {
        0
    }
}

/// A show frame, and the moment it arrived.
pub struct ReceivedFrame<F> {
    pub frame: F,
    pub received_at: u64,
}

/// The frame to draw at `now`, if the stream is still current enough to
/// have one: the newest frame, while it is younger than [`MAX_FRAME_AGE`].
pub fn current_frame<F: Clone>(mailbox: &Option<ReceivedFrame<F>>, now: u64) -> (r: Option<F>)
    ensures
        match mailbox {
            Some(received) => if elapsed(now, received.received_at) < MAX_FRAME_AGE {
                r matches Some(f) && cloned(received.frame, f)
            } else {
                r is None
            },
            None => r is None,
        },
{
    match mailbox {
        Some(received) => {
            let age = if now >= received.received_at {
                now - received.received_at
            } else {
                0
            };
            if age < MAX_FRAME_AGE {
                Some(received.frame.clone())
            } else {
                None
            }
        },
        None => None,
    }
}

/// What a failure has to say for itself.
#[derive(Debug, Clone, Copy, PartialEq, Eq, Structural)]
pub enum ErrorReport {
    /// A failure that opens a run of them, worth reporting in full.
    First,
    /// How many failures a reporting period accumulated, this one included.
    Repeated(u64),
}

/// A running count of a failure that repeats, reported at a bounded rate.
pub struct ErrorThrottle {
    /// Failures counted since the last report.
    pub unreported: u64,
    /// When the last report was made, if any has been.
    pub reported_at: Option<u64>,
}

/// Whether a failure at `now` falls inside the period of the last report.
pub open spec fn within_period(reported_at: Option<u64>, now: u64) -> bool {
    match reported_at {
        Some(t) => elapsed(now, t) < ERROR_REPORT_PERIOD,
        None => false,
    }
}

impl ErrorThrottle {
    /// Nothing counted and nothing reported yet.
    pub fn new() -> (r: Self)
        ensures
            r.unreported == 0,
            r.reported_at is None,
    {
        ErrorThrottle { unreported: 0, reported_at: None }
    }

    /// Record a failure occurring at `now`, yielding what to report about it.
    ///
    /// The failure that opens a run is reported in full and those that follow
    /// it within a reporting period are only counted; the first failure past
    /// the period reports how many there have been. A failure arriving after
    /// a quiet stretch opens a fresh run.
    pub fn record(&mut self, now: u64) -> (r: Option<ErrorReport>)
        requires
            old(self).unreported < u64::MAX,
        ensures
            records(*old(self), now, *final(self), r),
            within_period(old(self).reported_at, now) ==> {
                &&& r is None
                &&& final(self).unreported == old(self).unreported + 1
                &&& final(self).reported_at == old(self).reported_at
            },
            !within_period(old(self).reported_at, now) ==> {
                &&& r == Some(
                    if old(self).unreported == 0 {
                        ErrorReport::First
                    } else {
                        ErrorReport::Repeated((old(self).unreported + 1) as u64)
                    },
                )
                &&& final(self).unreported == 0
                &&& final(self).reported_at == Some(now)
            },
    {
        let within = match self.reported_at {
            Some(reported_at) => {
                let since = if now >= reported_at {
                    now - reported_at
                } else {
                    0
                };
                since < ERROR_REPORT_PERIOD
            },
            None => false,
        };
        if within {
            self.unreported = self.unreported + 1;
            None
        } else {
            let counted = self.unreported;
            self.unreported = 0;
            self.reported_at = Some(now);
            Some(
                if counted == 0 {
                    ErrorReport::First
                } else {
                    ErrorReport::Repeated(counted + 1)
                },
            )
        }
    }
}

/// The report a failure gets when it closes a period in which `unreported`
/// others were only counted.
pub open spec fn closing_report(unreported: int) -> ErrorReport {
    if unreported == 0 {
        ErrorReport::First
    } else {
        ErrorReport::Repeated((unreported + 1) as u64)
    }
}

/// `after` and `r` are what recording a failure at `now` makes of `before`.
pub open spec fn records(before: ErrorThrottle, now: u64, after: ErrorThrottle, r: Option<
    ErrorReport,
>) -> bool {
    &&& before.unreported < u64::MAX
    &&& within_period(before.reported_at, now) ==> {
        &&& r is None
        &&& after.unreported == before.unreported + 1
        &&& after.reported_at == before.reported_at
    }
    &&& !within_period(before.reported_at, now) ==> {
        &&& r == Some(closing_report(before.unreported as int))
        &&& after.unreported == 0
        &&& after.reported_at == Some(now)
    }
}

/// The step of the last failure before step `k` that was reported, if any.
pub open spec fn last_report(results: Seq<Option<ErrorReport>>, k: int) -> Option<int>
    decreases k,
{
    if k <= 0 {
        None
    } else if results[k - 1] is Some {
        Some(k - 1)
    } else {
        last_report(results, k - 1)
    }
}

/// Whether `states`, `times` and `results` record a fresh throttle given a
/// failure at each of `times`, in order.
pub open spec fn is_failure_run(
    states: Seq<ErrorThrottle>,
    times: Seq<u64>,
    results: Seq<Option<ErrorReport>>,
) -> bool {
    &&& states.len() == times.len() + 1
    &&& results.len() == times.len()
    &&& states[0].unreported == 0
    &&& states[0].reported_at is None
    &&& forall|k: int|
        0 <= k < times.len() ==> #[trigger] records(states[k], times[k], states[k + 1], results[k])
}

proof fn throttle_tracks_the_last_report(
    states: Seq<ErrorThrottle>,
    times: Seq<u64>,
    results: Seq<Option<ErrorReport>>,
    k: int,
)
    requires
        is_failure_run(states, times, results),
        0 <= k <= times.len(),
    ensures
        match last_report(results, k) {
            None => states[k].unreported == 0 && states[k].reported_at is None,
            Some(p) => {
                &&& 0 <= p < k
                &&& states[k].reported_at == Some(times[p])
                &&& states[k].unreported == k - p - 1
            },
        },
    decreases k,
{
    if k > 0 {
        throttle_tracks_the_last_report(states, times, results, k - 1);
        assert(records(states[k - 1], times[k - 1], states[k - 1 + 1], results[k - 1]));
    }
}

/// A repeating failure is counted rather than reported. Given failures at
/// times that never go back, the first is reported in full; one less than
/// [`ERROR_REPORT_PERIOD`] after the last report is only counted; and the
/// first one past the period reports how many there were since that report,
/// itself included (in full again if it is the only one).
pub proof fn repeating_failures_are_counted(
    states: Seq<ErrorThrottle>,
    times: Seq<u64>,
    results: Seq<Option<ErrorReport>>,
    k: int,
)
    requires
        is_failure_run(states, times, results),
        forall|i: int, j: int| 0 <= i <= j < times.len() ==> times[i] <= times[j],
        0 <= k < times.len(),
    ensures
        match last_report(results, k) {
            None => results[k] == Some(ErrorReport::First),
            Some(p) => if times[k] - times[p] < ERROR_REPORT_PERIOD {
                results[k] is None
            } else {
                results[k] == Some(closing_report(k - p - 1))
            },
        },
{
    throttle_tracks_the_last_report(states, times, results, k);
    assert(records(states[k], times[k], states[k + 1], results[k]));
    if let Some(p) = last_report(results, k) {
        assert(times[p] <= times[k]);
    }
}

} // verus!
