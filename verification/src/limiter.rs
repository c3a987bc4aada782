//! Keeps error reports apart.
//!
//! Points in time are nanoseconds since some fixed point in the past.
use vstd::prelude::*;

verus! {

/// How long after a report the next one may come: fifty milliseconds.
pub const REPORT_PAUSE: u128 = 50_000_000;

/// Says when an error may be reported.
#[derive(Clone, Copy, Debug, PartialEq, Eq, Structural)]
pub struct ReportLimiter {
    /// Errors before this point in time are not reported.
    pub not_before: u128,
}

impl ReportLimiter {
    /// A limiter that lets errors be reported from `now` on.
    pub fn new(now: u128) -> (r: ReportLimiter)
        ensures
            r.not_before == now,
    {
        ReportLimiter { not_before: now }
    }

    /// Whether an error may be reported at `now`.
    pub open spec fn spec_may_report(self, now: u128) -> bool {
        now >= self.not_before
    }

    /// The limiter once an error was reported, which was done by `now`.
    pub open spec fn after_report(self, now: u128) -> ReportLimiter {
        ReportLimiter { not_before: (now + REPORT_PAUSE) as u128 }
    }

    /// Whether an error may be reported at `now`.
    pub fn may_report(&self, now: u128) -> (r: bool)
        ensures
            r == self.spec_may_report(now),
            r <==> now >= self.not_before,
    {
        now >= self.not_before
    }

    /// Takes note that an error was reported, which was done by `now`.
    pub fn reported(&mut self, now: u128)
        requires
            now + REPORT_PAUSE <= u128::MAX,
        ensures
            *final(self) == old(self).after_report(now),
            final(self).not_before == now + 50_000_000,
    {
        self.not_before = now + REPORT_PAUSE;
    }
}

/// After a report that was done by `now`, an error may be reported exactly from
/// fifty milliseconds later on.
pub proof fn law_reports_resume_after_the_pause(l: ReportLimiter, now: u128, later: u128)
    requires
        now + REPORT_PAUSE <= u128::MAX,
    ensures
        l.after_report(now).spec_may_report(later) <==> later - now >= 50_000_000,
        l.spec_may_report(now) <==> now >= l.not_before,
{
}

/// The limiter before the `i`th of some reports that were done by the points
/// in time in `done`.
pub open spec fn limiter_before(start: ReportLimiter, done: Seq<u128>, i: int) -> ReportLimiter
    decreases i,
{
    if i <= 0 {
        start
    } else {
        limiter_before(start, done, i - 1).after_report(done[i - 1])
    }
}

/// Whether errors can be reported one after the other, the `i`th one begun at
/// `begun[i]` because the limiter allowed it, and done by `done[i]`.
pub open spec fn reports(start: ReportLimiter, begun: Seq<u128>, done: Seq<u128>) -> bool {
    &&& begun.len() == done.len()
    &&& forall|i: int|
        0 <= i < begun.len() ==> limiter_before(start, done, i).spec_may_report(
            #[trigger] begun[i],
        ) && begun[i] <= done[i] <= u128::MAX - REPORT_PAUSE
}

/// From the end of a report to the begin of a later one it takes at least the
/// pause, once for each report from the one to the other.
pub proof fn law_reports_keep_apart(
    start: ReportLimiter,
    begun: Seq<u128>,
    done: Seq<u128>,
    i: int,
    j: int,
)
    requires
        reports(start, begun, done),
        0 <= i < j < begun.len(),
    ensures
        begun[j] - done[i] >= (j - i) * REPORT_PAUSE,
    decreases j - i,
{
    assert(limiter_before(start, done, j).spec_may_report(begun[j]));
    assert(begun[j - 1] <= done[j - 1] <= u128::MAX - REPORT_PAUSE);
    if i + 1 < j {
        law_reports_keep_apart(start, begun, done, i, j - 1);
        assert((j - i) * REPORT_PAUSE == (j - 1 - i) * REPORT_PAUSE + REPORT_PAUSE)
            by (nonlinear_arith);
    }
}

} // verus!
