//! What the server is doing, counted while it does it.
//!
//! Counters and running maxima since start-up, not a time series: enough to
//! answer "is it slow, and since when" from one request.

use vstd::prelude::*;

use crate::num::max_u64;

verus! {

/// A count, a total and a worst case, all since start-up. The totals wrap
/// round rather than stop.
#[derive(Clone, Copy, Debug)]
pub struct Timing {
    pub count: u64,
    pub micros_total: u64,
    pub micros_max: u64,
    pub micros_last: u64,
}

impl Timing {
    /// The counters before anything happened.
    pub open spec fn zero() -> Timing {
        Timing { count: 0, micros_total: 0, micros_max: 0, micros_last: 0 }
    }

    /// The counters once one more has taken `micros`.
    pub open spec fn after(self, micros: u64) -> Timing {
        Timing {
            count: ((self.count + 1) % 0x1_0000_0000_0000_0000) as u64,
            micros_total: ((self.micros_total + micros) % 0x1_0000_0000_0000_0000) as u64,
            micros_max: if self.micros_max < micros {
                micros
            } else {
                self.micros_max
            },
            micros_last: micros,
        }
    }

    /// Nothing counted yet.
    pub fn new() -> (timing: Self)
        ensures
            timing == Timing::zero(),
    {
        Timing { count: 0, micros_total: 0, micros_max: 0, micros_last: 0 }
    }

    /// Count one that took `micros`.
    pub fn record(&mut self, micros: u64)
        ensures
            *final(self) == old(self).after(micros),
    {
        self.count = wrap_add(self.count, 1);
        self.micros_total = wrap_add(self.micros_total, micros);
        self.micros_last = micros;
        self.micros_max = max_u64(self.micros_max, micros);
    }

    /// What the counters say: the mean of nothing is zero.
    pub open spec fn said(self) -> TimingDto {
        TimingDto {
            count: self.count,
            micros_last: self.micros_last,
            micros_max: self.micros_max,
            micros_mean: if self.count == 0 {
                0
            } else {
                self.micros_total / self.count
            },
        }
    }

    /// What the counters say.
    pub fn snapshot(&self) -> (dto: TimingDto)
        ensures
            dto == self.said(),
    {
        TimingDto {
            count: self.count,
            micros_last: self.micros_last,
            micros_max: self.micros_max,
            micros_mean: if self.count == 0 {
                0
            } else {
                self.micros_total / self.count
            },
        }
    }
}

/// `a + b`, wrapping round at the end of the range.
fn wrap_add(a: u64, b: u64) -> (r: u64)
    ensures
        r == (a + b) % 0x1_0000_0000_0000_0000,
{
    let sum: u128 = a as u128 + b as u128;
    if sum > u64::MAX as u128 {
        (sum - 0x1_0000_0000_0000_0000) as u64
    } else {
        sum as u64
    }
}

/// How often something happened and how long it took, since start-up.
#[derive(Clone, Copy, Debug)]
pub struct TimingDto {
    pub count: u64,
    /// The most recent one.
    pub micros_last: u64,
    /// The worst since start-up. Never decays: it is a high-water mark.
    pub micros_max: u64,
    pub micros_mean: u64,
}

/// Everything counted on the way past.
#[derive(Clone, Copy, Debug)]
pub struct Metrics {
    /// Every HTTP request the router handled, whatever it answered.
    pub requests: Timing,
    /// Requests answered `4xx` or `5xx`, the rate-limited ones included.
    pub requests_failed: u64,
    /// Requests refused by the rate limiter.
    pub requests_limited: u64,
    /// One engine step: every symbol advanced and every fill booked.
    pub engine_step: Timing,
}

impl Metrics {
    /// A request that took `micros` was answered with `status`.
    pub open spec fn answered(self, before: Metrics, micros: u64, status: u16) -> bool {
        &&& self.requests == before.requests.after(micros)
        &&& self.requests_failed == (if status >= 400 {
            (before.requests_failed + 1) % 0x1_0000_0000_0000_0000
        } else {
            before.requests_failed as int
        })
        &&& self.requests_limited == (if status == 429 {
            (before.requests_limited + 1) % 0x1_0000_0000_0000_0000
        } else {
            before.requests_limited as int
        })
        &&& self.engine_step == before.engine_step
    }

    /// Book one handled request that took `micros` and was answered `status`.
    pub fn request(&mut self, micros: u64, status: u16)
        ensures
            final(self).answered(*old(self), micros, status),
    {
        self.requests.record(micros);
        if status >= 400 {
            self.requests_failed = wrap_add(self.requests_failed, 1);
        }
        if status == 429 {
            self.requests_limited = wrap_add(self.requests_limited, 1);
        }
    }

    /// Book one engine step.
    pub fn engine_step(&mut self, micros: u64)
        ensures
            final(self).engine_step == old(self).engine_step.after(micros),
            final(self).requests == old(self).requests,
            final(self).requests_failed == old(self).requests_failed,
            final(self).requests_limited == old(self).requests_limited,
    {
        self.engine_step.record(micros);
    }

    /// Everything counted so far.
    pub fn snapshot(&self) -> (dto: MetricsDto)
        ensures
            dto.requests == self.requests.said(),
            dto.requests_failed == self.requests_failed,
            dto.requests_limited == self.requests_limited,
            dto.engine_step == self.engine_step.said(),
    {
        MetricsDto {
            requests: self.requests.snapshot(),
            requests_failed: self.requests_failed,
            requests_limited: self.requests_limited,
            engine_step: self.engine_step.snapshot(),
        }
    }
}

impl Default for Metrics {
    fn default() -> (metrics: Self)
        ensures
            metrics.requests == Timing::zero(),
            metrics.requests_failed == 0,
            metrics.requests_limited == 0,
            metrics.engine_step == Timing::zero(),
    {
        Metrics { requests: Timing::new(), requests_failed: 0, requests_limited: 0, engine_step: Timing::new() }
    }
}

/// The counters, as they are reported.
#[derive(Clone, Copy, Debug)]
pub struct MetricsDto {
    pub requests: TimingDto,
    pub requests_failed: u64,
    pub requests_limited: u64,
    pub engine_step: TimingDto,
}

// ---------------------------------------------------------------------------
// Laws

/// The worst case is a high-water mark: nothing lowers it, and it is at least
/// what took longest last.
pub proof fn law_the_worst_never_decays(timing: Timing, micros: u64)
    ensures
        timing.after(micros).micros_max >= timing.micros_max,
        timing.after(micros).micros_max >= micros,
{
}

/// A measurement is counted once, added up, and is the last; the mean is the
/// total over the count, whole microseconds of it.
pub proof fn law_a_measurement_counts_once(timing: Timing, micros: u64, dto: TimingDto)
    requires
        timing.count < u64::MAX,
        timing.micros_total + micros <= u64::MAX,
        call_ensures(Timing::snapshot, (&timing.after(micros),), dto),
    ensures
        dto.count == timing.count + 1,
        dto.micros_last == micros,
        dto.micros_max == timing.micros_max || dto.micros_max == micros,
        dto.micros_max >= timing.micros_max && dto.micros_max >= micros,
        dto.micros_mean == (timing.micros_total + micros) / (timing.count + 1),
        timing.after(micros).micros_total == timing.micros_total + micros,
{
}

/// Before anything was measured there is nothing to show.
pub proof fn law_nothing_measured_is_nothing_shown(timing: Timing, dto: TimingDto)
    requires
        call_ensures(Timing::new, (), timing),
        call_ensures(Timing::snapshot, (&timing,), dto),
    ensures
        dto.count == 0 && dto.micros_last == 0 && dto.micros_max == 0 && dto.micros_mean == 0,
{
}

/// A request is timed, whatever came of it. One that failed is counted among
/// the failed, and one that was limited among those too.
pub proof fn law_a_request_is_counted_for_what_it_was(before: Metrics, after: Metrics, micros: u64, status: u16)
    requires
        after.answered(before, micros, status),
        before.requests_failed < u64::MAX,
        before.requests_limited < u64::MAX,
        before.requests.count < u64::MAX,
    ensures
        after.requests.count == before.requests.count + 1,
        after.requests.micros_last == micros,
        after.requests_failed == before.requests_failed + (if status >= 400 {
            1int
        } else {
            0
        }),
        after.requests_limited == before.requests_limited + (if status == 429 {
            1int
        } else {
            0
        }),
        after.engine_step == before.engine_step,
{
}

/// What is shown of the metrics is what was counted.
pub proof fn law_metrics_are_shown_as_counted(
    metrics: Metrics,
    dto: MetricsDto,
    requests: TimingDto,
    steps: TimingDto,
)
    requires
        call_ensures(Metrics::snapshot, (&metrics,), dto),
        call_ensures(Timing::snapshot, (&metrics.requests,), requests),
        call_ensures(Timing::snapshot, (&metrics.engine_step,), steps),
    ensures
        dto.requests == requests,
        dto.engine_step == steps,
        dto.requests_failed == metrics.requests_failed,
        dto.requests_limited == metrics.requests_limited,
{
}

} // verus!
