//! When the dashboard samples the machine again.
use vstd::prelude::*;

verus! {

/// `a - b`, or zero when `b` is larger.
pub open spec fn elapsed_since(now_nanos: u64, last_nanos: u64) -> u64 {
    if now_nanos >= last_nanos {
        (now_nanos - last_nanos) as u64
    } else {
        0
    }
}

/// How long to wait before a refresh is due: what is left of the period
/// since the last refresh, zero once it has passed.
pub open spec fn wait_time(period: u64, last_nanos: u64, now_nanos: u64) -> u64 {
    if elapsed_since(now_nanos, last_nanos) <= period {
        (period - elapsed_since(now_nanos, last_nanos)) as u64
    } else {
        0
    }
}

/// A refresh is due once a full period has passed since the last one.
pub open spec fn refresh_is_due(period: u64, last_nanos: u64, now_nanos: u64) -> bool {
    elapsed_since(now_nanos, last_nanos) >= period
}

/// The refresh period and the start of the last refresh, in nanoseconds of
/// a monotonic clock.
pub struct RefreshClock {
    tick_rate_nanos: u64,
    last_tick_nanos: u64,
}

impl RefreshClock {
    pub closed spec fn period(&self) -> u64 {
        self.tick_rate_nanos
    }

    pub closed spec fn last_tick(&self) -> u64 {
        self.last_tick_nanos
    }

    /// A clock that last refreshed at `now_nanos`.
    pub fn new(tick_rate_nanos: u64, now_nanos: u64) -> (r: Self)
        ensures
            r.period() == tick_rate_nanos,
            r.last_tick() == now_nanos,
    {
        RefreshClock { tick_rate_nanos, last_tick_nanos: now_nanos }
    }

    /// How long to wait for input before the next refresh is due (zero
    /// when it is due already).
    pub fn poll_timeout(&self, now_nanos: u64) -> (r: u64)
        ensures
            r == wait_time(self.period(), self.last_tick(), now_nanos),
    {
        let elapsed = now_nanos.saturating_sub(self.last_tick_nanos);
        self.tick_rate_nanos.saturating_sub(elapsed)
    }

    /// Whether a full period has passed since the last refresh.
    pub fn refresh_due(&self, now_nanos: u64) -> (r: bool)
        ensures
            r == refresh_is_due(self.period(), self.last_tick(), now_nanos),
    {
        now_nanos.saturating_sub(self.last_tick_nanos) >= self.tick_rate_nanos
    }

    /// Records a refresh that started at `started_nanos`.
    pub fn refreshed(&mut self, started_nanos: u64)
        ensures
            final(self).period() == old(self).period(),
            final(self).last_tick() == started_nanos,
    {
        self.last_tick_nanos = started_nanos;
    }
}

/// The loop stops waiting for input exactly when a refresh is due, and
/// right after a refresh the next one is a full period away.
pub proof fn lemma_wait_ends_when_refresh_due(period: u64, last_nanos: u64, now_nanos: u64)
    ensures
        (wait_time(period, last_nanos, now_nanos) == 0) == refresh_is_due(period, last_nanos, now_nanos),
        wait_time(period, now_nanos, now_nanos) == period,
{
}

} // verus!
