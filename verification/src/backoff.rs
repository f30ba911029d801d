//! Reconnect back-off as a pure state machine: exponential growth by a
//! rational multiplier up to a maximum interval, with a bound on the total
//! time spent, so that it can be reasoned about (and tested) without real
//! sleeps.

use vstd::prelude::*;

verus! {

/// Exponential back-off state. Intervals are milliseconds.
#[derive(Clone, Copy, Debug, PartialEq, Eq, Structural)]
pub struct ExponentialBackoff {
    /// The delay handed out right after a reset.
    pub initial_interval: u32,
    /// The delay the next failure will be given.
    pub current_interval: u32,
    /// Delays never grow beyond this.
    pub max_interval: u32,
    /// Each failure multiplies the delay by `multiplier_num / multiplier_den`.
    pub multiplier_num: u32,
    pub multiplier_den: u32,
    /// How much delay has been handed out since the last reset.
    pub elapsed: u64,
    /// Once `elapsed` exceeds this, the back-off gives up.
    pub max_elapsed: u64,
}

impl ExponentialBackoff {
    /// The multiplier never shrinks the delay and the bounds are ordered.
    pub open spec fn wf(self) -> bool {
        &&& self.multiplier_den >= 1
        &&& self.multiplier_num >= self.multiplier_den
        &&& self.initial_interval <= self.max_interval
        &&& self.initial_interval <= self.current_interval <= self.max_interval
    }

    /// The delay after one more failure: grown by the multiplier, capped at
    /// the maximum interval.
    pub open spec fn next_interval(self) -> u32 {
        let grown = (self.current_interval as int * self.multiplier_num as int) / (
        self.multiplier_den as int);
        if grown > self.max_interval {
            self.max_interval
        } else {
            grown as u32
        }
    }

    /// The state after handing out one delay.
    pub open spec fn after_backoff(self) -> ExponentialBackoff {
        ExponentialBackoff {
            current_interval: self.next_interval(),
            elapsed: if self.elapsed + self.current_interval <= u64::MAX {
                (self.elapsed + self.current_interval) as u64
            } else {
                u64::MAX
            },
            ..self
        }
    }

    /// Fresh back-off state.
    pub fn new(initial_interval: u32, max_interval: u32, multiplier_num: u32, multiplier_den: u32, max_elapsed: u64) -> (r:
        ExponentialBackoff)
        requires
            multiplier_den >= 1,
            multiplier_num >= multiplier_den,
            initial_interval <= max_interval,
        ensures
            r.wf(),
            r.initial_interval == initial_interval,
            r.current_interval == initial_interval,
            r.max_interval == max_interval,
            r.multiplier_num == multiplier_num,
            r.multiplier_den == multiplier_den,
            r.elapsed == 0,
            r.max_elapsed == max_elapsed,
    {
        ExponentialBackoff {
            initial_interval,
            current_interval: initial_interval,
            max_interval,
            multiplier_num,
            multiplier_den,
            elapsed: 0,
            max_elapsed,
        }
    }

    /// The next delay to sleep, or `None` once the total delay handed out
    /// has exceeded the bound.
    pub fn next_backoff(&mut self) -> (r: Option<u32>)
        requires
            old(self).wf(),
        ensures
            final(self).wf(),
            if old(self).elapsed > old(self).max_elapsed {
                (r is None) && *final(self) == *old(self)
            } else {
                r == Some(old(self).current_interval) && *final(self) == old(self).after_backoff()
            },
    {
        if self.elapsed > self.max_elapsed {
            return None;
        }
        let delay = self.current_interval;
        proof {
            lemma_grow_bounds(self.current_interval, self.multiplier_num, self.multiplier_den);
        }
        let grown_wide: u64 = (self.current_interval as u64 * self.multiplier_num as u64)
            / self.multiplier_den as u64;
        let grown: u32 = if grown_wide > self.max_interval as u64 {
            self.max_interval
        } else {
            grown_wide as u32
        };
        self.elapsed = if self.elapsed <= u64::MAX - delay as u64 {
            self.elapsed + delay as u64
        } else {
            u64::MAX
        };
        self.current_interval = grown;
        Some(delay)
    }

    /// A successful connection resets the delay to the initial value.
    pub fn reset(&mut self)
        requires
            old(self).wf(),
        ensures
            final(self).wf(),
            *final(self) == (ExponentialBackoff {
                current_interval: old(self).initial_interval,
                elapsed: 0,
                ..*old(self)
            }),
    {
        self.current_interval = self.initial_interval;
        self.elapsed = 0;
    }
}

/// Growing an interval by a multiplier that is at least one never shrinks
/// it.
proof fn lemma_grow_bounds(cur: u32, num: u32, den: u32)
    requires
        den >= 1,
        num >= den,
    ensures
        (cur as int * num as int) / (den as int) >= cur,
        cur as int * num as int <= u32::MAX * u32::MAX,
{
    assert((cur as int * num as int) / (den as int) >= cur) by (nonlinear_arith)
        requires
            den >= 1,
            num >= den,
            cur >= 0,
    {}
    assert(cur as int * num as int <= u32::MAX * u32::MAX) by (nonlinear_arith)
        requires
            cur <= u32::MAX,
            num <= u32::MAX,
    {}
}

/// Reconnect back-off law: successive delays never decrease, each delay is
/// within the configured maximum, and a reset brings the next delay back to
/// the initial interval.
pub proof fn lemma_backoff_monotone(b: ExponentialBackoff)
    requires
        b.wf(),
    ensures
        b.after_backoff().current_interval >= b.current_interval,
        b.current_interval <= b.max_interval,
        b.after_backoff().current_interval <= b.max_interval,
{
    lemma_grow_bounds(b.current_interval, b.multiplier_num, b.multiplier_den);
}

/// Over any run of consecutive delays the back-off hands out, each is at
/// least the one before it and none passes the maximum; the delay after a
/// reset is the initial interval again.
pub proof fn lemma_backoff_run(b: ExponentialBackoff)
    requires
        b.wf(),
        b.elapsed <= b.max_elapsed,
        b.after_backoff().elapsed <= b.max_elapsed,
    ensures
        b.after_backoff().current_interval >= b.current_interval,
        b.after_backoff().after_backoff().current_interval >= b.after_backoff().current_interval,
        b.after_backoff().current_interval <= b.max_interval,
        (ExponentialBackoff { current_interval: b.initial_interval, elapsed: 0, ..b })
            .current_interval == b.initial_interval,
{
    lemma_backoff_monotone(b);
    lemma_backoff_monotone(b.after_backoff());
}

} // verus!
