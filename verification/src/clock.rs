//! The two clocks the engine goes by.

use vstd::prelude::*;

verus! {

/// One reading of both clocks, in milliseconds: a clock that never goes
/// back, by which deadlines are kept, and the wall clock, counted from the
/// Unix epoch, by which clients name points in time.
#[derive(Debug, Clone, Copy, PartialEq, Eq)]
pub struct Clock {
    pub monotonic_ms: u64,
    pub unix_ms: u64,
}

/// `a + b`, or the largest value where the sum does not fit.
pub open spec fn saturating_sum(a: u64, b: u64) -> u64 {
    if a + b > u64::MAX {
        u64::MAX
    } else {
        (a + b) as u64
    }
}

/// `a * b`, or the largest value where the product does not fit.
pub open spec fn saturating_product(a: u64, b: u64) -> u64 {
    if a * b > u64::MAX {
        u64::MAX
    } else {
        (a * b) as u64
    }
}

impl Clock {
    /// A reading whose monotonic part the caller has taken, and whose wall
    /// clock is read now.
    pub fn reading(monotonic_ms: u64) -> (c: Clock)
        ensures
            c.monotonic_ms == monotonic_ms,
    {
        Clock { monotonic_ms, unix_ms: crate::streams::current_unix_timestamp_ms() }
    }

    /// The point on the monotonic clock at which the wall clock shows, or
    /// showed, `unix_target_ms`: now, for a target that is not in the future.
    pub open spec fn spec_deadline_at(self, unix_target_ms: u64) -> u64 {
        if unix_target_ms <= self.unix_ms {
            self.monotonic_ms
        } else {
            saturating_sum(self.monotonic_ms, (unix_target_ms - self.unix_ms) as u64)
        }
    }

    /// The point on the monotonic clock that lies `ms` after now.
    pub open spec fn spec_deadline_in(self, ms: u64) -> u64 {
        saturating_sum(self.monotonic_ms, ms)
    }

    pub fn deadline_at(&self, unix_target_ms: u64) -> (d: u64)
        ensures
            d == self.spec_deadline_at(unix_target_ms),
    {
        if unix_target_ms <= self.unix_ms {
            self.monotonic_ms
        } else {
            sum(self.monotonic_ms, unix_target_ms - self.unix_ms)
        }
    }

    pub fn deadline_in(&self, ms: u64) -> (d: u64)
        ensures
            d == self.spec_deadline_in(ms),
    {
        sum(self.monotonic_ms, ms)
    }
}

pub fn sum(a: u64, b: u64) -> (s: u64)
    ensures
        s == saturating_sum(a, b),
{
    if a > u64::MAX - b {
        u64::MAX
    } else {
        a + b
    }
}

pub fn product(a: u64, b: u64) -> (p: u64)
    ensures
        p == saturating_product(a, b),
{
    if b == 0 {
        assert(a * b == 0) by (nonlinear_arith)
            requires
                b == 0,
        ;
        0
    } else if a > u64::MAX / b {
        assert(a * b > u64::MAX) by (nonlinear_arith)
            requires
                b > 0,
                a > u64::MAX / b,
        ;
        u64::MAX
    } else {
        assert(a * b <= u64::MAX) by (nonlinear_arith)
            requires
                b > 0,
                a <= u64::MAX / b,
        ;
        a * b
    }
}

} // verus!
