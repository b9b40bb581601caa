//! The absolute component of a calendar duration: a signed span of time with
//! nanosecond resolution.
//!
//! The span is bounded to plus or minus `i64::MAX` milliseconds, the range of
//! the external date library's duration type, so that every value of this
//! type can be handed to that library when a date is shifted.
use vstd::prelude::*;

verus! {

/// Nanoseconds in one second.
pub const NANOS_PER_SEC: i128 = 1_000_000_000;

/// Nanoseconds in one day.
pub const NANOS_PER_DAY: i128 = 86_400_000_000_000;

/// The largest representable span, in nanoseconds: `i64::MAX` milliseconds.
pub const MAX_SPAN_NANOS: i128 = 9_223_372_036_854_775_807_000_000;

/// True when a span of `n` nanoseconds is representable as a [`Duration`].
pub open spec fn in_span_range(n: int) -> bool {
    -MAX_SPAN_NANOS <= n <= MAX_SPAN_NANOS
}

/// Division rounding toward zero, as Rust's `/` computes it on integers.
pub open spec fn trunc_div(a: int, b: int) -> int {
    if (a >= 0) == (b >= 0) {
        (vstd::math::abs(a) / vstd::math::abs(b)) as int
    } else {
        -((vstd::math::abs(a) / vstd::math::abs(b)) as int)
    }
}

/// Remainder of [`trunc_div`]; it carries the sign of the dividend.
pub open spec fn trunc_rem(a: int, b: int) -> int {
    a - b * trunc_div(a, b)
}

/// A signed absolute span of time, counted in whole nanoseconds.
///
/// Its view is the signed count of nanoseconds, always within
/// [`in_span_range`].
#[derive(Clone, Copy, PartialEq, Eq, Structural, Hash, Debug, PartialOrd, Ord)]
pub struct Duration {
    nanos: i128,
}

impl View for Duration {
    type V = int;

    closed spec fn view(&self) -> int {
        self.nanos as int
    }
}

impl Duration {
    /// The representation invariant: the span lies within the supported range.
    pub closed spec fn wf(self) -> bool {
        in_span_range(self@)
    }

    /// A well-formed span lies within the supported range; callers can
    /// rely on this to discharge the range preconditions of the
    /// arithmetic.
    pub proof fn lemma_wf_range(self)
        requires
            self.wf(),
        ensures
            in_span_range(self@),
    {
    }

    /// A span of zero length.
    pub fn zero() -> (r: Duration)
        ensures
            r@ == 0,
            r.wf(),
    {
        Duration { nanos: 0 }
    }

    /// True when the span is zero.
    pub fn is_zero(&self) -> (r: bool)
        ensures
            r == (self@ == 0),
    {
        self.nanos == 0
    }

    /// Builds a span from whole seconds plus a non-negative subsecond
    /// nanosecond part; `None` when `nanos` is a second or more, or the total
    /// leaves the supported range.
    pub fn new(secs: i64, nanos: u32) -> (r: Option<Duration>)
        ensures
            r is Some <==> nanos < NANOS_PER_SEC && in_span_range(
                secs * NANOS_PER_SEC + nanos,
            ),
            r matches Some(d) ==> d@ == secs * NANOS_PER_SEC + nanos && d.wf(),
    {
        let total: i128 = (secs as i128) * NANOS_PER_SEC + (nanos as i128);
        if (nanos as i128) < NANOS_PER_SEC && -MAX_SPAN_NANOS <= total && total
            <= MAX_SPAN_NANOS {
            Some(Duration { nanos: total })
        } else {
            None
        }
    }

    /// A span of `secs` whole seconds.
    pub fn seconds(secs: i64) -> (r: Duration)
        requires
            in_span_range(secs * NANOS_PER_SEC),
        ensures
            r@ == secs * NANOS_PER_SEC,
            r.wf(),
    {
        Duration { nanos: (secs as i128) * NANOS_PER_SEC }
    }

    /// A span of `mins` whole minutes.
    pub fn minutes(mins: i64) -> (r: Duration)
        requires
            in_span_range(mins * 60 * NANOS_PER_SEC),
        ensures
            r@ == mins * 60 * NANOS_PER_SEC,
            r.wf(),
    {
        Duration { nanos: (mins as i128) * 60 * NANOS_PER_SEC }
    }

    /// A span of `hours` whole hours.
    pub fn hours(hours: i64) -> (r: Duration)
        requires
            in_span_range(hours * 3600 * NANOS_PER_SEC),
        ensures
            r@ == hours * 3600 * NANOS_PER_SEC,
            r.wf(),
    {
        Duration { nanos: (hours as i128) * 3600 * NANOS_PER_SEC }
    }

    /// A span of `days` periods of 24 hours.
    pub fn days(days: i64) -> (r: Duration)
        requires
            in_span_range(days * NANOS_PER_DAY),
        ensures
            r@ == days * NANOS_PER_DAY,
            r.wf(),
    {
        Duration { nanos: (days as i128) * NANOS_PER_DAY }
    }

    /// A span of `weeks` periods of 7 days.
    pub fn weeks(weeks: i64) -> (r: Duration)
        requires
            in_span_range(weeks * 7 * NANOS_PER_DAY),
        ensures
            r@ == weeks * 7 * NANOS_PER_DAY,
            r.wf(),
    {
        Duration { nanos: (weeks as i128) * 7 * NANOS_PER_DAY }
    }

    /// A span of `millis` whole milliseconds. Every value but `i64::MIN`
    /// (which lies just outside the supported range) is accepted.
    pub fn milliseconds(millis: i64) -> (r: Duration)
        requires
            millis != i64::MIN,
        ensures
            r@ == millis * 1_000_000,
            r.wf(),
    {
        Duration { nanos: (millis as i128) * 1_000_000 }
    }

    /// A span of `micros` whole microseconds.
    pub fn microseconds(micros: i64) -> (r: Duration)
        ensures
            r@ == micros * 1000,
            r.wf(),
    {
        Duration { nanos: (micros as i128) * 1000 }
    }

    /// A span of `nanos` nanoseconds.
    pub fn nanoseconds(nanos: i64) -> (r: Duration)
        ensures
            r@ == nanos as int,
            r.wf(),
    {
        Duration { nanos: nanos as i128 }
    }

    /// The span pointing the opposite way.
    pub fn neg(&self) -> (r: Duration)
        requires
            self.wf(),
        ensures
            r@ == -self@,
            r.wf(),
    {
        Duration { nanos: -self.nanos }
    }

    /// Component-wise sum; `None` when it leaves the supported range.
    pub fn checked_add(&self, rhs: &Duration) -> (r: Option<Duration>)
        requires
            self.wf(),
            rhs.wf(),
        ensures
            r is Some <==> in_span_range(self@ + rhs@),
            r matches Some(d) ==> d@ == self@ + rhs@ && d.wf(),
    {
        let total: i128 = self.nanos + rhs.nanos;
        if -MAX_SPAN_NANOS <= total && total <= MAX_SPAN_NANOS {
            Some(Duration { nanos: total })
        } else {
            None
        }
    }

    /// Difference of two spans; `None` when it leaves the supported range.
    pub fn checked_sub(&self, rhs: &Duration) -> (r: Option<Duration>)
        requires
            self.wf(),
            rhs.wf(),
        ensures
            r is Some <==> in_span_range(self@ - rhs@),
            r matches Some(d) ==> d@ == self@ - rhs@ && d.wf(),
    {
        let total: i128 = self.nanos - rhs.nanos;
        if -MAX_SPAN_NANOS <= total && total <= MAX_SPAN_NANOS {
            Some(Duration { nanos: total })
        } else {
            None
        }
    }

    /// The span scaled by `rhs`; `None` when it leaves the supported range.
    pub fn checked_mul(&self, rhs: i32) -> (r: Option<Duration>)
        requires
            self.wf(),
        ensures
            r is Some <==> in_span_range(self@ * rhs),
            r matches Some(d) ==> d@ == self@ * rhs && d.wf(),
    {
        proof {
            let a: int = self.nanos as int;
            let b: int = rhs as int;
            assert(-2147483648 * MAX_SPAN_NANOS <= a * b <= 2147483648
                * MAX_SPAN_NANOS) by (nonlinear_arith)
                requires
                    -MAX_SPAN_NANOS <= a <= MAX_SPAN_NANOS,
                    -2147483648 <= b <= 2147483648,
            ;
        }
        let total: i128 = self.nanos * (rhs as i128);
        if -MAX_SPAN_NANOS <= total && total <= MAX_SPAN_NANOS {
            Some(Duration { nanos: total })
        } else {
            None
        }
    }

    /// The span divided by `rhs`, rounding toward zero; `None` only when
    /// `rhs` is zero.
    pub fn checked_div(&self, rhs: i32) -> (r: Option<Duration>)
        requires
            self.wf(),
        ensures
            r is Some <==> rhs != 0,
            r matches Some(d) ==> d@ == trunc_div(self@, rhs as int) && d.wf(),
    {
        if rhs == 0 {
            None
        } else {
            let b: i128 = rhs as i128;
            let aa: i128 = if self.nanos >= 0 {
                self.nanos
            } else {
                -self.nanos
            };
            let bb: i128 = if b >= 0 {
                b
            } else {
                -b
            };
            let q0: i128 = aa / bb;
            let q: i128 = if (self.nanos >= 0) == (b >= 0) {
                q0
            } else {
                -q0
            };
            proof {
                lemma_trunc_div_bounded(self.nanos as int, rhs as int);
            }
            Some(Duration { nanos: q })
        }
    }

    /// Whole seconds in the span, rounded toward zero.
    pub fn num_seconds(&self) -> (r: i64)
        requires
            self.wf(),
        ensures
            r == trunc_div(self@, NANOS_PER_SEC as int),
    {
        proof {
            lemma_trunc_div_bounded(self.nanos as int, NANOS_PER_SEC as int);
        }
        (self.nanos / NANOS_PER_SEC) as i64
    }

    /// The subsecond part, in nanoseconds, carrying the sign of the span.
    pub fn subsec_nanos(&self) -> (r: i32)
        requires
            self.wf(),
        ensures
            r == trunc_rem(self@, NANOS_PER_SEC as int),
            r == self@ - NANOS_PER_SEC * trunc_div(self@, NANOS_PER_SEC as int),
            -1_000_000_000 < r < 1_000_000_000,
    {
        (self.nanos % NANOS_PER_SEC) as i32
    }

    /// The span split into whole seconds and a non-negative subsecond
    /// nanosecond part, the form the external date library stores.
    pub fn to_secs_nanos(&self) -> (r: (i64, u32))
        requires
            self.wf(),
        ensures
            r.0 * NANOS_PER_SEC + r.1 == self@,
            r.1 < NANOS_PER_SEC,
    {
        let q: i128 = self.nanos / NANOS_PER_SEC;
        let m: i128 = self.nanos % NANOS_PER_SEC;
        if m < 0 {
            ((q - 1) as i64, (m + NANOS_PER_SEC) as u32)
        } else {
            (q as i64, m as u32)
        }
    }

    /// Whole periods of 24 hours in the span, rounded toward zero.
    pub fn num_days(&self) -> (r: i64)
        requires
            self.wf(),
        ensures
            r == trunc_div(self@, NANOS_PER_DAY as int),
    {
        proof {
            lemma_trunc_div_bounded(self.nanos as int, NANOS_PER_DAY as int);
        }
        (self.nanos / NANOS_PER_DAY) as i64
    }
}

/// Dividing never grows the magnitude of the dividend.
proof fn lemma_trunc_div_bounded(a: int, b: int)
    requires
        b != 0,
    ensures
        vstd::math::abs(trunc_div(a, b)) <= vstd::math::abs(a),
{
    vstd::arithmetic::div_mod::lemma_div_pos_is_pos(
        vstd::math::abs(a) as int,
        vstd::math::abs(b) as int,
    );
    vstd::arithmetic::div_mod::lemma_div_nonincreasing(
        vstd::math::abs(a) as int,
        vstd::math::abs(b) as int,
    );
}

} // verus!
