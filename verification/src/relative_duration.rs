//! A relative time duration: a calendar month count together with an
//! absolute span of time.
use vstd::prelude::*;

use crate::date::DateF;
use crate::date::Datelike;
use crate::date::MAX_YEAR;
use crate::date::MIN_YEAR;
use crate::delta::month_shift_spec;
use crate::delta::shift_months_opt;
use crate::duration::Duration;
use crate::duration::NANOS_PER_DAY;
use crate::duration::NANOS_PER_SEC;
use crate::duration::in_span_range;
use crate::duration::trunc_div;

verus! {

/// The mathematical value of a relative duration: a month count and a span
/// in nanoseconds.
pub ghost struct RelDurF {
    pub months: int,
    pub nanos: int,
}

/// Relative time duration: a signed count of calendar months combined with
/// an absolute span of time. The two components are independent: fourteen
/// months is never folded into one year and two months at the value level,
/// and every operation acts on the components separately.
#[derive(Clone, Copy, PartialEq, Eq, Structural, Hash, Debug, PartialOrd, Ord)]
pub struct RelativeDuration {
    months: i32,
    duration: Duration,
}

impl View for RelativeDuration {
    type V = RelDurF;

    closed spec fn view(&self) -> RelDurF {
        RelDurF { months: self.months as int, nanos: self.duration@ }
    }
}

/// The result of applying a shift of `months` calendar months followed by
/// an absolute span of `nanos` nanoseconds to `date`: the month shift
/// resolves ambiguous month-ends backward first, and only then is the
/// span added; `None` when either stage leaves the supported range.
pub open spec fn apply_spec<D: Datelike>(date: D, months: int, nanos: int) -> Option<D> {
    let t = month_shift_spec(date.date_of(), months);
    if MIN_YEAR <= t.year <= MAX_YEAR {
        let s = choose|s: D| s.wf() && s.date_of() == t && s.same_clock(date);
        s.plus_span_spec(nanos)
    } else {
        None
    }
}

impl RelativeDuration {
    /// Makes a new `RelativeDuration` with the given number of years,
    /// counted as twelve months each.
    pub fn years(years: i32) -> (r: RelativeDuration)
        requires
            i32::MIN <= years * 12 <= i32::MAX,
        ensures
            r@ == (RelDurF { months: years * 12, nanos: 0 }),
            r.wf(),
    {
        RelativeDuration::months(years * 12)
    }

    /// Makes a new `RelativeDuration` with the given number of months.
    pub fn months(months: i32) -> (r: RelativeDuration)
        ensures
            r@ == (RelDurF { months: months as int, nanos: 0 }),
            r.wf(),
    {
        RelativeDuration { months, duration: Duration::zero() }
    }

    /// Makes a new `RelativeDuration` with the given number of weeks.
    pub fn weeks(weeks: i64) -> (r: RelativeDuration)
        requires
            in_span_range(weeks * 7 * NANOS_PER_DAY),
        ensures
            r@ == (RelDurF { months: 0, nanos: weeks * 7 * NANOS_PER_DAY }),
            r.wf(),
    {
        RelativeDuration { months: 0, duration: Duration::weeks(weeks) }
    }

    /// Makes a new `RelativeDuration` with the given number of days.
    pub fn days(days: i64) -> (r: RelativeDuration)
        requires
            in_span_range(days * NANOS_PER_DAY),
        ensures
            r@ == (RelDurF { months: 0, nanos: days * NANOS_PER_DAY }),
            r.wf(),
    {
        RelativeDuration { months: 0, duration: Duration::days(days) }
    }

    /// Makes a new `RelativeDuration` with the given number of hours.
    pub fn hours(hours: i64) -> (r: RelativeDuration)
        requires
            in_span_range(hours * 3600 * NANOS_PER_SEC),
        ensures
            r@ == (RelDurF { months: 0, nanos: hours * 3600 * NANOS_PER_SEC }),
            r.wf(),
    {
        RelativeDuration { months: 0, duration: Duration::hours(hours) }
    }

    /// Makes a new `RelativeDuration` with the given number of minutes.
    pub fn minutes(minutes: i64) -> (r: RelativeDuration)
        requires
            in_span_range(minutes * 60 * NANOS_PER_SEC),
        ensures
            r@ == (RelDurF { months: 0, nanos: minutes * 60 * NANOS_PER_SEC }),
            r.wf(),
    {
        RelativeDuration { months: 0, duration: Duration::minutes(minutes) }
    }

    /// Makes a new `RelativeDuration` with the given number of seconds.
    pub fn seconds(seconds: i64) -> (r: RelativeDuration)
        requires
            in_span_range(seconds * NANOS_PER_SEC),
        ensures
            r@ == (RelDurF { months: 0, nanos: seconds * NANOS_PER_SEC }),
            r.wf(),
    {
        RelativeDuration { months: 0, duration: Duration::seconds(seconds) }
    }

    /// Makes a new `RelativeDuration` with the given number of
    /// milliseconds.
    pub fn milliseconds(milliseconds: i64) -> (r: RelativeDuration)
        requires
            milliseconds != i64::MIN,
        ensures
            r@ == (RelDurF { months: 0, nanos: milliseconds * 1_000_000 }),
            r.wf(),
    {
        RelativeDuration { months: 0, duration: Duration::milliseconds(milliseconds) }
    }

    /// Makes a new `RelativeDuration` with the given number of
    /// microseconds.
    pub fn microseconds(microseconds: i64) -> (r: RelativeDuration)
        ensures
            r@ == (RelDurF { months: 0, nanos: microseconds * 1000 }),
            r.wf(),
    {
        RelativeDuration { months: 0, duration: Duration::microseconds(microseconds) }
    }

    /// Makes a new `RelativeDuration` with the given number of nanoseconds.
    pub fn nanoseconds(nanos: i64) -> (r: RelativeDuration)
        ensures
            r@ == (RelDurF { months: 0, nanos: nanos as int }),
            r.wf(),
    {
        RelativeDuration { months: 0, duration: Duration::nanoseconds(nanos) }
    }

    /// Update the absolute span of the current `RelativeDuration`, keeping
    /// its month count.
    pub fn with_duration(self, duration: Duration) -> (r: RelativeDuration)
        requires
            duration.wf(),
        ensures
            r@ == (RelDurF { months: self@.months, nanos: duration@ }),
            r.wf(),
    {
        RelativeDuration { months: self.months, duration }
    }

    /// A `RelativeDuration` representing zero.
    pub fn zero() -> (r: RelativeDuration)
        ensures
            r@ == (RelDurF { months: 0, nanos: 0 }),
            r.wf(),
    {
        RelativeDuration { months: 0, duration: Duration::zero() }
    }

    /// Returns true if the duration equals `RelativeDuration::zero()`.
    pub fn is_zero(&self) -> (r: bool)
        ensures
            r == (self@.months == 0 && self@.nanos == 0),
    {
        self.months == 0 && self.duration.is_zero()
    }

    /// The representation invariant: the absolute span lies in its
    /// supported range.
    pub closed spec fn wf(self) -> bool {
        self.duration.wf()
    }

    /// A well-formed relative duration keeps its month count within the
    /// 32-bit range and its span within the supported range; callers can
    /// rely on this to discharge the preconditions of the arithmetic.
    pub proof fn lemma_wf_bounds(self)
        requires
            self.wf(),
        ensures
            i32::MIN <= self@.months <= i32::MAX,
            in_span_range(self@.nanos),
    {
        self.duration.lemma_wf_range();
    }

    /// The month component.
    pub fn month_count(&self) -> (r: i32)
        ensures
            r as int == self@.months,
    {
        self.months
    }

    /// The absolute span component.
    pub fn abs_duration(&self) -> (r: Duration)
        requires
            self.wf(),
        ensures
            r@ == self@.nanos,
            r.wf(),
    {
        self.duration
    }

    /// Negates both components independently.
    pub fn neg(self) -> (r: RelativeDuration)
        requires
            self.wf(),
            self@.months != i32::MIN,
        ensures
            r@ == (RelDurF { months: -self@.months, nanos: -self@.nanos }),
            r.wf(),
    {
        RelativeDuration { months: -self.months, duration: self.duration.neg() }
    }

    /// Component-wise sum of two relative durations.
    pub fn add(self, rhs: RelativeDuration) -> (r: RelativeDuration)
        requires
            self.wf(),
            rhs.wf(),
            i32::MIN <= self@.months + rhs@.months <= i32::MAX,
            in_span_range(self@.nanos + rhs@.nanos),
        ensures
            r@ == (RelDurF {
                months: self@.months + rhs@.months,
                nanos: self@.nanos + rhs@.nanos,
            }),
            r.wf(),
    {
        RelativeDuration {
            months: self.months + rhs.months,
            duration: self.duration.checked_add(&rhs.duration).unwrap(),
        }
    }

    /// Component-wise difference of two relative durations.
    pub fn sub(self, rhs: RelativeDuration) -> (r: RelativeDuration)
        requires
            self.wf(),
            rhs.wf(),
            i32::MIN <= self@.months - rhs@.months <= i32::MAX,
            in_span_range(self@.nanos - rhs@.nanos),
        ensures
            r@ == (RelDurF {
                months: self@.months - rhs@.months,
                nanos: self@.nanos - rhs@.nanos,
            }),
            r.wf(),
    {
        RelativeDuration {
            months: self.months - rhs.months,
            duration: self.duration.checked_sub(&rhs.duration).unwrap(),
        }
    }

    /// Both components scaled by the same integer.
    pub fn mul(self, rhs: i32) -> (r: RelativeDuration)
        requires
            self.wf(),
            i32::MIN <= self@.months * rhs <= i32::MAX,
            in_span_range(self@.nanos * rhs),
        ensures
            r@ == (RelDurF { months: self@.months * rhs, nanos: self@.nanos * rhs }),
            r.wf(),
    {
        let months64: i64 = (self.months as i64) * (rhs as i64);
        RelativeDuration {
            months: months64 as i32,
            duration: self.duration.checked_mul(rhs).unwrap(),
        }
    }

    /// Both components divided by the same integer, each rounding toward
    /// zero independently; this can make `d.div(2).mul(2)` differ from `d`
    /// for odd month counts, as integer division does.
    pub fn div(self, rhs: i32) -> (r: RelativeDuration)
        requires
            self.wf(),
            rhs != 0,
            !(self@.months == i32::MIN && rhs == -1),
        ensures
            r@ == (RelDurF {
                months: trunc_div(self@.months, rhs as int),
                nanos: trunc_div(self@.nanos, rhs as int),
            }),
            r.wf(),
    {
        let mm: i64 = self.months as i64;
        let bb: i64 = rhs as i64;
        let ma: i64 = if mm >= 0 {
            mm
        } else {
            -mm
        };
        let ba: i64 = if bb >= 0 {
            bb
        } else {
            -bb
        };
        let q0: i64 = ma / ba;
        let q: i64 = if (mm >= 0) == (bb >= 0) {
            q0
        } else {
            -q0
        };
        proof {
            vstd::arithmetic::div_mod::lemma_div_pos_is_pos(ma as int, ba as int);
            vstd::arithmetic::div_mod::lemma_div_nonincreasing(ma as int, ba as int);
            if ba >= 2 {
                vstd::arithmetic::div_mod::lemma_div_is_ordered_by_denominator(ma as int, 2, ba as int);
                vstd::arithmetic::div_mod::lemma_div_is_ordered(ma as int, 0x8000_0000, 2);
            }
            assert(i32::MIN <= q <= i32::MAX);
        }
        RelativeDuration {
            months: q as i32,
            duration: self.duration.checked_div(rhs).unwrap(),
        }
    }

    /// Applies the duration to a date: the month component shifts the
    /// calendar first, ambiguous month-ends resolving backward, and the
    /// absolute span is added afterwards. `None` when either stage leaves
    /// the supported range.
    pub fn checked_apply_to_date<D: Datelike>(self, date: D) -> (r: Option<D>)
        requires
            self.wf(),
            date.wf(),
        ensures
            r == apply_spec(date, self@.months, self@.nanos),
            self@.months == 0 && self@.nanos == 0 ==> r == Some(date),
            r matches Some(v) ==> v.wf(),
    {
        proof {
            date.lemma_wf_valid();
            if self@.months == 0 {
                let d = date.date_of();
                vstd::arithmetic::div_mod::lemma_fundamental_div_mod_converse(
                    d.month - 1,
                    12,
                    0,
                    d.month - 1,
                );
                crate::delta::lemma_normalise_day_valid(d.year, d.month, d.day);
            }
        }
        let shifted: Option<D> = shift_months_opt(date, self.months);
        match shifted {
            None => None,
            Some(s) => {
                proof {
                    let t = month_shift_spec(date.date_of(), self@.months);
                    assert(s.wf() && s.date_of() == t && s.same_clock(date));
                    let w = choose|w: D| w.wf() && w.date_of() == t && w.same_clock(date);
                    s.lemma_clock_determines(w, date);
                    if self@.months == 0 && t == date.date_of() {
                        date.lemma_same_clock_refl();
                        s.lemma_clock_determines(date, date);
                    }
                }
                s.checked_add_span(&self.duration)
            },
        }
    }

    /// Applies the duration to a date, panicking inputs excluded: the
    /// caller guarantees that neither stage leaves the supported range.
    pub fn apply_to_date<D: Datelike>(self, date: D) -> (v: D)
        requires
            self.wf(),
            date.wf(),
            apply_spec(date, self@.months, self@.nanos) is Some,
        ensures
            Some(v) == apply_spec(date, self@.months, self@.nanos),
            v.wf(),
    {
        self.checked_apply_to_date(date).unwrap()
    }
}

} // verus!
