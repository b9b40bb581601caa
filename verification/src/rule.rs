//! Implements `DateRule`: evenly spaced dates computed from a fixed origin.
//!
//! The Nth produced value is always `origin` shifted by `step` scaled by N,
//! never the previous value shifted once more; repeated month-end
//! normalization therefore never accumulates drift.
use vstd::prelude::*;

use crate::Error;
use crate::date::DateF;
use crate::date::Datelike;
use crate::delta::normalise_day_spec;
use crate::delta::with_day;
use crate::duration::in_span_range;
use crate::relative_duration::RelDurF;
use crate::relative_duration::RelativeDuration;
use crate::relative_duration::apply_spec;

verus! {

/// DateRule is a generator of evenly spaced dates according to a given
/// `RelativeDuration`. It avoids some of the pitfalls that naive usage of
/// `RelativeDuration` can incur: every value is computed from the fixed
/// origin, so a truncated month-end is never carried into later values.
#[derive(Clone, Copy, PartialEq, Eq, Debug)]
pub struct DateRule<D: Datelike> {
    freq: RelativeDuration,
    start: D,
    end: Option<D>,
    count: Option<usize>,
    rolling_day: Option<u32>,
    current_count: usize,
}

impl<D: Datelike> DateRule<D> {
    /// The spacing between produced values.
    pub closed spec fn spec_freq(self) -> RelativeDuration {
        self.freq
    }

    /// The fixed origin every value is computed from.
    pub closed spec fn spec_start(self) -> D {
        self.start
    }

    /// The exclusive bound, if one was set.
    pub closed spec fn spec_end(self) -> Option<D> {
        self.end
    }

    /// The value limit, if one was set.
    pub closed spec fn spec_count(self) -> Option<usize> {
        self.count
    }

    /// The forced day of the month, if one was set.
    pub closed spec fn spec_rolling_day(self) -> Option<u32> {
        self.rolling_day
    }

    /// How many values have been produced so far.
    pub closed spec fn spec_cursor(self) -> usize {
        self.current_count
    }

    /// The rule's invariant: its parts are well-formed and a rolling day,
    /// when set, lies in 1 through 31.
    pub open spec fn wf(self) -> bool {
        &&& self.spec_freq().wf()
        &&& self.spec_start().wf()
        &&& match self.spec_end() {
            Some(e) => e.wf(),
            None => true,
        }
        &&& match self.spec_rolling_day() {
            Some(d) => 1 <= d <= 31,
            None => true,
        }
    }

    /// The k-th value before rolling-day adjustment: the origin shifted by
    /// the step scaled by k.
    pub open spec fn nth_raw_spec(self, k: int) -> Option<D> {
        apply_spec(self.spec_start(), self.spec_freq()@.months * k, self.spec_freq()@.nanos * k)
    }

    /// The rolling-day adjustment of a produced value: its day of the
    /// month is overwritten with the rolling day, normalized backward.
    pub open spec fn rolled_spec(self, v: D) -> D {
        match self.spec_rolling_day() {
            None => v,
            Some(rd) => {
                let t = DateF {
                    day: normalise_day_spec(v.date_of().year, v.date_of().month, rd as int),
                    ..v.date_of()
                };
                choose|w: D| w.wf() && w.date_of() == t && w.same_clock(v)
            },
        }
    }

    /// The k-th value the rule emits, before the end bound is applied.
    pub open spec fn nth_value_spec(self, k: int) -> Option<D> {
        match self.nth_raw_spec(k) {
            None => None,
            Some(v) => Some(self.rolled_spec(v)),
        }
    }

    /// True when the value limit has been reached.
    pub open spec fn count_exhausted(self) -> bool {
        match self.spec_count() {
            Some(c) => self.spec_cursor() >= c,
            None => false,
        }
    }

    /// True when `v` falls at or past the exclusive end bound. The
    /// direction is inferred from the relation between the end and the
    /// origin, not from the sign of the step.
    pub open spec fn crosses_end(self, v: D) -> bool {
        match self.spec_end() {
            None => false,
            Some(e) => if self.spec_start().le_spec(e) {
                e.le_spec(v)
            } else {
                v.le_spec(e)
            },
        }
    }

    /// True when the next value can be computed without leaving any
    /// machine or calendar range.
    pub open spec fn steps_safely(self) -> bool {
        let k = self.spec_cursor() as int;
        &&& k <= i32::MAX
        &&& i32::MIN <= self.spec_freq()@.months * k <= i32::MAX
        &&& in_span_range(self.spec_freq()@.nanos * k)
        &&& self.nth_raw_spec(k) is Some
    }

    /// Creates a new `DateRule` from an initial date and relative
    /// duration.
    pub fn new(start: D, freq: RelativeDuration) -> (r: DateRule<D>)
        requires
            start.wf(),
            freq.wf(),
        ensures
            r.wf(),
            r.spec_start() == start,
            r.spec_freq() == freq,
            r.spec_end() is None,
            r.spec_count() is None,
            r.spec_rolling_day() is None,
            r.spec_cursor() == 0,
    {
        DateRule {
            freq,
            start,
            end: None,
            count: None,
            rolling_day: None,
            current_count: 0,
        }
    }

    /// Creates a `DateRule` yielding dates one second apart.
    pub fn secondly(from: D) -> (r: DateRule<D>)
        requires
            from.wf(),
        ensures
            r.wf(),
            r.spec_start() == from,
            r.spec_freq()@ == (RelDurF { months: 0, nanos: 1_000_000_000 }),
            r.spec_end() is None,
            r.spec_count() is None,
            r.spec_rolling_day() is None,
            r.spec_cursor() == 0,
    {
        DateRule::new(from, RelativeDuration::seconds(1))
    }

    /// Creates a `DateRule` yielding dates one minute apart.
    pub fn minutely(from: D) -> (r: DateRule<D>)
        requires
            from.wf(),
        ensures
            r.wf(),
            r.spec_start() == from,
            r.spec_freq()@ == (RelDurF { months: 0, nanos: 60_000_000_000 }),
            r.spec_end() is None,
            r.spec_count() is None,
            r.spec_rolling_day() is None,
            r.spec_cursor() == 0,
    {
        DateRule::new(from, RelativeDuration::minutes(1))
    }

    /// Creates a `DateRule` yielding dates one hour apart.
    pub fn hourly(from: D) -> (r: DateRule<D>)
        requires
            from.wf(),
        ensures
            r.wf(),
            r.spec_start() == from,
            r.spec_freq()@ == (RelDurF { months: 0, nanos: 3_600_000_000_000 }),
            r.spec_end() is None,
            r.spec_count() is None,
            r.spec_rolling_day() is None,
            r.spec_cursor() == 0,
    {
        DateRule::new(from, RelativeDuration::hours(1))
    }

    /// Creates a `DateRule` yielding dates one day apart.
    pub fn daily(from: D) -> (r: DateRule<D>)
        requires
            from.wf(),
        ensures
            r.wf(),
            r.spec_start() == from,
            r.spec_freq()@ == (RelDurF { months: 0, nanos: 86_400_000_000_000 }),
            r.spec_end() is None,
            r.spec_count() is None,
            r.spec_rolling_day() is None,
            r.spec_cursor() == 0,
    {
        DateRule::new(from, RelativeDuration::days(1))
    }

    /// Creates a `DateRule` yielding dates one week apart.
    pub fn weekly(from: D) -> (r: DateRule<D>)
        requires
            from.wf(),
        ensures
            r.wf(),
            r.spec_start() == from,
            r.spec_freq()@ == (RelDurF { months: 0, nanos: 604_800_000_000_000 }),
            r.spec_end() is None,
            r.spec_count() is None,
            r.spec_rolling_day() is None,
            r.spec_cursor() == 0,
    {
        DateRule::new(from, RelativeDuration::weeks(1))
    }

    /// Creates a `DateRule` yielding dates one month apart.
    /// Ambiguous month-ends are shifted backwards as necessary.
    pub fn monthly(from: D) -> (r: DateRule<D>)
        requires
            from.wf(),
        ensures
            r.wf(),
            r.spec_start() == from,
            r.spec_freq()@ == (RelDurF { months: 1, nanos: 0 }),
            r.spec_end() is None,
            r.spec_count() is None,
            r.spec_rolling_day() is None,
            r.spec_cursor() == 0,
    {
        DateRule::new(from, RelativeDuration::months(1))
    }

    /// Creates a `DateRule` yielding dates one year apart.
    /// Ambiguous month-ends are shifted backwards as necessary.
    pub fn yearly(from: D) -> (r: DateRule<D>)
        requires
            from.wf(),
        ensures
            r.wf(),
            r.spec_start() == from,
            r.spec_freq()@ == (RelDurF { months: 12, nanos: 0 }),
            r.spec_end() is None,
            r.spec_count() is None,
            r.spec_rolling_day() is None,
            r.spec_cursor() == 0,
    {
        DateRule::new(from, RelativeDuration::years(1))
    }

    /// Limits the `DateRule` to a given number of dates, dropping any end
    /// bound; the returned rule starts over from the origin.
    pub fn with_count(&self, number: usize) -> (r: DateRule<D>)
        requires
            self.wf(),
        ensures
            r.wf(),
            r.spec_start() == self.spec_start(),
            r.spec_freq() == self.spec_freq(),
            r.spec_end() is None,
            r.spec_count() == Some(number),
            r.spec_rolling_day() == self.spec_rolling_day(),
            r.spec_cursor() == 0,
    {
        DateRule {
            freq: self.freq,
            start: self.start,
            end: None,
            count: Some(number),
            rolling_day: self.rolling_day,
            current_count: 0,
        }
    }

    /// Limits the `DateRule` to an extremal date (exclusive), dropping any
    /// count limit; the returned rule starts over from the origin.
    ///
    /// If the duration shifts dates backwards, the `end` date should be
    /// before the start date; the direction is inferred from the relation
    /// between the two, not from the step. A forward-shifting duration
    /// with an end before the start never terminates.
    pub fn with_end(&self, end: D) -> (r: DateRule<D>)
        requires
            self.wf(),
            end.wf(),
        ensures
            r.wf(),
            r.spec_start() == self.spec_start(),
            r.spec_freq() == self.spec_freq(),
            r.spec_end() == Some(end),
            r.spec_count() is None,
            r.spec_rolling_day() == self.spec_rolling_day(),
            r.spec_cursor() == 0,
    {
        DateRule {
            freq: self.freq,
            start: self.start,
            end: Some(end),
            count: None,
            rolling_day: self.rolling_day,
            current_count: 0,
        }
    }

    /// Ensures the `DateRule` yields dates which always fall on the given
    /// rolling day (modulo backwards shifting for month ends), keeping any
    /// end bound or count limit; the returned rule starts over from the
    /// origin. Returns an error if the rolling day is not in the range
    /// 1-31.
    pub fn with_rolling_day(&self, rolling_day: u32) -> (r: Result<DateRule<D>, Error>)
        requires
            self.wf(),
        ensures
            r is Ok <==> 1 <= rolling_day <= 31,
            r matches Ok(v) ==> v.wf() && v.spec_start() == self.spec_start() && v.spec_freq()
                == self.spec_freq() && v.spec_end() == self.spec_end() && v.spec_count()
                == self.spec_count() && v.spec_rolling_day() == Some(rolling_day)
                && v.spec_cursor() == 0,
            r matches Err(e) ==> e == Error::RollingDayOutOfRange,
    {
        if rolling_day == 0 || rolling_day > 31 {
            Err(Error::RollingDayOutOfRange)
        } else {
            Ok(
                DateRule {
                    freq: self.freq,
                    start: self.start,
                    end: self.end,
                    count: self.count,
                    rolling_day: Some(rolling_day),
                    current_count: 0,
                },
            )
        }
    }

    /// Produces the next date, or nothing once the rule is exhausted: the
    /// k-th produced value is always the origin shifted by the step scaled
    /// by k, adjusted to the rolling day when one is set, and the rule
    /// stops at the count limit or when a value crosses the end bound.
    pub fn next(&mut self) -> (r: Option<D>)
        requires
            old(self).wf(),
            old(self).count_exhausted() || old(self).steps_safely(),
        ensures
            final(self).wf(),
            r is Some <==> !old(self).count_exhausted() && (match old(self).nth_value_spec(
                old(self).spec_cursor() as int,
            ) {
                Some(v) => !old(self).crosses_end(v),
                None => false,
            }),
            r matches Some(v) ==> ({
                &&& Some(v) == old(self).nth_value_spec(old(self).spec_cursor() as int)
                &&& v.wf()
                &&& final(self).spec_start() == old(self).spec_start()
                &&& final(self).spec_freq() == old(self).spec_freq()
                &&& final(self).spec_end() == old(self).spec_end()
                &&& final(self).spec_count() == old(self).spec_count()
                &&& final(self).spec_rolling_day() == old(self).spec_rolling_day()
                &&& final(self).spec_cursor() == old(self).spec_cursor() + 1
            }),
            r is None ==> *final(self) == *old(self),
    {
        match self.count {
            Some(c) => {
                if self.current_count >= c {
                    return None;
                }
            },
            None => {},
        }
        let k: usize = self.current_count;
        let step: RelativeDuration = self.freq.mul(k as i32);
        let cand: D = step.apply_to_date(self.start);
        let cur: D = match self.rolling_day {
            Some(rd) => {
                let rolled: Option<D> = with_day(cand, rd);
                let v0: D = rolled.unwrap();
                proof {
                    let t = DateF {
                        day: normalise_day_spec(cand.date_of().year, cand.date_of().month, rd as int),
                        ..cand.date_of()
                    };
                    assert(v0.wf() && v0.date_of() == t && v0.same_clock(cand));
                    let w = choose|w: D| w.wf() && w.date_of() == t && w.same_clock(cand);
                    v0.lemma_clock_determines(w, cand);
                    assert(v0 == self.rolled_spec(cand));
                }
                v0
            },
            None => cand,
        };
        match self.end {
            Some(e) => {
                let crossed: bool = if self.start.le(&e) {
                    e.le(&cur)
                } else {
                    cur.le(&e)
                };
                if crossed {
                    return None;
                }
            },
            None => {},
        }
        self.current_count = k + 1;
        Some(cur)
    }
}

} // verus!
