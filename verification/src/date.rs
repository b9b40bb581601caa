//! Date and date-time values, and the capability interface through which
//! the shift algorithms see them.
//!
//! The calendar itself (what a valid day is, how month arithmetic works) is
//! this library's own logic; adding an absolute span of time to a date is
//! the external date library's work and is reached through trusted wrappers.
use vstd::prelude::*;

use crate::delta::days_in_month_spec;
use crate::delta::days_in_month;
use crate::duration::Duration;
use crate::duration::NANOS_PER_DAY;
use crate::duration::NANOS_PER_SEC;
use crate::duration::trunc_div;
use chrono::Datelike as _;
use chrono::Timelike as _;

verus! {

/// The first supported year, the lowest the external date library accepts.
pub const MIN_YEAR: i32 = -262143;

/// The last supported year, the highest the external date library accepts.
pub const MAX_YEAR: i32 = 262142;

/// Seconds in one day.
pub const SECS_PER_DAY: u32 = 86_400;

/// The mathematical value of a calendar date: a year, month and day.
pub ghost struct DateF {
    pub year: int,
    pub month: int,
    pub day: int,
}

/// The mathematical value of a date-time: a date plus the whole seconds and
/// subsecond nanoseconds since midnight.
pub ghost struct DateTimeF {
    pub date: DateF,
    pub secs: int,
    pub nanos: int,
}

/// True when `d` names a day that exists in the proleptic Gregorian
/// calendar, within the supported year range.
pub open spec fn valid_date(d: DateF) -> bool {
    &&& MIN_YEAR <= d.year <= MAX_YEAR
    &&& 1 <= d.month <= 12
    &&& 1 <= d.day <= days_in_month_spec(d.year, d.month)
}

/// True when `dt` is a valid date with a time of day below 24 hours, at
/// nanosecond resolution.
pub open spec fn valid_datetime(dt: DateTimeF) -> bool {
    &&& valid_date(dt.date)
    &&& 0 <= dt.secs < SECS_PER_DAY
    &&& 0 <= dt.nanos < NANOS_PER_SEC
}

/// Chronological order on dates: later years, then months, then days.
pub open spec fn date_le(a: DateF, b: DateF) -> bool {
    ||| a.year < b.year
    ||| (a.year == b.year && a.month < b.month)
    ||| (a.year == b.year && a.month == b.month && a.day <= b.day)
}

/// Chronological order on date-times: by date, then time of day.
pub open spec fn datetime_le(a: DateTimeF, b: DateTimeF) -> bool {
    if a.date == b.date {
        a.secs < b.secs || (a.secs == b.secs && a.nanos <= b.nanos)
    } else {
        date_le(a.date, b.date)
    }
}

/// What the external date library returns when `days` whole days are added
/// to the date `d`; `None` when the result leaves its supported range.
pub uninterp spec fn gregorian_plus_days(d: DateF, days: int) -> Option<DateF>;

/// What the external date library returns when a span of `nanos`
/// nanoseconds is added to the date-time `dt`; `None` when the result
/// leaves its supported range.
pub uninterp spec fn gregorian_plus_nanos(dt: DateTimeF, nanos: int) -> Option<DateTimeF>;

/// A day of the proleptic Gregorian calendar.
#[derive(Clone, Copy, PartialEq, Eq, Structural, Hash, Debug, PartialOrd, Ord)]
pub struct CalendarDate {
    year: i32,
    month: u8,
    day: u8,
}

impl View for CalendarDate {
    type V = DateF;

    closed spec fn view(&self) -> DateF {
        DateF { year: self.year as int, month: self.month as int, day: self.day as int }
    }
}

impl CalendarDate {
    /// Builds the date with the given year, month and day; `None` when that
    /// day does not exist or the year is outside the supported range.
    pub fn from_ymd_opt(year: i32, month: u32, day: u32) -> (r: Option<CalendarDate>)
        ensures
            r is Some <==> valid_date(
                DateF { year: year as int, month: month as int, day: day as int },
            ),
            r matches Some(v) ==> v@ == (DateF {
                year: year as int,
                month: month as int,
                day: day as int,
            }) && v.wf(),
    {
        if month < 1 || month > 12 || year < MIN_YEAR || year > MAX_YEAR {
            return None;
        }
        let dim: u32 = days_in_month(year, month);
        if day < 1 || day > dim {
            None
        } else {
            Some(CalendarDate { year, month: month as u8, day: day as u8 })
        }
    }
}

/// A calendar value that the shift algorithms can work on: it exposes its
/// date part, can replace one field of it at a time (failing when the
/// result would not exist), and can absorb an absolute span of time through
/// the external date library.
pub trait Datelike: Sized + Copy {
    /// The value is internally consistent.
    spec fn wf(self) -> bool;

    /// The calendar date part of the value.
    spec fn date_of(self) -> DateF;

    /// True when everything outside the date part (such as the time of day)
    /// agrees between the two values.
    spec fn same_clock(self, other: Self) -> bool;

    /// Chronological order.
    spec fn le_spec(self, other: Self) -> bool;

    /// The result of adding a span of `nanos` nanoseconds.
    spec fn plus_span_spec(self, nanos: int) -> Option<Self>;

    /// A well-formed value carries a valid date.
    proof fn lemma_wf_valid(self)
        requires
            self.wf(),
        ensures
            valid_date(self.date_of()),
    ;

    /// Everything agrees with itself outside the date part.
    proof fn lemma_same_clock_refl(self)
        ensures
            self.same_clock(self),
    ;

    /// Agreement outside the date part is transitive.
    proof fn lemma_same_clock_trans(self, b: Self, c: Self)
        requires
            self.same_clock(b),
            b.same_clock(c),
        ensures
            self.same_clock(c),
    ;

    /// Two values with the same date part, each agreeing with a common
    /// base outside the date part, are the same value.
    proof fn lemma_clock_determines(self, other: Self, base: Self)
        requires
            self.date_of() == other.date_of(),
            self.same_clock(base),
            other.same_clock(base),
        ensures
            self == other,
    ;

    /// The year.
    fn year(&self) -> (y: i32)
        requires
            self.wf(),
        ensures
            y as int == self.date_of().year,
    ;

    /// The month, 1 through 12.
    fn month(&self) -> (m: u32)
        requires
            self.wf(),
        ensures
            m as int == self.date_of().month,
    ;

    /// The day of the month, 1 through 31.
    fn day(&self) -> (d: u32)
        requires
            self.wf(),
        ensures
            d as int == self.date_of().day,
    ;

    /// The same value with the day of the month replaced; `None` when the
    /// resulting date would not exist.
    fn replace_day(&self, day: u32) -> (r: Option<Self>)
        requires
            self.wf(),
        ensures
            ({
                let t = DateF { day: day as int, ..self.date_of() };
                if valid_date(t) {
                    r matches Some(v) && v.wf() && v.date_of() == t && v.same_clock(*self)
                } else {
                    r is None
                }
            }),
    ;

    /// The same value with the month replaced; `None` when the resulting
    /// date would not exist.
    fn replace_month(&self, month: u32) -> (r: Option<Self>)
        requires
            self.wf(),
        ensures
            ({
                let t = DateF { month: month as int, ..self.date_of() };
                if valid_date(t) {
                    r matches Some(v) && v.wf() && v.date_of() == t && v.same_clock(*self)
                } else {
                    r is None
                }
            }),
    ;

    /// The same value with the year replaced; `None` when the resulting
    /// date would not exist or leaves the supported range.
    fn replace_year(&self, year: i32) -> (r: Option<Self>)
        requires
            self.wf(),
        ensures
            ({
                let t = DateF { year: year as int, ..self.date_of() };
                if valid_date(t) {
                    r matches Some(v) && v.wf() && v.date_of() == t && v.same_clock(*self)
                } else {
                    r is None
                }
            }),
    ;

    /// Adds an absolute span of time through the external date library;
    /// `None` when the result leaves its supported range. Adding the zero
    /// span returns the value unchanged.
    fn checked_add_span(&self, d: &Duration) -> (r: Option<Self>)
        requires
            self.wf(),
            d.wf(),
        ensures
            r == self.plus_span_spec(d@),
            d@ == 0 ==> r == Some(*self),
            r matches Some(v) ==> v.wf(),
    ;

    /// Chronological comparison: true when `self` is at or before `other`.
    fn le(&self, other: &Self) -> (r: bool)
        requires
            self.wf(),
            other.wf(),
        ensures
            r == self.le_spec(*other),
    ;
}

impl Datelike for CalendarDate {
    open spec fn wf(self) -> bool {
        valid_date(self@)
    }

    open spec fn date_of(self) -> DateF {
        self@
    }

    open spec fn same_clock(self, other: Self) -> bool {
        true
    }

    open spec fn le_spec(self, other: Self) -> bool {
        date_le(self@, other@)
    }

    closed spec fn plus_span_spec(self, nanos: int) -> Option<Self> {
        match gregorian_plus_days(self@, trunc_div(nanos, NANOS_PER_DAY as int)) {
            Some(df) => Some(
                CalendarDate { year: df.year as i32, month: df.month as u8, day: df.day as u8 },
            ),
            None => None,
        }
    }

    proof fn lemma_wf_valid(self) {
    }

    proof fn lemma_same_clock_refl(self) {
    }

    proof fn lemma_same_clock_trans(self, b: Self, c: Self) {
    }

    proof fn lemma_clock_determines(self, other: Self, base: Self) {
    }

    fn year(&self) -> (y: i32) {
        self.year
    }

    fn month(&self) -> (m: u32) {
        self.month as u32
    }

    fn day(&self) -> (d: u32) {
        self.day as u32
    }

    fn replace_day(&self, day: u32) -> (r: Option<Self>) {
        let dim: u32 = days_in_month(self.year, self.month as u32);
        if 1 <= day && day <= dim {
            Some(CalendarDate { day: day as u8, ..*self })
        } else {
            None
        }
    }

    fn replace_month(&self, month: u32) -> (r: Option<Self>) {
        if month < 1 || month > 12 {
            return None;
        }
        let dim: u32 = days_in_month(self.year, month);
        if (self.day as u32) <= dim {
            Some(CalendarDate { month: month as u8, ..*self })
        } else {
            None
        }
    }

    fn replace_year(&self, year: i32) -> (r: Option<Self>) {
        if year < MIN_YEAR || year > MAX_YEAR {
            return None;
        }
        let dim: u32 = days_in_month(year, self.month as u32);
        if (self.day as u32) <= dim {
            Some(CalendarDate { year, ..*self })
        } else {
            None
        }
    }

    fn checked_add_span(&self, d: &Duration) -> (r: Option<Self>) {
        let days: i64 = d.num_days();
        gregorian_date_plus_days(self, days)
    }

    fn le(&self, other: &Self) -> (r: bool) {
        if self.year != other.year {
            self.year < other.year
        } else if self.month != other.month {
            self.month < other.month
        } else {
            self.day <= other.day
        }
    }
}

/// Relies on chrono's `NaiveDate::checked_add_signed`: it adds the whole
/// days of the span to the date and fails exactly when the result leaves
/// the supported range; adding zero days returns the date unchanged.
#[verifier::external_body]
fn gregorian_date_plus_days(date: &CalendarDate, days: i64) -> (r: Option<CalendarDate>)
    requires
        date.wf(),
    ensures
        r is Some <==> gregorian_plus_days(date@, days as int) is Some,
        r matches Some(v) ==> Some(v@) == gregorian_plus_days(date@, days as int) && v.wf(),
        days == 0 ==> r == Some(*date),
{
    let nd = chrono::NaiveDate::from_ymd_opt(date.year(), date.month(), date.day())?;
    let delta = chrono::TimeDelta::try_days(days)?;
    let shifted = nd.checked_add_signed(delta)?;
    CalendarDate::from_ymd_opt(shifted.year(), shifted.month(), shifted.day())
}

/// A day of the proleptic Gregorian calendar together with a time of day,
/// held to nanosecond resolution.
#[derive(Clone, Copy, PartialEq, Eq, Structural, Hash, Debug, PartialOrd, Ord)]
pub struct CalendarDateTime {
    date: CalendarDate,
    secs: u32,
    nanos: u32,
}

impl View for CalendarDateTime {
    type V = DateTimeF;

    closed spec fn view(&self) -> DateTimeF {
        DateTimeF { date: self.date@, secs: self.secs as int, nanos: self.nanos as int }
    }
}

impl CalendarDateTime {
    /// Pairs a date with a time of day given as hours, minutes and seconds;
    /// `None` when the time does not exist.
    pub fn from_hms_opt(date: CalendarDate, hour: u32, min: u32, sec: u32) -> (r: Option<
        CalendarDateTime,
    >)
        requires
            date.wf(),
        ensures
            r is Some <==> hour < 24 && min < 60 && sec < 60,
            r matches Some(v) ==> v.wf() && v@ == (DateTimeF {
                date: date@,
                secs: hour * 3600 + min * 60 + sec,
                nanos: 0,
            }),
    {
        if hour < 24 && min < 60 && sec < 60 {
            Some(CalendarDateTime { date, secs: hour * 3600 + min * 60 + sec, nanos: 0 })
        } else {
            None
        }
    }

    /// Pairs a date with a time of day given as whole seconds and subsecond
    /// nanoseconds since midnight; `None` when the time does not exist.
    pub fn from_parts_opt(date: CalendarDate, secs: u32, nanos: u32) -> (r: Option<
        CalendarDateTime,
    >)
        requires
            date.wf(),
        ensures
            r is Some <==> secs < SECS_PER_DAY && nanos < NANOS_PER_SEC,
            r matches Some(v) ==> v.wf() && v@ == (DateTimeF {
                date: date@,
                secs: secs as int,
                nanos: nanos as int,
            }),
    {
        if secs < SECS_PER_DAY && (nanos as i128) < NANOS_PER_SEC {
            Some(CalendarDateTime { date, secs, nanos })
        } else {
            None
        }
    }

    /// The calendar date part.
    pub fn date(&self) -> (r: CalendarDate)
        requires
            self.wf(),
        ensures
            r@ == self@.date,
            r.wf(),
    {
        self.date
    }

    /// Whole seconds since midnight.
    pub fn num_seconds_from_midnight(&self) -> (r: u32)
        requires
            self.wf(),
        ensures
            r == self@.secs,
    {
        self.secs
    }

    /// The subsecond part of the time of day, in nanoseconds.
    pub fn nanosecond(&self) -> (r: u32)
        requires
            self.wf(),
        ensures
            r == self@.nanos,
    {
        self.nanos
    }

    /// The hour of the day, 0 through 23.
    pub fn hour(&self) -> (r: u32)
        requires
            self.wf(),
        ensures
            r == self@.secs / 3600,
    {
        self.secs / 3600
    }

    /// The minute of the hour, 0 through 59.
    pub fn minute(&self) -> (r: u32)
        requires
            self.wf(),
        ensures
            r == (self@.secs / 60) % 60,
    {
        (self.secs / 60) % 60
    }

    /// The second of the minute, 0 through 59.
    pub fn second(&self) -> (r: u32)
        requires
            self.wf(),
        ensures
            r == self@.secs % 60,
    {
        self.secs % 60
    }
}

impl Datelike for CalendarDateTime {
    open spec fn wf(self) -> bool {
        valid_datetime(self@)
    }

    open spec fn date_of(self) -> DateF {
        self@.date
    }

    open spec fn same_clock(self, other: Self) -> bool {
        self@.secs == other@.secs && self@.nanos == other@.nanos
    }

    open spec fn le_spec(self, other: Self) -> bool {
        datetime_le(self@, other@)
    }

    closed spec fn plus_span_spec(self, nanos: int) -> Option<Self> {
        match gregorian_plus_nanos(self@, nanos) {
            Some(f) => Some(
                CalendarDateTime {
                    date: CalendarDate {
                        year: f.date.year as i32,
                        month: f.date.month as u8,
                        day: f.date.day as u8,
                    },
                    secs: f.secs as u32,
                    nanos: f.nanos as u32,
                },
            ),
            None => None,
        }
    }

    proof fn lemma_wf_valid(self) {
    }

    proof fn lemma_same_clock_refl(self) {
    }

    proof fn lemma_same_clock_trans(self, b: Self, c: Self) {
    }

    proof fn lemma_clock_determines(self, other: Self, base: Self) {
    }

    fn year(&self) -> (y: i32) {
        self.date.year
    }

    fn month(&self) -> (m: u32) {
        self.date.month as u32
    }

    fn day(&self) -> (d: u32) {
        self.date.day as u32
    }

    fn replace_day(&self, day: u32) -> (r: Option<Self>) {
        match self.date.replace_day(day) {
            Some(d) => Some(CalendarDateTime { date: d, ..*self }),
            None => None,
        }
    }

    fn replace_month(&self, month: u32) -> (r: Option<Self>) {
        match self.date.replace_month(month) {
            Some(d) => Some(CalendarDateTime { date: d, ..*self }),
            None => None,
        }
    }

    fn replace_year(&self, year: i32) -> (r: Option<Self>) {
        match self.date.replace_year(year) {
            Some(d) => Some(CalendarDateTime { date: d, ..*self }),
            None => None,
        }
    }

    fn checked_add_span(&self, d: &Duration) -> (r: Option<Self>) {
        gregorian_datetime_plus_span(self, d)
    }

    fn le(&self, other: &Self) -> (r: bool) {
        if self.date != other.date {
            Datelike::le(&self.date, &other.date)
        } else if self.secs != other.secs {
            self.secs < other.secs
        } else {
            self.nanos <= other.nanos
        }
    }
}

/// Relies on chrono's `NaiveDateTime::checked_add_signed`: it adds the span
/// at nanosecond precision, carrying across day boundaries, and fails
/// exactly when the resulting date leaves the supported range; adding the
/// zero span returns the date-time unchanged.
#[verifier::external_body]
fn gregorian_datetime_plus_span(dt: &CalendarDateTime, d: &Duration) -> (r: Option<
    CalendarDateTime,
>)
    requires
        dt.wf(),
        d.wf(),
    ensures
        r is Some <==> gregorian_plus_nanos(dt@, d@) is Some,
        r matches Some(v) ==> Some(v@) == gregorian_plus_nanos(dt@, d@) && v.wf(),
        d@ == 0 ==> r == Some(*dt),
{
    let date = dt.date();
    let nd = chrono::NaiveDate::from_ymd_opt(date.year(), date.month(), date.day())?;
    let secs_of_day = dt.num_seconds_from_midnight();
    let time = chrono::NaiveTime::from_num_seconds_from_midnight_opt(secs_of_day, dt.nanosecond())?;
    let (secs, nanos) = d.to_secs_nanos();
    let delta = chrono::TimeDelta::new(secs, nanos)?;
    let s = chrono::NaiveDateTime::new(nd, time).checked_add_signed(delta)?;
    let out = CalendarDate::from_ymd_opt(s.year(), s.month(), s.day())?;
    CalendarDateTime::from_parts_opt(out, s.time().num_seconds_from_midnight(), s.time().nanosecond())
}

} // verus!
