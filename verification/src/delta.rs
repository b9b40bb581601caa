//! Utility functions for shifting date-like values by months and years.
//!
//! Ambiguous month-ends always resolve backward: when a shift lands on a day
//! that does not exist in the target month, the month's last day is taken,
//! with no memory of the original day.
use vstd::prelude::*;

use crate::date::DateF;
use crate::date::Datelike;
use crate::date::MAX_YEAR;
use crate::date::MIN_YEAR;

verus! {

/// True when `year` is a leap year in the proleptic Gregorian calendar:
/// divisible by 4, and not by 100 unless also by 400.
pub open spec fn is_leap_year_spec(year: int) -> bool {
    year % 4 == 0 && (year % 100 != 0 || year % 400 == 0)
}

/// The number of days in the given month of the given year.
pub open spec fn days_in_month_spec(year: int, month: int) -> int
    recommends
        1 <= month <= 12,
{
    if month == 2 {
        if is_leap_year_spec(year) {
            29
        } else {
            28
        }
    } else if month == 4 || month == 6 || month == 9 || month == 11 {
        30
    } else {
        31
    }
}

/// The nearest valid day at or below the requested one for the given year
/// and month: days at or below 28 pass unchanged, and a day that overflows
/// its month collapses to the month's last day.
pub open spec fn normalise_day_spec(year: int, month: int, day: int) -> int
    recommends
        1 <= month <= 12,
        1 <= day <= 31,
{
    if day <= 28 {
        day
    } else if month == 2 {
        if is_leap_year_spec(year) {
            29
        } else {
            28
        }
    } else if day == 31 && (month == 4 || month == 6 || month == 9 || month == 11) {
        30
    } else {
        day
    }
}

/// The date reached from `d` after a shift of `months` calendar months: the
/// target month is found first, then the day collapses backward if it does
/// not exist there.
pub open spec fn month_shift_spec(d: DateF, months: int) -> DateF {
    let t = d.month + months - 1;
    let ny = d.year + t / 12;
    let nm = (t % 12) + 1;
    DateF { year: ny, month: nm, day: normalise_day_spec(ny, nm, d.day) }
}

/// A multiple of `b` stays a multiple under negation, and nothing else
/// becomes one.
proof fn lemma_neg_mod_zero(a: int, b: int)
    requires
        b > 0,
    ensures
        ((-a) % b == 0) <==> (a % b == 0),
{
    let q = a / b;
    vstd::arithmetic::div_mod::lemma_fundamental_div_mod(a, b);
    if a % b == 0 {
        assert(-a == (-q) * b) by (nonlinear_arith)
            requires
                a == q * b + 0,
        ;
        vstd::arithmetic::div_mod::lemma_mod_multiples_basic(-q, b);
    }
    let nq = (-a) / b;
    vstd::arithmetic::div_mod::lemma_fundamental_div_mod(-a, b);
    if (-a) % b == 0 {
        assert(a == (-nq) * b) by (nonlinear_arith)
            requires
                -a == nq * b + 0,
        ;
        vstd::arithmetic::div_mod::lemma_mod_multiples_basic(-nq, b);
    }
}

/// Returns true if the year is a leap-year, as naively defined in the
/// Gregorian calendar.
pub fn is_leap_year(year: i32) -> (r: bool)
    ensures
        r == is_leap_year_spec(year as int),
{
    let m4: i32 = year % 4;
    let m100: i32 = year % 100;
    let m400: i32 = year % 400;
    proof {
        if year < 0 {
            lemma_neg_mod_zero(year as int, 4);
            lemma_neg_mod_zero(year as int, 100);
            lemma_neg_mod_zero(year as int, 400);
        }
    }
    m4 == 0 && (m100 != 0 || m400 == 0)
}

/// The number of days in the given month of the given year.
pub(crate) fn days_in_month(year: i32, month: u32) -> (r: u32)
    requires
        1 <= month <= 12,
    ensures
        r == days_in_month_spec(year as int, month as int),
        28 <= r <= 31,
{
    if month == 2 {
        if is_leap_year(year) {
            29
        } else {
            28
        }
    } else if month == 4 || month == 6 || month == 9 || month == 11 {
        30
    } else {
        31
    }
}

/// If the day lies within the month, this function has no effect. Otherwise,
/// it shifts the day backwards to the final day of the month. Days outside
/// the 1-31 range are not handled.
pub fn normalise_day(year: i32, month: u32, day: u32) -> (r: u32)
    ensures
        r == normalise_day_spec(year as int, month as int, day as int),
{
    if day <= 28 {
        day
    } else if month == 2 {
        if is_leap_year(year) {
            29
        } else {
            28
        }
    } else if day == 31 && (month == 4 || month == 6 || month == 9 || month == 11) {
        30
    } else {
        day
    }
}

/// A normalised day is always valid for its month, provided the requested
/// day was in the 1-31 range, and it never exceeds the requested day's
/// original month position.
pub proof fn lemma_normalise_day_valid(year: int, month: int, day: int)
    requires
        1 <= month <= 12,
        1 <= day <= 31,
    ensures
        1 <= normalise_day_spec(year, month, day) <= days_in_month_spec(year, month),
        normalise_day_spec(year, month, day) <= day,
        day <= days_in_month_spec(year, month) ==> normalise_day_spec(year, month, day) == day,
{
}

/// A normalised day is exactly the requested day clamped to the month's
/// last day: ambiguous month-ends resolve backward to the final day, and
/// no further.
pub proof fn lemma_normalise_day_clamps(year: int, month: int, day: int)
    requires
        1 <= month <= 12,
        1 <= day <= 31,
    ensures
        normalise_day_spec(year, month, day) == if day <= days_in_month_spec(year, month) {
            day
        } else {
            days_in_month_spec(year, month)
        },
{
}

/// The position of a date's month on the time line, counted in months.
pub open spec fn month_index(d: DateF) -> int {
    d.year * 12 + d.month - 1
}

/// Month shifts move the month by exactly the shift count, so shifting
/// twice lands in the same month as one combined shift: only the day of
/// the month remembers anything, and it remembers only the starting day
/// as clamped by the month it last landed in.
pub proof fn lemma_month_shift_additive(d: DateF, a: int, b: int)
    ensures
        month_index(month_shift_spec(d, a)) == month_index(d) + a,
        month_index(month_shift_spec(month_shift_spec(d, a), b)) == month_index(d) + a + b,
        month_index(month_shift_spec(d, a + b)) == month_index(d) + a + b,
{
    lemma_month_shift_index(d, a);
    lemma_month_shift_index(month_shift_spec(d, a), b);
    lemma_month_shift_index(d, a + b);
}

/// One month shift adds its count to the month position.
proof fn lemma_month_shift_index(d: DateF, n: int)
    ensures
        month_index(month_shift_spec(d, n)) == month_index(d) + n,
{
    let t = d.month + n - 1;
    vstd::arithmetic::div_mod::lemma_fundamental_div_mod(t, 12);
}

/// The date reached from `d` after a shift of `years` calendar years.
pub open spec fn year_shift_spec(d: DateF, years: int) -> DateF {
    month_shift_spec(d, 12 * years)
}

/// Shifting by twelve months lands on the same date as shifting by one
/// year, from any starting date; more generally a shift of `12 * n` months
/// is a shift of `n` years.
pub proof fn lemma_twelve_months_is_one_year(d: DateF, years: int)
    ensures
        month_shift_spec(d, 12 * years) == year_shift_spec(d, years),
        month_shift_spec(d, 12) == year_shift_spec(d, 1),
{
}

/// Same as [`shift_months`] except fallible on unresolvable dates.
///
/// Returns `None` rather than panicking when the shift leaves the supported
/// year range.
pub fn shift_months_opt<D: Datelike>(date: D, months: i32) -> (r: Option<D>)
    requires
        date.wf(),
    ensures
        r is Some <==> MIN_YEAR <= month_shift_spec(date.date_of(), months as int).year
            <= MAX_YEAR,
        r matches Some(v) ==> v.wf() && v.date_of() == month_shift_spec(
            date.date_of(),
            months as int,
        ) && v.same_clock(date),
{
    proof {
        date.lemma_wf_valid();
    }
    let t64: i64 = date.month() as i64 + months as i64 - 1;
    let q: i64 = t64 / 12;
    let m: i64 = t64 % 12;
    let fq: i64 = if m < 0 {
        q - 1
    } else {
        q
    };
    let fr: i64 = if m < 0 {
        m + 12
    } else {
        m
    };
    proof {
        vstd::arithmetic::div_mod::lemma_fundamental_div_mod_converse(
            t64 as int,
            12,
            fq as int,
            fr as int,
        );
    }
    let ny64: i64 = date.year() as i64 + fq;
    let nm: u32 = (fr + 1) as u32;
    if ny64 < MIN_YEAR as i64 || ny64 > MAX_YEAR as i64 {
        return None;
    }
    let ny: i32 = ny64 as i32;
    let nd: u32 = normalise_day(ny, nm, date.day());
    proof {
        lemma_normalise_day_valid(ny as int, nm as int, date.date_of().day);
    }
    if nd <= 28 {
        let s1: D = date.replace_day(nd)?;
        let s2: D = s1.replace_month(nm)?;
        let s3: D = s2.replace_year(ny)?;
        proof {
            s3.lemma_same_clock_trans(s2, s1);
            s3.lemma_same_clock_trans(s1, date);
        }
        Some(s3)
    } else {
        let s1: D = date.replace_day(1)?;
        let s2: D = s1.replace_month(nm)?;
        let s3: D = s2.replace_year(ny)?;
        let s4: D = s3.replace_day(nd)?;
        proof {
            s4.lemma_same_clock_trans(s3, s2);
            s4.lemma_same_clock_trans(s2, s1);
            s4.lemma_same_clock_trans(s1, date);
        }
        Some(s4)
    }
}

/// Shift a date by the given number of months.
/// Ambiguous month-ends are shifted backwards as necessary.
pub fn shift_months<D: Datelike>(date: D, months: i32) -> (v: D)
    requires
        date.wf(),
        MIN_YEAR <= month_shift_spec(date.date_of(), months as int).year <= MAX_YEAR,
    ensures
        v.wf(),
        v.date_of() == month_shift_spec(date.date_of(), months as int),
        v.same_clock(date),
{
    shift_months_opt(date, months).unwrap()
}

/// Same as [`shift_years`] except fallible on unresolvable dates.
///
/// Returns `None` rather than panicking when the shift leaves the supported
/// year range.
pub fn shift_years_opt<D: Datelike>(date: D, years: i32) -> (r: Option<D>)
    requires
        date.wf(),
        i32::MIN <= years * 12 <= i32::MAX,
    ensures
        r is Some <==> MIN_YEAR <= year_shift_spec(date.date_of(), years as int).year <= MAX_YEAR,
        r matches Some(v) ==> v.wf() && v.date_of() == year_shift_spec(
            date.date_of(),
            years as int,
        ) && v.same_clock(date),
{
    shift_months_opt(date, years * 12)
}

/// Shift a date by the given number of years.
/// Ambiguous month-ends are shifted backwards as necessary.
pub fn shift_years<D: Datelike>(date: D, years: i32) -> (v: D)
    requires
        date.wf(),
        i32::MIN <= years * 12 <= i32::MAX,
        MIN_YEAR <= year_shift_spec(date.date_of(), years as int).year <= MAX_YEAR,
    ensures
        v.wf(),
        v.date_of() == year_shift_spec(date.date_of(), years as int),
        v.same_clock(date),
{
    shift_years_opt(date, years).unwrap()
}

/// Shift the date to have the given day. Returns `None` if the day is not
/// in the range 1-31.
///
/// Ambiguous month-ends are shifted backwards as necessary.
pub fn with_day<D: Datelike>(date: D, day: u32) -> (r: Option<D>)
    requires
        date.wf(),
    ensures
        r is Some <==> 1 <= day <= 31,
        r matches Some(v) ==> v.wf() && v.date_of() == (DateF {
            day: normalise_day_spec(date.date_of().year, date.date_of().month, day as int),
            ..date.date_of()
        }) && v.same_clock(date),
{
    if day == 0 || day > 31 {
        None
    } else {
        proof {
            date.lemma_wf_valid();
            lemma_normalise_day_valid(date.date_of().year, date.date_of().month, day as int);
        }
        let nd: u32 = normalise_day(date.year(), date.month(), day);
        date.replace_day(nd)
    }
}

/// Shift the date to have the given month. Returns `None` if the month is
/// out of range.
///
/// Ambiguous month-ends are shifted backwards as necessary.
pub fn with_month<D: Datelike>(date: D, month: u32) -> (r: Option<D>)
    requires
        date.wf(),
    ensures
        r is Some <==> 1 <= month <= 12,
        r matches Some(v) ==> v.wf() && v.date_of() == month_shift_spec(
            date.date_of(),
            month - date.date_of().month,
        ) && v.same_clock(date),
{
    if month == 0 || month > 12 {
        None
    } else {
        proof {
            date.lemma_wf_valid();
            vstd::arithmetic::div_mod::lemma_fundamental_div_mod_converse(
                month - 1,
                12,
                0,
                month - 1,
            );
        }
        let delta: i32 = month as i32 - date.month() as i32;
        Some(shift_months(date, delta))
    }
}

/// Similar to [`with_month`] except it reports an unresolvable shift as
/// `None` as well; for the date types of this library the shift itself
/// never fails, since the month delta stays within one year.
pub fn with_month_opt<D: Datelike>(date: D, month: u32) -> (r: Option<D>)
    requires
        date.wf(),
    ensures
        r is Some <==> 1 <= month <= 12,
        r matches Some(v) ==> v.wf() && v.date_of() == month_shift_spec(
            date.date_of(),
            month - date.date_of().month,
        ) && v.same_clock(date),
{
    if month == 0 || month > 12 {
        None
    } else {
        proof {
            date.lemma_wf_valid();
            vstd::arithmetic::div_mod::lemma_fundamental_div_mod_converse(
                month - 1,
                12,
                0,
                month - 1,
            );
        }
        let delta: i32 = month as i32 - date.month() as i32;
        shift_months_opt(date, delta)
    }
}

/// Shift the date to have the given year.
///
/// Ambiguous month-ends are shifted backwards as necessary.
pub fn with_year<D: Datelike>(date: D, year: i32) -> (v: D)
    requires
        date.wf(),
        MIN_YEAR <= year <= MAX_YEAR,
    ensures
        v.wf(),
        v.date_of() == (DateF {
            year: year as int,
            month: date.date_of().month,
            day: normalise_day_spec(year as int, date.date_of().month, date.date_of().day),
        }),
        v.same_clock(date),
{
    with_year_opt(date, year).unwrap()
}

/// Same as [`with_year`] except fallible: returns `None` when the year is
/// outside the supported range.
pub fn with_year_opt<D: Datelike>(date: D, year: i32) -> (r: Option<D>)
    requires
        date.wf(),
    ensures
        r is Some <==> MIN_YEAR <= year <= MAX_YEAR,
        r matches Some(v) ==> v.wf() && v.date_of() == (DateF {
            year: year as int,
            month: date.date_of().month,
            day: normalise_day_spec(year as int, date.date_of().month, date.date_of().day),
        }) && v.same_clock(date),
{
    proof {
        date.lemma_wf_valid();
    }
    if year < MIN_YEAR || year > MAX_YEAR {
        return None;
    }
    let delta: i32 = year - date.year();
    proof {
        let d = date.date_of();
        vstd::arithmetic::div_mod::lemma_fundamental_div_mod_converse(
            d.month + 12 * (delta as int) - 1,
            12,
            delta as int,
            d.month - 1,
        );
    }
    shift_years_opt(date, delta)
}

} // verus!
