use std::collections::HashSet;

use chronoutil::CalendarDate;
use chronoutil::CalendarDateTime;
use chronoutil::is_leap_year;
use chronoutil::normalise_day;
use chronoutil::shift_months;
use chronoutil::shift_years;
use chronoutil::with_day;
use chronoutil::with_month;
use chronoutil::with_month_opt;
use chronoutil::with_year;

fn ymd(y: i32, m: u32, d: u32) -> CalendarDate {
    CalendarDate::from_ymd_opt(y, m, d).unwrap()
}

#[test]
fn test_leap_year_cases() {
    let _leap_years: Vec<i32> = vec![
        1904, 1908, 1912, 1916, 1920, 1924, 1928, 1932, 1936, 1940, 1944, 1948, 1952, 1956, 1960,
        1964, 1968, 1972, 1976, 1980, 1984, 1988, 1992, 1996, 2000, 2004, 2008, 2012, 2016, 2020,
    ];
    let leap_years_1900_to_2020: HashSet<i32> = _leap_years.into_iter().collect();

    for year in 1900..2021 {
        assert_eq!(is_leap_year(year), leap_years_1900_to_2020.contains(&year))
    }
}

#[test]
fn test_normalise_day() {
    assert_eq!(normalise_day(2020, 1, 28), 28);
    assert_eq!(normalise_day(2020, 2, 31), 29);
    assert_eq!(normalise_day(2021, 2, 31), 28);
    assert_eq!(normalise_day(2021, 4, 31), 30);
    assert_eq!(normalise_day(2021, 4, 30), 30);
    assert_eq!(normalise_day(2021, 12, 31), 31);
}

#[test]
fn test_shift_months() {
    let base = ymd(2020, 1, 31);

    assert_eq!(shift_months(base, 0), ymd(2020, 1, 31));
    assert_eq!(shift_months(base, 1), ymd(2020, 2, 29));
    assert_eq!(shift_months(base, 2), ymd(2020, 3, 31));
    assert_eq!(shift_months(base, 3), ymd(2020, 4, 30));
    assert_eq!(shift_months(base, 4), ymd(2020, 5, 31));
    assert_eq!(shift_months(base, 5), ymd(2020, 6, 30));
    assert_eq!(shift_months(base, 6), ymd(2020, 7, 31));
    assert_eq!(shift_months(base, 7), ymd(2020, 8, 31));
    assert_eq!(shift_months(base, 8), ymd(2020, 9, 30));
    assert_eq!(shift_months(base, 9), ymd(2020, 10, 31));
    assert_eq!(shift_months(base, 10), ymd(2020, 11, 30));
    assert_eq!(shift_months(base, 11), ymd(2020, 12, 31));
    assert_eq!(shift_months(base, 12), ymd(2021, 1, 31));
    assert_eq!(shift_months(base, 13), ymd(2021, 2, 28));

    assert_eq!(shift_months(base, -1), ymd(2019, 12, 31));
    assert_eq!(shift_months(base, -2), ymd(2019, 11, 30));
    assert_eq!(shift_months(base, -3), ymd(2019, 10, 31));
    assert_eq!(shift_months(base, -4), ymd(2019, 9, 30));
    assert_eq!(shift_months(base, -5), ymd(2019, 8, 31));
    assert_eq!(shift_months(base, -6), ymd(2019, 7, 31));
    assert_eq!(shift_months(base, -7), ymd(2019, 6, 30));
    assert_eq!(shift_months(base, -8), ymd(2019, 5, 31));
    assert_eq!(shift_months(base, -9), ymd(2019, 4, 30));
    assert_eq!(shift_months(base, -10), ymd(2019, 3, 31));
    assert_eq!(shift_months(base, -11), ymd(2019, 2, 28));
    assert_eq!(shift_months(base, -12), ymd(2019, 1, 31));
    assert_eq!(shift_months(base, -13), ymd(2018, 12, 31));

    assert_eq!(shift_months(base, 1265), ymd(2125, 6, 30));
}

#[test]
fn test_shift_months_with_overflow() {
    let base = ymd(2020, 12, 31);

    assert_eq!(shift_months(base, 0), base);
    assert_eq!(shift_months(base, 1), ymd(2021, 1, 31));
    assert_eq!(shift_months(base, 2), ymd(2021, 2, 28));
    assert_eq!(shift_months(base, 12), ymd(2021, 12, 31));
    assert_eq!(shift_months(base, 18), ymd(2022, 6, 30));

    assert_eq!(shift_months(base, -1), ymd(2020, 11, 30));
    assert_eq!(shift_months(base, -2), ymd(2020, 10, 31));
    assert_eq!(shift_months(base, -10), ymd(2020, 2, 29));
    assert_eq!(shift_months(base, -12), ymd(2019, 12, 31));
    assert_eq!(shift_months(base, -18), ymd(2019, 6, 30));
}

#[test]
fn test_shift_months_datetime() {
    let date = ymd(2020, 1, 31);
    let base = CalendarDateTime::from_hms_opt(date, 1, 2, 3).unwrap();
    let o_clock = 1 * 3600 + 2 * 60 + 3;

    assert_eq!(shift_months(base, 0).date(), ymd(2020, 1, 31));
    assert_eq!(shift_months(base, 1).date(), ymd(2020, 2, 29));
    assert_eq!(shift_months(base, 2).date(), ymd(2020, 3, 31));
    assert_eq!(shift_months(base, 0).num_seconds_from_midnight(), o_clock);
    assert_eq!(shift_months(base, 1).num_seconds_from_midnight(), o_clock);
    assert_eq!(shift_months(base, 2).num_seconds_from_midnight(), o_clock);
}

#[test]
fn test_shift_years() {
    let base = ymd(2020, 2, 29);

    assert_eq!(shift_years(base, 0), ymd(2020, 2, 29));
    assert_eq!(shift_years(base, 1), ymd(2021, 2, 28));
    assert_eq!(shift_years(base, 4), ymd(2024, 2, 29));
    assert_eq!(shift_years(base, 80), ymd(2100, 2, 28));
    assert_eq!(shift_years(base, -1), ymd(2019, 2, 28));
    assert_eq!(shift_years(base, -4), ymd(2016, 2, 29));
    assert_eq!(shift_years(base, -20), ymd(2000, 2, 29));
    assert_eq!(shift_years(base, -120), ymd(1900, 2, 28));
}

#[test]
fn test_with_day() {
    let start = ymd(2020, 2, 1);
    assert_eq!(with_day(start, 31), Some(ymd(2020, 2, 29)));
    assert_eq!(with_day(start, 0), None);
    assert_eq!(with_day(start, 42), None);
    assert_eq!(with_day(ymd(2021, 1, 15), 31), Some(ymd(2021, 1, 31)));
}

#[test]
fn test_with_month() {
    let base = ymd(2020, 1, 31);

    assert_eq!(with_month(base, 0), None);
    assert_eq!(with_month(base, 1), Some(base));
    assert_eq!(with_month(base, 2).unwrap(), ymd(2020, 2, 29));
    assert_eq!(with_month(base, 3).unwrap(), ymd(2020, 3, 31));
    assert_eq!(with_month(base, 4).unwrap(), ymd(2020, 4, 30));
    assert_eq!(with_month(base, 5).unwrap(), ymd(2020, 5, 31));
    assert_eq!(with_month(base, 6).unwrap(), ymd(2020, 6, 30));
    assert_eq!(with_month(base, 7).unwrap(), ymd(2020, 7, 31));
    assert_eq!(with_month(base, 8).unwrap(), ymd(2020, 8, 31));
    assert_eq!(with_month(base, 9).unwrap(), ymd(2020, 9, 30));
    assert_eq!(with_month(base, 10).unwrap(), ymd(2020, 10, 31));
    assert_eq!(with_month(base, 11).unwrap(), ymd(2020, 11, 30));
    assert_eq!(with_month(base, 12).unwrap(), ymd(2020, 12, 31));
    assert_eq!(with_month(base, 13), None);

    assert_eq!(with_month(ymd(2021, 1, 31), 2), Some(ymd(2021, 2, 28)));

    // Backwards shifts work too
    assert_eq!(with_month(ymd(2021, 2, 15), 1), Some(ymd(2021, 1, 15)));
}

#[test]
fn test_with_month_opt() {
    let base = CalendarDateTime::from_hms_opt(ymd(2020, 1, 31), 0, 0, 0).unwrap();
    let at_midnight =
        |y: i32, m: u32, d: u32| CalendarDateTime::from_hms_opt(ymd(y, m, d), 0, 0, 0).unwrap();

    assert_eq!(with_month_opt(base, 0), None);
    assert_eq!(with_month_opt(base, 1), Some(base));
    assert_eq!(with_month_opt(base, 2).unwrap(), at_midnight(2020, 2, 29));
    assert_eq!(with_month_opt(base, 3).unwrap(), at_midnight(2020, 3, 31));
    assert_eq!(with_month_opt(base, 12).unwrap(), at_midnight(2020, 12, 31));
    assert_eq!(with_month_opt(base, 13), None);

    // Backwards shifts work too
    assert_eq!(
        with_month_opt(at_midnight(2021, 2, 15), 1),
        Some(at_midnight(2021, 1, 15))
    );
}

// Shifting by twelve months always lands where shifting by one year does.
#[test]
fn test_twelve_months_equals_one_year() {
    for date in [ymd(2020, 2, 29), ymd(2020, 1, 31), ymd(2019, 6, 15), ymd(2100, 2, 28)] {
        assert_eq!(shift_months(date, 12), shift_years(date, 1));
        assert_eq!(shift_months(date, -12), shift_years(date, -1));
        assert_eq!(shift_months(date, 48), shift_years(date, 4));
    }
}

#[test]
fn test_with_year() {
    let base = ymd(2020, 2, 29);

    assert_eq!(with_year(base, 2024), ymd(2024, 2, 29));
    assert_eq!(with_year(base, 2021), ymd(2021, 2, 28));
    assert_eq!(with_year(base, 2020), ymd(2020, 2, 29));
    assert_eq!(with_year(base, 2019), ymd(2019, 2, 28));
    assert_eq!(with_year(base, 2016), ymd(2016, 2, 29));
}
