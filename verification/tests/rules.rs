use chronoutil::CalendarDate;
use chronoutil::CalendarDateTime;
use chronoutil::DateRule;
use chronoutil::Datelike;
use chronoutil::Error;
use chronoutil::RelativeDuration;

fn ymd(y: i32, m: u32, d: u32) -> CalendarDate {
    CalendarDate::from_ymd_opt(y, m, d).unwrap()
}

fn collect_rule<D: Datelike>(rule: &mut DateRule<D>) -> Vec<D> {
    let mut out: Vec<D> = Vec::new();
    while let Some(d) = rule.next() {
        out.push(d);
    }
    out
}

#[test]
fn test_rrule_with_date() {
    let start = ymd(2020, 1, 1);
    let next_day = ymd(2020, 1, 2);

    // Seconds, hours, minutes etc
    let mut secondly = DateRule::secondly(start).with_count(24 * 60 * 60 * 2);
    let mut i: usize = 0;
    while let Some(date) = secondly.next() {
        if i < 24 * 60 * 60 {
            assert_eq!(date, start, "Expected {} seconds to be on first day", i);
        } else {
            assert_eq!(date, next_day, "Expected {} seconds to be on second day", i);
        }
        i += 1;
    }
    assert_eq!(i, 24 * 60 * 60 * 2);

    let mut minutely = DateRule::minutely(start).with_count(24 * 60 * 2);
    let mut i: usize = 0;
    while let Some(date) = minutely.next() {
        if i < 24 * 60 {
            assert_eq!(date, start, "Expected {} minutes to be on first day", i);
        } else {
            assert_eq!(date, next_day, "Expected {} minutes to be on second day", i);
        }
        i += 1;
    }

    let mut hourly = DateRule::hourly(start).with_count(24 * 2);
    let mut i: usize = 0;
    while let Some(date) = hourly.next() {
        if i < 24 {
            assert_eq!(date, start, "Expected {} hours to be on first day", i);
        } else {
            assert_eq!(date, next_day, "Expected {} hours to be on second day", i);
        }
        i += 1;
    }

    // Days, weeks
    let days: Vec<CalendarDate> = collect_rule(&mut DateRule::daily(start).with_count(5));
    assert_eq!(days[0], start, "DateRule should start at the initial day");
    assert_eq!(days[1], next_day, "DateRule should increment in days");
    assert_eq!(days.len(), 5, "DateRule should finish before the count is up");

    let finish = ymd(2020, 1, 29);
    let weeks: Vec<CalendarDate> = collect_rule(&mut DateRule::weekly(start).with_end(finish));
    assert_eq!(weeks[0], start, "DateRule should start at the initial day");
    assert_eq!(weeks[1], ymd(2020, 1, 8), "DateRule should increment in weeks");
    assert_eq!(weeks.len(), 4, "DateRule should finish before the final day");

    // Months, years
    let interesting = ymd(2020, 1, 30); // The day will change each month

    let months: Vec<CalendarDate> = collect_rule(&mut DateRule::monthly(interesting).with_count(5));
    assert_eq!(months[0], interesting, "DateRule should start at the initial day");
    assert_eq!(months[1], ymd(2020, 2, 29), "DateRule should handle Feb");
    assert_eq!(months[2], ymd(2020, 3, 30), "DateRule should not loose days");
    assert_eq!(months.len(), 5, "DateRule should finish before the count is up");

    let years: Vec<CalendarDate> = collect_rule(&mut DateRule::yearly(interesting).with_count(3));
    assert_eq!(years[0], interesting, "DateRule should start at the initial day");
    assert_eq!(years[1], ymd(2021, 1, 30), "DateRule should increment in years");
    assert_eq!(years.len(), 3, "DateRule should finish before the count is up");
}

#[test]
fn test_rrule_with_datetime() {
    // Seconds
    let day = ymd(2020, 1, 1);
    let start = CalendarDateTime::from_hms_opt(day, 1, 2, 3).unwrap();

    let seconds_passed: usize = 60 * 60 + 2 * 60 + 3;

    let mut secondly = DateRule::secondly(start).with_count(24 * 60 * 60 * 2);
    let mut i: usize = 0;
    let mut prev = start;
    while let Some(date) = secondly.next() {
        if i > 0 {
            assert!(prev < date, "Time should increase");
        }

        if i < 24 * 60 * 60 - seconds_passed {
            assert_eq!(date.date(), day, "Expected {} seconds to be on first day", i);
        } else if i < 2 * 24 * 60 * 60 - seconds_passed {
            assert_eq!(date.date(), ymd(2020, 1, 2), "Expected {} to be on second day", i);
        } else {
            assert_eq!(date.date(), ymd(2020, 1, 3), "Expected {} to be on third day", i);
        }

        prev = date;
        i += 1;
    }

    // Months
    let interesting = ymd(2020, 1, 30); // The day will change each month
    let istart = CalendarDateTime::from_hms_opt(interesting, 1, 2, 3).unwrap();
    let o_clock = 1 * 3600 + 2 * 60 + 3;

    let months: Vec<CalendarDateTime> = collect_rule(&mut DateRule::monthly(istart).with_count(5));
    assert_eq!(months[0], istart, "DateRule should start at the initial day");
    assert_eq!(months[1].date(), ymd(2020, 2, 29), "DateRule should handle Feb");
    assert_eq!(months[1].num_seconds_from_midnight(), o_clock, "Time should remain the same");
    assert_eq!(months[2].date(), ymd(2020, 3, 30), "DateRule should not loose days");
    assert_eq!(months[2].num_seconds_from_midnight(), o_clock, "Time should remain the same");
}

#[test]
fn test_rrule_edge_cases() {
    let start = ymd(2020, 1, 1);

    // Zero count
    let mut dates: Vec<CalendarDate> = collect_rule(&mut DateRule::daily(start).with_count(0));
    assert_eq!(dates.len(), 0);

    // End equals start
    dates = collect_rule(&mut DateRule::daily(start).with_end(start));
    assert_eq!(dates.len(), 0);
}

#[test]
fn test_backwards_rrule() {
    let start = ymd(2020, 3, 31);
    let end = ymd(2019, 12, 31);
    let freq = RelativeDuration::months(-1);

    let dates1: Vec<CalendarDate> = collect_rule(&mut DateRule::new(start, freq).with_count(3));
    assert_eq!(dates1.len(), 3);
    assert_eq!(dates1[0], ymd(2020, 3, 31));
    assert_eq!(dates1[1], ymd(2020, 2, 29));
    assert_eq!(dates1[2], ymd(2020, 1, 31));

    let dates2: Vec<CalendarDate> = collect_rule(&mut DateRule::new(start, freq).with_end(end));

    assert_eq!(dates1.len(), dates2.len());
    for k in 0..dates1.len() {
        assert_eq!(dates1[k], dates2[k]);
    }
}

#[test]
fn test_long_running_rules() {
    // Sanity tests for long-running shifts with various start months
    for month in &[1u32, 3, 5, 7, 8, 10, 12] {
        let start = ymd(2020, *month, 31);
        let mut rule = DateRule::monthly(start);

        for _ in 0..120 {
            let shifted = rule.next().unwrap();
            if shifted.month() == 1 {
                assert_eq!(shifted.day(), 31)
            } else if shifted.month() == 4 {
                assert_eq!(shifted.day(), 30)
            }
        }

        let freq = RelativeDuration::months(-1);
        let mut rule = DateRule::new(start, freq);

        for _ in 0..120 {
            let shifted = rule.next().unwrap();
            if shifted.month() == 1 {
                assert_eq!(shifted.day(), 31)
            } else if shifted.month() == 4 {
                assert_eq!(shifted.day(), 30)
            }
        }
    }
}

// Drift-freedom: every value is computed from the fixed origin, so the
// 30th is never lost to a previously truncated February.
#[test]
fn test_monthly_sequence_is_drift_free() {
    let origin = ymd(2020, 1, 30);
    let months: Vec<CalendarDate> = collect_rule(&mut DateRule::monthly(origin).with_count(5));
    assert_eq!(months[1], ymd(2020, 2, 29));
    assert_eq!(months[3], ymd(2020, 4, 30));
}

#[test]
fn test_with_rolling_day() {
    let start = ymd(2020, 2, 29);
    let mut rule = DateRule::monthly(start).with_rolling_day(31).unwrap();

    assert_eq!(rule.next().unwrap(), ymd(2020, 2, 29));
    assert_eq!(rule.next().unwrap(), ymd(2020, 3, 31));
    assert_eq!(rule.next().unwrap(), ymd(2020, 4, 30));
    assert_eq!(rule.next().unwrap(), ymd(2020, 5, 31));

    assert_eq!(
        DateRule::monthly(start).with_rolling_day(0),
        Err(Error::RollingDayOutOfRange)
    );
    assert_eq!(
        DateRule::monthly(start).with_rolling_day(32),
        Err(Error::RollingDayOutOfRange)
    );
}

// Every builder returns a definition that starts over from the origin,
// the rolling-day builder included: deriving from a partly consumed rule
// does not inherit its position.
#[test]
fn test_builders_reset_to_origin() {
    let start = ymd(2020, 2, 29);
    let mut base = DateRule::monthly(start);
    assert_eq!(base.next().unwrap(), ymd(2020, 2, 29));
    assert_eq!(base.next().unwrap(), ymd(2020, 3, 29));

    let mut rolled = base.with_rolling_day(31).unwrap();
    assert_eq!(rolled.next().unwrap(), ymd(2020, 2, 29));
    assert_eq!(rolled.next().unwrap(), ymd(2020, 3, 31));

    let mut counted = base.with_count(2);
    assert_eq!(counted.next().unwrap(), ymd(2020, 2, 29));

    let mut ended = base.with_end(ymd(2020, 4, 1));
    assert_eq!(ended.next().unwrap(), ymd(2020, 2, 29));
}
