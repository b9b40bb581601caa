use chronoutil::CalendarDate;
use chronoutil::CalendarDateTime;
use chronoutil::Duration;
use chronoutil::RelativeDuration;

fn ymd(y: i32, m: u32, d: u32) -> CalendarDate {
    CalendarDate::from_ymd_opt(y, m, d).unwrap()
}

#[test]
fn test_duration_arithmetic() {
    let x = RelativeDuration::months(5 * 12 + 7).with_duration(Duration::seconds(100));
    let y = RelativeDuration::months(3 * 12 + 6).with_duration(Duration::seconds(300));
    let z = Duration::days(100);
    let z_rel = RelativeDuration::months(0).with_duration(z);

    assert_eq!(
        x.add(y),
        RelativeDuration::months(9 * 12 + 1).with_duration(Duration::seconds(400))
    );
    assert_eq!(
        x.sub(y),
        RelativeDuration::months(2 * 12 + 1).with_duration(Duration::seconds(-200))
    );
    assert_eq!(
        x.add(z_rel),
        RelativeDuration::months(5 * 12 + 7)
            .with_duration(Duration::days(100).checked_add(&Duration::seconds(100)).unwrap())
    );

    assert_eq!(y.add(x), y.add(x), "Addition should be symmetric");
    assert_eq!(x.sub(y), y.sub(x).neg(), "Subtraction should be anti-symmetric");
    assert_eq!(y.add(z_rel), z_rel.add(y), "Addition should be symmetric");
    assert_eq!(y.sub(z_rel), z_rel.sub(y).neg(), "Subtraction should be anti-symmetric");

    assert_eq!(
        x.div(2),
        RelativeDuration::months(5 * 6 + 3).with_duration(Duration::seconds(50))
    );
    assert_eq!(
        x.mul(2),
        RelativeDuration::months(10 * 12 + 14).with_duration(Duration::seconds(200))
    );
}

#[test]
fn test_date_arithmetic() {
    let base = ymd(2020, 2, 29);

    assert_eq!(
        RelativeDuration::months(24).apply_to_date(base),
        ymd(2022, 2, 28)
    );
    assert_eq!(
        RelativeDuration::months(48).apply_to_date(base),
        ymd(2024, 2, 29)
    );

    let not_leap = ymd(2020, 2, 28);
    let tricky_delta = RelativeDuration::months(24).with_duration(Duration::days(1));
    assert_eq!(tricky_delta.apply_to_date(base), ymd(2022, 3, 1));
    assert_eq!(
        tricky_delta.apply_to_date(base),
        tricky_delta.apply_to_date(not_leap)
    );
}

#[test]
fn test_date_negative_arithmetic() {
    let base = ymd(2020, 2, 29);

    assert_eq!(
        RelativeDuration::months(24).neg().apply_to_date(base),
        ymd(2018, 2, 28)
    );
    assert_eq!(
        RelativeDuration::months(48).neg().apply_to_date(base),
        ymd(2016, 2, 29)
    );

    let not_leap = ymd(2020, 2, 28);
    let tricky_delta = RelativeDuration::months(24).with_duration(Duration::days(-1));
    assert_eq!(tricky_delta.neg().apply_to_date(base), ymd(2018, 3, 1));
    assert_eq!(
        tricky_delta.neg().apply_to_date(base),
        tricky_delta.neg().apply_to_date(not_leap)
    );
}

#[test]
fn test_constructors() {
    assert_eq!(RelativeDuration::years(5), RelativeDuration::months(60));
    assert_eq!(RelativeDuration::weeks(5), RelativeDuration::days(35));
    assert_eq!(RelativeDuration::days(5), RelativeDuration::hours(120));
    assert_eq!(RelativeDuration::hours(5), RelativeDuration::minutes(300));
    assert_eq!(RelativeDuration::minutes(5), RelativeDuration::seconds(300));
    assert_eq!(
        RelativeDuration::months(1).with_duration(Duration::weeks(3)),
        RelativeDuration::months(1).with_duration(Duration::days(21)),
    );
}

#[test]
fn test_zero_and_is_zero() {
    assert!(RelativeDuration::zero().is_zero());
    assert!(RelativeDuration::months(0).is_zero());
    assert!(!RelativeDuration::months(1).is_zero());
    assert!(!RelativeDuration::nanoseconds(1).is_zero());
    assert_eq!(
        RelativeDuration::zero(),
        RelativeDuration::months(0).with_duration(Duration::zero())
    );
}

#[test]
fn test_subsecond_constructors() {
    assert_eq!(
        RelativeDuration::milliseconds(1500),
        RelativeDuration::microseconds(1_500_000)
    );
    assert_eq!(
        RelativeDuration::microseconds(2000),
        RelativeDuration::nanoseconds(2_000_000)
    );
    assert_eq!(
        RelativeDuration::seconds(-1),
        RelativeDuration::milliseconds(-1000)
    );
}

// Applying a mixed duration resolves the month shift first, backward at
// month ends, and only then adds the absolute part: one month plus one day
// lands on March 1st from both Jan 30th and Jan 31st.
#[test]
fn test_apply_order_months_first() {
    let delta = RelativeDuration::months(1).with_duration(Duration::days(1));
    assert_eq!(delta.apply_to_date(ymd(2020, 1, 31)), ymd(2020, 3, 1));
    assert_eq!(delta.apply_to_date(ymd(2020, 1, 30)), ymd(2020, 3, 1));
}

// Adding a month twice differs from adding two months at once: the
// intermediate February end is remembered by the first and not the second.
#[test]
fn test_non_associative_application() {
    let base = ymd(2020, 1, 31);
    let one_month = RelativeDuration::months(1);
    let two_months = one_month.add(one_month);

    let stepwise = one_month.apply_to_date(one_month.apply_to_date(base));
    let at_once = two_months.apply_to_date(base);

    assert_eq!(stepwise, ymd(2020, 3, 29));
    assert_eq!(at_once, ymd(2020, 3, 31));
    assert_ne!(stepwise, at_once);
}

// The absolute part is applied through real calendar day arithmetic: a
// single day crosses month and year boundaries.
#[test]
fn test_day_arithmetic_crosses_boundaries() {
    let one_day = RelativeDuration::days(1);
    assert_eq!(one_day.apply_to_date(ymd(2020, 2, 28)), ymd(2020, 2, 29));
    assert_eq!(one_day.apply_to_date(ymd(2020, 2, 29)), ymd(2020, 3, 1));
    assert_eq!(one_day.apply_to_date(ymd(2019, 12, 31)), ymd(2020, 1, 1));
    assert_eq!(
        RelativeDuration::days(-1).apply_to_date(ymd(2020, 3, 1)),
        ymd(2020, 2, 29)
    );
}

// Sub-day spans truncate to whole days on a plain date, but carry across
// midnight on a date-time.
#[test]
fn test_subday_span_on_date_and_datetime() {
    let one_second = RelativeDuration::seconds(1);
    assert_eq!(one_second.apply_to_date(ymd(2020, 1, 1)), ymd(2020, 1, 1));

    let almost_midnight = CalendarDateTime::from_hms_opt(ymd(2020, 1, 31), 23, 59, 59).unwrap();
    let rolled = one_second.apply_to_date(almost_midnight);
    assert_eq!(rolled.date(), ymd(2020, 2, 1));
    assert_eq!(rolled.num_seconds_from_midnight(), 0);
}
