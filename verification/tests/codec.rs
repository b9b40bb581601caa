use chronoutil::Duration;
use chronoutil::Error;
use chronoutil::RelativeDuration;
use chronoutil::parse::dhmsn_to_duration;

#[test]
fn test_parse_duration() {
    [
        (
            "P1YT1S",
            RelativeDuration::months(12).with_duration(Duration::seconds(1)),
        ),
        (
            "P2Y2M2DT2H2M2S",
            RelativeDuration::months(2 * 12 + 2)
                .with_duration(dhmsn_to_duration(2, 2, 2, 2, 0).unwrap()),
        ),
        (
            "P1M",
            RelativeDuration::months(1).with_duration(Duration::zero()),
        ),
        ("PT10M", RelativeDuration::minutes(10)),
        ("P-1M", RelativeDuration::months(-1)),
        ("P1W1D", RelativeDuration::days(8)),
        (
            "P1Y-10M-1W3DT3H-6M-1S",
            RelativeDuration::months(2).with_duration(dhmsn_to_duration(-4, 3, -6, -1, 0).unwrap()),
        ),
        ("P-23M", RelativeDuration::months(-23)),
        ("PT0.0000000010S", RelativeDuration::nanoseconds(1)),
        ("PT0.1S", RelativeDuration::nanoseconds(100_000_000)),
        (
            "PT-0.999999999S",
            RelativeDuration::years(0).with_duration(dhmsn_to_duration(0, 0, 0, -1, 1).unwrap()),
        ),
    ]
    .iter()
    .for_each(|(input, expected)| {
        assert_eq!(RelativeDuration::parse_from_iso8601(input).unwrap(), *expected)
    })
}

#[test]
fn test_format_duration() {
    [
        (
            RelativeDuration::months(12).with_duration(Duration::seconds(1)),
            "P1YT1S",
        ),
        (
            RelativeDuration::months(2 * 12 + 2)
                .with_duration(dhmsn_to_duration(2, 2, 2, 2, 0).unwrap()),
            "P2Y2M2DT2H2M2S",
        ),
        (
            RelativeDuration::months(1).with_duration(Duration::zero()),
            "P1M",
        ),
        (RelativeDuration::minutes(10), "PT10M"),
        (RelativeDuration::months(-1), "P-1M"),
        (RelativeDuration::months(-23), "P-1Y-11M"),
        (RelativeDuration::nanoseconds(1), "PT0.000000001S"),
        (RelativeDuration::nanoseconds(100_000_000), "PT0.1S"),
        (
            RelativeDuration::years(0).with_duration(dhmsn_to_duration(0, 0, 0, -1, 1).unwrap()),
            "PT-0.999999999S",
        ),
    ]
    .iter()
    .for_each(|(input, expected)| assert_eq!(input.format_to_iso8601(), *expected))
}

// Round trips on a representative set: re-parsing a formatted value gives
// the value back, and canonical-form text survives a parse and format.
#[test]
fn test_iso8601_round_trip() {
    for s in ["P1M", "P1Y1M1W1DT1H1M1S", "P99999999Y11M30DT23H59M59.999999999S"] {
        let once = RelativeDuration::parse_from_iso8601(s).unwrap();
        let again = RelativeDuration::parse_from_iso8601(&once.format_to_iso8601()).unwrap();
        assert_eq!(once, again);
    }
    for s in ["P1M", "P99999999Y11M30DT23H59M59.999999999S", "PT-0.999999999S"] {
        assert_eq!(
            RelativeDuration::parse_from_iso8601(s).unwrap().format_to_iso8601(),
            s
        );
    }
}

// A negative subsecond value keeps its textual form through the codec.
#[test]
fn test_negative_fractional_seconds() {
    let parsed = RelativeDuration::parse_from_iso8601("PT-0.999999999S").unwrap();
    assert_eq!(parsed.format_to_iso8601(), "PT-0.999999999S");
}

#[test]
fn test_zero_duration_formats_as_bare_p() {
    assert_eq!(RelativeDuration::zero().format_to_iso8601(), "P");
    assert_eq!(
        RelativeDuration::parse_from_iso8601("P").unwrap(),
        RelativeDuration::zero()
    );
}

#[test]
fn test_parse_errors() {
    assert_eq!(
        RelativeDuration::parse_from_iso8601(""),
        Err(Error::MissingPrefix)
    );
    assert_eq!(
        RelativeDuration::parse_from_iso8601("1Y"),
        Err(Error::MissingPrefix)
    );
    assert_eq!(
        RelativeDuration::parse_from_iso8601("P0.5Y"),
        Err(Error::InvalidInteger)
    );
    assert_eq!(
        RelativeDuration::parse_from_iso8601("PY"),
        Err(Error::InvalidInteger)
    );
    assert_eq!(
        RelativeDuration::parse_from_iso8601("P1Y2X"),
        Err(Error::TrailingCharacters)
    );
    assert_eq!(
        RelativeDuration::parse_from_iso8601("PT1H2X"),
        Err(Error::TrailingCharacters)
    );
    assert_eq!(
        RelativeDuration::parse_from_iso8601("P178956971Y"),
        Err(Error::DurationOutOfRange)
    );
    assert_eq!(
        RelativeDuration::parse_from_iso8601("P9223372036854775807W"),
        Err(Error::DurationOutOfRange)
    );
}

// The comma is accepted as the decimal separator, and fractions longer
// than nine digits are truncated to nanosecond resolution.
#[test]
fn test_fraction_details() {
    assert_eq!(
        RelativeDuration::parse_from_iso8601("PT0,1S").unwrap(),
        RelativeDuration::nanoseconds(100_000_000)
    );
    assert_eq!(
        RelativeDuration::parse_from_iso8601("PT0.1234567891S").unwrap(),
        RelativeDuration::nanoseconds(123_456_789)
    );
    assert_eq!(
        RelativeDuration::parse_from_iso8601("PT1.S").unwrap(),
        RelativeDuration::seconds(1)
    );
}
