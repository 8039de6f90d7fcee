use taxi_weather::time::{hour_of_timestamp, ns_of_civil, ordinal_day_of_timestamp};
use taxi_weather::weather::parse_ts;

// 2020-01-01T00:00:00 UTC
const JAN1_2020_NS: i64 = 1_577_836_800 * 1_000_000_000;

#[test]
fn hour_of_midnight_is_zero() {
    assert_eq!(hour_of_timestamp(JAN1_2020_NS), 0);
}

#[test]
fn hour_of_afternoon() {
    // 2020-01-01T13:45:12
    let ns = JAN1_2020_NS + (13 * 3600 + 45 * 60 + 12) * 1_000_000_000;
    assert_eq!(hour_of_timestamp(ns), 13);
}

#[test]
fn ordinal_day_of_new_year() {
    assert_eq!(ordinal_day_of_timestamp(JAN1_2020_NS), 1);
}

#[test]
fn ordinal_day_handles_leap_year() {
    // 2020-03-01 = day 31 + 29 + 1 = 61 in a leap year
    let ns = JAN1_2020_NS + (31 + 29) * 86_400 * 1_000_000_000;
    assert_eq!(ordinal_day_of_timestamp(ns), 61);
    // 2021-03-01 = day 31 + 28 + 1 = 60 in a common year
    let ns2021 = JAN1_2020_NS + (366 + 31 + 28) * 86_400 * 1_000_000_000;
    assert_eq!(ordinal_day_of_timestamp(ns2021), 60);
}

#[test]
fn ns_of_civil_matches_known_epoch_values() {
    assert_eq!(ns_of_civil(1970, 1, 1, 0, 0, 0), 0);
    assert_eq!(ns_of_civil(2020, 1, 1, 0, 0, 0), JAN1_2020_NS);
    // 2020-05-01T13:45:00 = 1588340700 s
    assert_eq!(
        ns_of_civil(2020, 5, 1, 13, 45, 0),
        1_588_340_700 * 1_000_000_000
    );
}

#[test]
fn parse_ts_accepts_both_separators_and_optional_seconds() {
    let short = b"2020-01-01T00:00".to_vec();
    assert_eq!(parse_ts(&short), Some(JAN1_2020_NS));
    let spaced = b"2020-05-01 13:45:00".to_vec();
    assert_eq!(parse_ts(&spaced), Some(1_588_340_700 * 1_000_000_000));
}

#[test]
fn parse_ts_rejects_malformed_fields() {
    assert_eq!(parse_ts(&b"2020-13-01T00:00".to_vec()), None);
    assert_eq!(parse_ts(&b"2020-02-30T00:00".to_vec()), None);
    assert_eq!(parse_ts(&b"not a timestamp!".to_vec()), None);
    assert_eq!(parse_ts(&b"1969-12-31T23:59".to_vec()), None);
    assert_eq!(parse_ts(&b"2020-01-01T24:00".to_vec()), None);
    assert_eq!(parse_ts(&b"".to_vec()), None);
}
