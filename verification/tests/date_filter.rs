use den::cli::date_filter::{relative_date_in_range, DateFilter};
use den::domain::timestamp::Timestamp;

fn now() -> Timestamp {
    let t = chrono::Utc::now();
    Timestamp::from_unix(t.timestamp(), t.timestamp_subsec_nanos()).unwrap()
}

fn at(secs: i64) -> Timestamp {
    Timestamp::from_unix(secs, 0).unwrap()
}

// 2024-01-15T00:00:00Z
const JAN_15: i64 = 1_705_276_800;

#[test]
fn parse_relative_days() {
    let filter = DateFilter::parse("7d", now()).unwrap();
    let now = chrono::Utc::now().timestamp();
    let seven_days_ago = now - 7 * 86_400;
    let diff = (filter.threshold().unix_seconds() - seven_days_ago).abs();
    assert!(diff < 2, "threshold should be ~7 days ago");
}

#[test]
fn parse_absolute_date() {
    let filter = DateFilter::parse("2024-01-15", now()).unwrap();
    assert_eq!(filter.threshold(), at(JAN_15));
}

#[test]
fn parse_invalid_format() {
    assert!(DateFilter::parse("invalid", now()).is_err());
    assert!(DateFilter::parse("2024/01/15", now()).is_err());
    assert!(DateFilter::parse("-5d", now()).is_err());
}

#[test]
fn matches_after_threshold() {
    let filter = DateFilter::parse("2024-01-15", now()).unwrap();
    let after = at(JAN_15 + 5 * 86_400 + 12 * 3_600);
    assert!(filter.matches(after));
}

#[test]
fn matches_on_threshold() {
    let filter = DateFilter::parse("2024-01-15", now()).unwrap();
    assert!(filter.matches(at(JAN_15)));
}

#[test]
fn does_not_match_before_threshold() {
    let filter = DateFilter::parse("2024-01-15", now()).unwrap();
    assert!(!filter.matches(at(JAN_15 - 1)));
}

#[test]
fn parse_counts_days_back_from_now() {
    let now = Timestamp::from_unix(JAN_15 + 100, 7).unwrap();
    let filter = DateFilter::parse("  3d ", now).unwrap();
    assert_eq!(filter.threshold(), Timestamp::from_unix(JAN_15 + 100 - 3 * 86_400, 7).unwrap());
    let zero = DateFilter::parse("0d", now).unwrap();
    assert_eq!(zero.threshold(), now);
}

#[test]
fn parse_error_messages() {
    let now = at(JAN_15);
    assert_eq!(DateFilter::parse("-5d", now).unwrap_err(), "days must be non-negative: -5d");
    assert_eq!(DateFilter::parse("xd", now).unwrap_err(), "invalid relative date: xd");
    assert_eq!(
        DateFilter::parse("2024/01/15", now).unwrap_err(),
        "invalid date format (expected YYYY-MM-DD or Nd): 2024/01/15"
    );
}

#[test]
fn parse_leap_day_and_epoch() {
    let now = at(JAN_15);
    assert_eq!(DateFilter::parse("1970-01-01", now).unwrap().threshold(), at(0));
    assert_eq!(DateFilter::parse("2024-02-29", now).unwrap().threshold(), at(1_709_164_800));
    assert!(DateFilter::parse("2023-02-29", now).is_err());
}

#[test]
fn relative_dates_in_range() {
    let now = at(JAN_15);
    assert!(relative_date_in_range("7d", now));
    assert!(relative_date_in_range("2024-01-15", now));
    assert!(relative_date_in_range("-5d", now));
    assert!(!relative_date_in_range("9223372036854775807d", now));
}
