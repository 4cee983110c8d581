use release_aggregator::date::{month_length, parse_release_date, Date, DatePolicy};

fn d(year: u32, month: u32, day: u32) -> Date {
    Date { year, month, day }
}

#[test]
fn parses_full_precision_date() {
    let got = parse_release_date("2024-01-10", DatePolicy::PeriodStart);
    assert_eq!(got, Some(d(2024, 1, 10)));
    let strict = parse_release_date("2024-01-10", DatePolicy::DayPrecisionOnly);
    assert_eq!(strict, Some(d(2024, 1, 10)));
}

#[test]
fn normalizes_year_month_to_first_of_month() {
    let got = parse_release_date("2023-11", DatePolicy::PeriodStart);
    assert_eq!(got, Some(d(2023, 11, 1)));
}

#[test]
fn normalizes_year_to_first_of_year() {
    let got = parse_release_date("1999", DatePolicy::PeriodStart);
    assert_eq!(got, Some(d(1999, 1, 1)));
}

#[test]
fn strict_policy_excludes_partial_precision() {
    assert_eq!(parse_release_date("2023-11", DatePolicy::DayPrecisionOnly), None);
    assert_eq!(parse_release_date("1999", DatePolicy::DayPrecisionOnly), None);
}

#[test]
fn rejects_malformed_dates() {
    let p = DatePolicy::PeriodStart;
    assert_eq!(parse_release_date("", p), None);
    assert_eq!(parse_release_date("20240110", p), None);
    assert_eq!(parse_release_date("2024/01/10", p), None);
    assert_eq!(parse_release_date("2024-1-10", p), None);
    assert_eq!(parse_release_date("abcd-ef-gh", p), None);
    assert_eq!(parse_release_date("2024-00-10", p), None);
    assert_eq!(parse_release_date("2024-13-01", p), None);
    assert_eq!(parse_release_date("2024-04-31", p), None);
    assert_eq!(parse_release_date("2024-02-30", p), None);
}

#[test]
fn leap_year_rules() {
    let p = DatePolicy::PeriodStart;
    assert_eq!(parse_release_date("2024-02-29", p), Some(d(2024, 2, 29)));
    assert_eq!(parse_release_date("2023-02-29", p), None);
    assert_eq!(parse_release_date("1900-02-29", p), None);
    assert_eq!(parse_release_date("2000-02-29", p), Some(d(2000, 2, 29)));
    assert_eq!(month_length(2024, 2), 29);
    assert_eq!(month_length(2023, 2), 28);
    assert_eq!(month_length(2024, 4), 30);
    assert_eq!(month_length(2024, 12), 31);
}

#[test]
fn calendar_order() {
    assert!(d(2024, 1, 10).le(&d(2024, 1, 10)));
    assert!(d(2024, 1, 9).le(&d(2024, 1, 10)));
    assert!(!d(2024, 1, 11).le(&d(2024, 1, 10)));
    assert!(d(2023, 12, 31).le(&d(2024, 1, 1)));
    assert!(d(2024, 2, 28).le(&d(2024, 3, 1)));
    assert!(!d(2024, 3, 1).le(&d(2024, 2, 29)));
}
