use chrono::{Datelike, Timelike};

use devcap::period::{LocalClock, Period};

#[test]
fn parse_today() {
    assert!(matches!(Period::from_str("today"), Ok(Period::Today)));
}

#[test]
fn parse_yesterday() {
    assert!(matches!(
        Period::from_str("yesterday"),
        Ok(Period::Yesterday)
    ));
}

#[test]
fn parse_week() {
    assert!(matches!(Period::from_str("week"), Ok(Period::Week)));
}

#[test]
fn parse_hours() {
    let period = Period::from_str("24h");
    assert!(matches!(period, Ok(Period::Hours(24))));
}

#[test]
fn parse_days() {
    let period = Period::from_str("7d");
    assert!(matches!(period, Ok(Period::Days(7))));
}

#[test]
fn parse_custom_days() {
    let period = Period::from_str("14d");
    assert!(matches!(period, Ok(Period::Days(14))));
}

#[test]
fn parse_invalid_returns_error() {
    assert!(Period::from_str("invalid").is_err());
}

#[test]
fn parse_invalid_number_returns_error() {
    assert!(Period::from_str("abch").is_err());
}

#[test]
fn parse_leading_zeros() {
    assert!(matches!(Period::from_str("007d"), Ok(Period::Days(7))));
}

#[test]
fn parse_zero_hours_is_accepted() {
    assert!(matches!(Period::from_str("0h"), Ok(Period::Hours(0))));
}

#[test]
fn parse_overflowing_count_returns_error() {
    let err = Period::from_str("99999999999h");
    assert!(err.is_err());
    let msg = err.err().unwrap();
    assert_eq!(
        msg,
        "Invalid hours: 99999999999h. Use: today, yesterday, 24h, 3d, 7d, week"
    );
}

#[test]
fn count_error_carries_accepted_forms() {
    let msg = Period::from_str("abch").err().unwrap();
    assert_eq!(msg, "Invalid hours: abch. Use: today, yesterday, 24h, 3d, 7d, week");
    let msg = Period::from_str("xd").err().unwrap();
    assert_eq!(msg, "Invalid days: xd. Use: today, yesterday, 24h, 3d, 7d, week");
}

#[test]
fn parse_bare_unit_returns_error() {
    assert!(Period::from_str("d").is_err());
    assert!(Period::from_str("h").is_err());
}

#[test]
fn parse_unknown_error_names_the_input() {
    let msg = Period::from_str("fortnight").err().unwrap();
    assert!(msg.contains("Unknown period: fortnight"));
    assert!(msg.contains("week"));
}

#[test]
fn today_range_starts_at_midnight() {
    let range = Period::Today.to_time_range();
    let since = chrono::DateTime::from_timestamp(range.since, 0)
        .unwrap()
        .with_timezone(&chrono::Local);
    assert_eq!(since.time().hour(), 0);
    assert_eq!(since.time().minute(), 0);
    assert!(range.until.is_none());
}

#[test]
fn yesterday_range_has_both_bounds() {
    let range = Period::Yesterday.to_time_range();
    assert!(range.until.is_some());
    let until = range.until.unwrap_or(range.since);
    assert!(range.since < until);
}

#[test]
fn hours_range_is_in_past() {
    let range = Period::Hours(24).to_time_range();
    assert!(range.since < chrono::Local::now().timestamp());
    assert!(range.until.is_none());
}

#[test]
fn week_range_starts_on_monday() {
    let range = Period::Week.to_time_range();
    let since = chrono::DateTime::from_timestamp(range.since, 0)
        .unwrap()
        .with_timezone(&chrono::Local);
    assert_eq!(since.weekday(), chrono::Weekday::Mon);
}

#[test]
fn resolve_against_fixed_clock() {
    // 2024-01-03 12:00:00 UTC with midnight at 2024-01-03 00:00:00 UTC,
    // a Wednesday (two days past Monday).
    let clock = LocalClock::new(1_704_283_200, 1_704_240_000, 2);
    let today = Period::Today.resolve(&clock);
    assert_eq!(today.since, 1_704_240_000);
    assert!(today.until.is_none());

    let yesterday = Period::Yesterday.resolve(&clock);
    assert_eq!(yesterday.since, 1_704_240_000 - 86_400);
    assert_eq!(yesterday.until, Some(1_704_240_000));

    let hours = Period::Hours(6).resolve(&clock);
    assert_eq!(hours.since, 1_704_283_200 - 6 * 3600);

    let days = Period::Days(3).resolve(&clock);
    assert_eq!(days.since, 1_704_283_200 - 3 * 86_400);

    let week = Period::Week.resolve(&clock);
    assert_eq!(week.since, 1_704_240_000 - 2 * 86_400);
    let monday = chrono::DateTime::from_timestamp(week.since, 0).unwrap();
    assert_eq!(monday.weekday(), chrono::Weekday::Mon);
}
