use option_tracker::calendar::{Date, Timestamp};

fn day(year: i32, month: u32, day: u32) -> Date {
    Date { year, month, day }
}

#[test]
fn from_ymd_accepts_days_of_the_calendar() {
    assert_eq!(Date::from_ymd(2024, 2, 29), Some(day(2024, 2, 29)));
    assert_eq!(Date::from_ymd(2024, 12, 31), Some(day(2024, 12, 31)));
    assert_eq!(Date::from_ymd(-9999, 1, 1), Some(day(-9999, 1, 1)));
    assert_eq!(Date::from_ymd(9999, 12, 31), Some(day(9999, 12, 31)));
    assert_eq!(Date::from_ymd(2000, 2, 29), Some(day(2000, 2, 29)));
}

#[test]
fn from_ymd_rejects_what_is_no_day() {
    assert_eq!(Date::from_ymd(2023, 2, 29), None);
    assert_eq!(Date::from_ymd(1900, 2, 29), None);
    assert_eq!(Date::from_ymd(2024, 4, 31), None);
    assert_eq!(Date::from_ymd(2024, 0, 10), None);
    assert_eq!(Date::from_ymd(2024, 13, 10), None);
    assert_eq!(Date::from_ymd(2024, 5, 0), None);
    assert_eq!(Date::from_ymd(2024, 5, 32), None);
}

#[test]
fn from_ymd_rejects_years_outside_the_ledger() {
    assert_eq!(Date::from_ymd(10_000, 1, 1), None);
    assert_eq!(Date::from_ymd(-10_000, 12, 31), None);
}

#[test]
fn is_valid_agrees_with_from_ymd() {
    assert!(day(2024, 2, 29).is_valid());
    assert!(!day(2023, 2, 29).is_valid());
    assert!(!day(10_000, 1, 1).is_valid());
    assert!(Timestamp { date: day(2024, 1, 1), second_of_day: 86_399 }.is_valid());
    assert!(!Timestamp { date: day(2024, 1, 1), second_of_day: 86_400 }.is_valid());
    assert!(!Timestamp { date: day(2024, 2, 30), second_of_day: 0 }.is_valid());
}

#[test]
fn days_since_counts_whole_days() {
    assert_eq!(day(2024, 12, 30).days_since(&day(2024, 11, 1)), 59);
    assert_eq!(day(2025, 3, 1).days_since(&day(2024, 2, 28)), 367);
    assert_eq!(day(1969, 12, 31).days_since(&day(1970, 1, 1)), -1);
    assert_eq!(day(2024, 1, 15).days_since(&day(1970, 1, 1)), 19_737);
    assert_eq!(day(2024, 3, 1).days_since(&day(2024, 2, 1)), 29);
    assert_eq!(day(2023, 3, 1).days_since(&day(2023, 2, 1)), 28);
    assert_eq!(day(2024, 5, 5).days_since(&day(2024, 5, 5)), 0);
    assert_eq!(day(9999, 12, 31).days_since(&day(-9999, 1, 1)), 7_304_483);
}

#[test]
fn seconds_since_counts_days_and_seconds() {
    let a = Timestamp { date: day(2024, 2, 10), second_of_day: 7_200 };
    let b = Timestamp { date: day(2024, 1, 15), second_of_day: 3_600 };
    assert_eq!(a.seconds_since(&b), 26 * 86_400 + 3_600);
    assert_eq!(b.seconds_since(&a), -(26 * 86_400 + 3_600));
    assert_eq!(a.seconds_since(&a), 0);
}

#[test]
fn parse_reads_year_month_day() {
    assert_eq!(Date::parse("2024-12-30"), Some(day(2024, 12, 30)));
    assert_eq!(Date::parse("2024-02-29"), Some(day(2024, 2, 29)));
    assert_eq!(Date::parse("1999-01-01"), Some(day(1999, 1, 1)));
}

#[test]
fn parse_rejects_what_is_no_date() {
    assert_eq!(Date::parse("2024-02-30"), None);
    assert_eq!(Date::parse("2024-13-01"), None);
    assert_eq!(Date::parse("next friday"), None);
    assert_eq!(Date::parse(""), None);
    assert_eq!(Date::parse("2024/12/30"), None);
}

#[test]
fn from_fields_keeps_to_the_ledgers_years() {
    assert_eq!(Date::from_fields(Some((2024, 6, 15))), Some(day(2024, 6, 15)));
    assert_eq!(Date::from_fields(Some((2024, 6, 31))), None);
    assert_eq!(Date::from_fields(Some((12_000, 6, 15))), None);
    assert_eq!(Date::from_fields(None), None);
}
