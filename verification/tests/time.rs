use rics::time::{CalendarDate, EventTimeSpec, UtcInstant, MAX_YEAR, MIN_YEAR};

fn date(year: i32, month: u32, day: u32) -> CalendarDate {
    CalendarDate { year, month, day }
}

fn instant(year: i32, month: u32, day: u32, hour: u32) -> UtcInstant {
    UtcInstant { date: date(year, month, day), hour, minute: 0, second: 0, nano: 0 }
}

#[test]
fn dates_must_name_a_day() {
    assert_eq!(CalendarDate::from_ymd(2024, 2, 29), Some(date(2024, 2, 29)));
    assert_eq!(CalendarDate::from_ymd(2023, 2, 29), None);
    assert_eq!(CalendarDate::from_ymd(1900, 2, 29), None);
    assert_eq!(CalendarDate::from_ymd(2000, 2, 29), Some(date(2000, 2, 29)));
    assert_eq!(CalendarDate::from_ymd(2026, 13, 1), None);
    assert_eq!(CalendarDate::from_ymd(2026, 0, 1), None);
    assert_eq!(CalendarDate::from_ymd(2026, 4, 31), None);
    assert_eq!(CalendarDate::from_ymd(2026, 4, 0), None);
    assert_eq!(CalendarDate::from_ymd(MAX_YEAR, 12, 31), Some(date(262142, 12, 31)));
    assert_eq!(CalendarDate::from_ymd(MAX_YEAR + 1, 1, 1), None);
    assert_eq!(CalendarDate::from_ymd(MIN_YEAR, 1, 1), Some(date(-262143, 1, 1)));
    assert_eq!(CalendarDate::from_ymd(MIN_YEAR - 1, 12, 31), None);
    assert!(date(2026, 5, 1).valid());
    assert!(!date(2026, 2, 30).valid());
}

#[test]
fn dates_agree_with_chrono() {
    for (y, m, d) in [(2024, 2, 29), (2023, 2, 29), (2026, 12, 31), (262142, 12, 31), (262143, 1, 1), (-262143, 1, 1), (-262144, 12, 31), (0, 1, 1), (2026, 6, 31)] {
        assert_eq!(
            CalendarDate::from_ymd(y, m, d).is_some(),
            chrono::NaiveDate::from_ymd_opt(y, m, d).is_some()
        );
    }
}

#[test]
fn the_next_day() {
    assert_eq!(date(2026, 12, 31).succ(), Some(date(2027, 1, 1)));
    assert_eq!(date(2024, 2, 28).succ(), Some(date(2024, 2, 29)));
    assert_eq!(date(2023, 2, 28).succ(), Some(date(2023, 3, 1)));
    assert_eq!(date(2026, 4, 30).succ(), Some(date(2026, 5, 1)));
    assert_eq!(date(2026, 5, 1).succ(), Some(date(2026, 5, 2)));
    assert_eq!(date(MAX_YEAR, 12, 31).succ(), None);
    assert_eq!(date(2026, 2, 30).succ(), None);
}

#[test]
fn dates_are_ordered() {
    assert!(date(2026, 5, 1).is_before(&date(2026, 5, 2)));
    assert!(date(2026, 4, 30).is_before(&date(2026, 5, 1)));
    assert!(date(2025, 12, 31).is_before(&date(2026, 1, 1)));
    assert!(!date(2026, 5, 1).is_before(&date(2026, 5, 1)));
    assert!(!date(2026, 5, 2).is_before(&date(2026, 5, 1)));
}

#[test]
fn instants_must_name_an_instant() {
    assert_eq!(
        UtcInstant::from_parts(2026, 5, 1, 23, 59, 59, 999_999_999),
        Some(UtcInstant { date: date(2026, 5, 1), hour: 23, minute: 59, second: 59, nano: 999_999_999 })
    );
    assert!(UtcInstant::from_parts(2026, 5, 1, 23, 59, 59, 1_500_000_000).is_some());
    assert_eq!(UtcInstant::from_parts(2026, 5, 1, 24, 0, 0, 0), None);
    assert_eq!(UtcInstant::from_parts(2026, 5, 1, 0, 60, 0, 0), None);
    assert_eq!(UtcInstant::from_parts(2026, 5, 1, 0, 0, 60, 0), None);
    assert_eq!(UtcInstant::from_parts(2026, 5, 1, 0, 0, 0, 2_000_000_000), None);
    assert_eq!(UtcInstant::from_parts(2026, 2, 30, 0, 0, 0, 0), None);
}

#[test]
fn year_buckets() {
    assert_eq!(EventTimeSpec::DateTime { start: instant(2026, 5, 1, 8), end: None }.year_bucket(), Some(2026));
    assert_eq!(EventTimeSpec::Date { start: date(2027, 2, 15), end: None }.year_bucket(), Some(2027));
    assert_eq!(EventTimeSpec::Month { year: 2026, month: 5 }.year_bucket(), Some(2026));
    assert_eq!(EventTimeSpec::Quarter { year: 2026, quarter: 3 }.year_bucket(), Some(2026));
    assert_eq!(EventTimeSpec::Year { year: 2030 }.year_bucket(), Some(2030));
    assert_eq!(EventTimeSpec::Tbd { note: Some("soon".to_string()) }.year_bucket(), None);
}

#[test]
fn start_dates() {
    assert_eq!(EventTimeSpec::DateTime { start: instant(2026, 5, 1, 8), end: None }.start_date(), Some(date(2026, 5, 1)));
    assert_eq!(EventTimeSpec::Date { start: date(2027, 2, 15), end: None }.start_date(), Some(date(2027, 2, 15)));
    assert_eq!(EventTimeSpec::Month { year: 2026, month: 5 }.start_date(), Some(date(2026, 5, 1)));
    assert_eq!(EventTimeSpec::Month { year: 2026, month: 13 }.start_date(), None);
    assert_eq!(EventTimeSpec::Quarter { year: 2026, quarter: 1 }.start_date(), Some(date(2026, 1, 1)));
    assert_eq!(EventTimeSpec::Quarter { year: 2026, quarter: 2 }.start_date(), Some(date(2026, 4, 1)));
    assert_eq!(EventTimeSpec::Quarter { year: 2026, quarter: 4 }.start_date(), Some(date(2026, 10, 1)));
    assert_eq!(EventTimeSpec::Quarter { year: 2026, quarter: 0 }.start_date(), Some(date(2026, 1, 1)));
    assert_eq!(EventTimeSpec::Quarter { year: 2026, quarter: 5 }.start_date(), None);
    assert_eq!(EventTimeSpec::Year { year: 2030 }.start_date(), Some(date(2030, 1, 1)));
    assert_eq!(EventTimeSpec::Year { year: 400000 }.start_date(), None);
    assert_eq!(EventTimeSpec::Tbd { note: None }.start_date(), None);
}

#[test]
fn exclusive_end_dates() {
    assert_eq!(EventTimeSpec::DateTime { start: instant(2026, 5, 1, 8), end: None }.end_date_exclusive(), None);
    assert_eq!(
        EventTimeSpec::DateTime { start: instant(2026, 5, 1, 8), end: Some(instant(2026, 5, 3, 9)) }.end_date_exclusive(),
        Some(date(2026, 5, 3))
    );
    assert_eq!(EventTimeSpec::Date { start: date(2026, 5, 1), end: None }.end_date_exclusive(), Some(date(2026, 5, 2)));
    assert_eq!(
        EventTimeSpec::Date { start: date(2026, 5, 1), end: Some(date(2026, 5, 31)) }.end_date_exclusive(),
        Some(date(2026, 6, 1))
    );
    assert_eq!(EventTimeSpec::Date { start: date(MAX_YEAR, 12, 31), end: None }.end_date_exclusive(), None);
    assert_eq!(EventTimeSpec::Month { year: 2026, month: 5 }.end_date_exclusive(), Some(date(2026, 6, 1)));
    assert_eq!(EventTimeSpec::Month { year: 2026, month: 12 }.end_date_exclusive(), Some(date(2027, 1, 1)));
    assert_eq!(EventTimeSpec::Month { year: i32::MAX, month: 12 }.end_date_exclusive(), None);
    assert_eq!(EventTimeSpec::Month { year: 2026, month: u32::MAX }.end_date_exclusive(), None);
    assert_eq!(EventTimeSpec::Quarter { year: 2026, quarter: 1 }.end_date_exclusive(), Some(date(2026, 4, 1)));
    assert_eq!(EventTimeSpec::Quarter { year: 2026, quarter: 3 }.end_date_exclusive(), Some(date(2026, 10, 1)));
    assert_eq!(EventTimeSpec::Quarter { year: 2026, quarter: 4 }.end_date_exclusive(), Some(date(2027, 1, 1)));
    assert_eq!(EventTimeSpec::Year { year: 2026 }.end_date_exclusive(), Some(date(2027, 1, 1)));
    assert_eq!(EventTimeSpec::Year { year: i32::MAX }.end_date_exclusive(), None);
    assert_eq!(EventTimeSpec::Tbd { note: None }.end_date_exclusive(), None);
}

#[test]
fn precisions() {
    assert_eq!(EventTimeSpec::DateTime { start: instant(2026, 5, 1, 8), end: None }.precision(), "datetime");
    assert_eq!(EventTimeSpec::Date { start: date(2027, 2, 15), end: None }.precision(), "date");
    assert_eq!(EventTimeSpec::Month { year: 2026, month: 5 }.precision(), "month");
    assert_eq!(EventTimeSpec::Quarter { year: 2026, quarter: 3 }.precision(), "quarter");
    assert_eq!(EventTimeSpec::Year { year: 2030 }.precision(), "year");
    assert_eq!(EventTimeSpec::Tbd { note: None }.precision(), "tbd");
}

#[test]
fn future_means_today_or_later() {
    let today = date(2026, 5, 1);
    assert!(EventTimeSpec::Date { start: date(2026, 5, 1), end: None }.is_future_relative_to(today));
    assert!(EventTimeSpec::Date { start: date(2026, 5, 2), end: None }.is_future_relative_to(today));
    assert!(!EventTimeSpec::Date { start: date(2026, 4, 30), end: None }.is_future_relative_to(today));
    assert!(EventTimeSpec::DateTime { start: instant(2026, 5, 1, 0), end: None }.is_future_relative_to(today));
    assert!(!EventTimeSpec::DateTime { start: instant(2026, 4, 30, 23), end: None }.is_future_relative_to(today));
    assert!(EventTimeSpec::Month { year: 2026, month: 5 }.is_future_relative_to(today));
    assert!(!EventTimeSpec::Month { year: 2026, month: 4 }.is_future_relative_to(today));
    assert!(!EventTimeSpec::Month { year: 2027, month: 13 }.is_future_relative_to(today));
    assert!(EventTimeSpec::Quarter { year: 2026, quarter: 3 }.is_future_relative_to(today));
    assert!(!EventTimeSpec::Quarter { year: 2026, quarter: 2 }.is_future_relative_to(today));
    assert!(EventTimeSpec::Year { year: 2027 }.is_future_relative_to(today));
    assert!(!EventTimeSpec::Year { year: 2026 }.is_future_relative_to(today));
    assert!(EventTimeSpec::Tbd { note: None }.is_future_relative_to(today));
}
