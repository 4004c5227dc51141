use vayu::clock::{today_from_parts, Today};
use vayu::date::Date;
use vayu::resolve::resolve;
use vayu::weekday::Weekday;
use vayu::ParseError;

fn today(y: u32, m: u32, d: u32) -> Today {
    today_from_parts(y, m, d).unwrap()
}

#[test]
fn march_fifteenth_is_a_friday() {
    let now = today(2024, 3, 15);
    assert_eq!(now.weekday, Weekday::Friday);
}

#[test]
fn resolve_today_is_now() {
    let now = today(2024, 3, 15);
    let d = resolve("today", &now).unwrap();
    assert_eq!(d, Date { year: 2024, month: 3, day: 15 });
}

#[test]
fn resolve_tomorrow_is_one_day_ahead() {
    let now = today(2024, 3, 15);
    let d = resolve("tomorrow", &now).unwrap();
    assert_eq!(d, Date { year: 2024, month: 3, day: 16 });
}

#[test]
fn resolve_yesterday_is_one_day_back() {
    let now = today(2024, 3, 15);
    let d = resolve("yesterday", &now).unwrap();
    assert_eq!(d, Date { year: 2024, month: 3, day: 14 });
}

#[test]
fn resolve_tomorrow_rolls_over_month_and_year() {
    let now = today(2024, 1, 31);
    assert_eq!(resolve("tomorrow", &now).unwrap(), Date { year: 2024, month: 2, day: 1 });
    let eve = today(2023, 12, 31);
    assert_eq!(resolve("tomorrow", &eve).unwrap(), Date { year: 2024, month: 1, day: 1 });
}

#[test]
fn resolve_yesterday_rolls_back_into_leap_february() {
    let now = today(2024, 3, 1);
    assert_eq!(resolve("yesterday", &now).unwrap(), Date { year: 2024, month: 2, day: 29 });
}

#[test]
fn resolve_weekday_is_strictly_future() {
    // 2024-03-15 is a Friday: next Monday is the 18th.
    let now = today(2024, 3, 15);
    assert_eq!(resolve("monday", &now).unwrap(), Date { year: 2024, month: 3, day: 18 });
}

#[test]
fn resolve_own_weekday_skips_a_full_week() {
    // Asking for Friday on a Friday gives next week's Friday, not today.
    let now = today(2024, 3, 15);
    assert_eq!(resolve("friday", &now).unwrap(), Date { year: 2024, month: 3, day: 22 });
}

#[test]
fn resolve_every_weekday_lands_within_a_week() {
    let now = today(2024, 3, 15);
    let names = [
        "monday", "tuesday", "wednesday", "thursday", "friday", "saturday", "sunday",
    ];
    for name in names {
        let d = resolve(name, &now).unwrap();
        assert_eq!(d.year, 2024);
        assert_eq!(d.month, 3);
        assert!(d.day > 15 && d.day <= 22, "{} resolved to day {}", name, d.day);
    }
}

#[test]
fn resolve_saturday_crosses_year_boundary() {
    // 2023-12-30 is a Saturday, so "saturday" resolves to 2024-01-06.
    let now = today(2023, 12, 30);
    assert_eq!(now.weekday, Weekday::Saturday);
    assert_eq!(resolve("saturday", &now).unwrap(), Date { year: 2024, month: 1, day: 6 });
}

#[test]
fn resolve_rejects_unknown_keywords() {
    let now = today(2024, 3, 15);
    assert_eq!(resolve("2024-03-20", &now).unwrap_err(), ParseError::UnrecognizedDate);
    assert_eq!(resolve("Monday", &now).unwrap_err(), ParseError::UnrecognizedDate);
    assert_eq!(resolve("", &now).unwrap_err(), ParseError::UnrecognizedDate);
    assert_eq!(resolve("next week", &now).unwrap_err(), ParseError::UnrecognizedDate);
}
