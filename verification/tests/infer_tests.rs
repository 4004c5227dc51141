use vayu::clock::{today_from_parts, Today};
use vayu::date::Date;
use vayu::infer::infer;

fn today(y: u32, m: u32, d: u32) -> Today {
    today_from_parts(y, m, d).unwrap()
}

#[test]
fn end_of_month_infers_the_last_day_and_cleans_the_phrase() {
    let now = today(2024, 3, 15);
    let inf = infer("submit report by end of month", &now).unwrap();
    assert_eq!(inf.due, Date { year: 2024, month: 3, day: 31 });
    assert_eq!(inf.description, "submit report");
}

#[test]
fn end_of_month_in_leap_february() {
    let now = today(2024, 2, 10);
    let inf = infer("taxes by end of month", &now).unwrap();
    assert_eq!(inf.due, Date { year: 2024, month: 2, day: 29 });
    assert_eq!(inf.description, "taxes");
}

#[test]
fn end_of_year_infers_december_thirty_first() {
    let now = today(2024, 3, 15);
    let inf = infer("wrap up accounts by end of year", &now).unwrap();
    assert_eq!(inf.due, Date { year: 2024, month: 12, day: 31 });
    assert_eq!(inf.description, "wrap up accounts");
}

#[test]
fn end_of_week_infers_the_coming_saturday() {
    let now = today(2024, 3, 15);
    let inf = infer("essay due at end of week", &now).unwrap();
    assert_eq!(inf.due, Date { year: 2024, month: 3, day: 16 });
    assert_eq!(inf.description, "essay due");
}

#[test]
fn end_of_week_on_a_saturday_is_that_day() {
    let now = today(2024, 3, 16);
    let inf = infer("chores at end of week", &now).unwrap();
    assert_eq!(inf.due, Date { year: 2024, month: 3, day: 16 });
}

#[test]
fn weekday_abbreviation_advances_to_the_named_day() {
    let now = today(2024, 3, 15);
    let inf = infer("gym mon", &now).unwrap();
    assert_eq!(inf.due, Date { year: 2024, month: 3, day: 18 });
    assert_eq!(inf.description, "gym");
}

#[test]
fn abbreviation_on_the_same_weekday_stays_put() {
    // 2024-03-15 is a Friday, so " fri" advances zero days.
    let now = today(2024, 3, 15);
    let inf = infer("review fri", &now).unwrap();
    assert_eq!(inf.due, Date { year: 2024, month: 3, day: 15 });
    assert_eq!(inf.description, "review");
}

#[test]
fn later_abbreviations_restart_from_the_advanced_date() {
    // From Friday the 15th: " mon" reaches Monday the 18th, then " tue"
    // continues from there to Tuesday the 19th.
    let now = today(2024, 3, 15);
    let inf = infer("call mon and tue", &now).unwrap();
    assert_eq!(inf.due, Date { year: 2024, month: 3, day: 19 });
    assert_eq!(inf.description, "call and");
}

#[test]
fn weekday_stripping_removes_name_prefixes() {
    // " sat" matches; the prefixes of "saturday" from six letters down to
    // two are stripped, so the word loses "saturd" and keeps its "ay".
    let now = today(2024, 3, 15);
    let inf = infer("party saturday", &now).unwrap();
    assert_eq!(inf.due, Date { year: 2024, month: 3, day: 16 });
    assert_eq!(inf.description, "party ay");
}

#[test]
fn month_anchor_takes_precedence_over_weekday() {
    let now = today(2024, 3, 15);
    let inf = infer("pay rent mon or by end of month", &now).unwrap();
    assert_eq!(inf.due, Date { year: 2024, month: 3, day: 31 });
}

#[test]
fn phrase_without_anchor_infers_nothing() {
    let now = today(2024, 3, 15);
    assert!(infer("buy milk", &now).is_none());
    assert!(infer("", &now).is_none());
    assert!(infer("monday", &now).is_none());
}

#[test]
fn phrase_of_nothing_but_anchor_and_stop_words_infers_nothing() {
    let now = today(2024, 3, 15);
    assert!(infer("by the end of month", &now).is_none());
    assert!(infer(" mon", &now).is_none());
}

#[test]
fn trailing_stop_words_are_dropped_repeatedly() {
    let now = today(2024, 3, 15);
    let inf = infer("book flight at the end of month of the", &now).unwrap();
    assert_eq!(inf.description, "book flight");
}
