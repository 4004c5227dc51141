use vayu::date::Date;
use vayu::recurrence::{parse_recurrence, rule_matches_ex, RecurrenceRule};
use vayu::weekday::Weekday;
use vayu::ParseError;

const NOW: Date = Date { year: 2024, month: 3, day: 15 };

const ALL_DAYS: [Weekday; 7] = [
    Weekday::Monday,
    Weekday::Tuesday,
    Weekday::Wednesday,
    Weekday::Thursday,
    Weekday::Friday,
    Weekday::Saturday,
    Weekday::Sunday,
];

#[test]
fn empty_repeat_defaults_to_the_given_date() {
    let rule = parse_recurrence("", &NOW).unwrap();
    assert!(matches!(rule, RecurrenceRule::OnDate(d) if d == NOW));
}

#[test]
fn on_date_matches_exactly_its_date() {
    let rule = parse_recurrence("", &NOW).unwrap();
    for w in ALL_DAYS {
        assert!(rule_matches_ex(&rule, &NOW, w));
    }
    let other = Date { year: 2024, month: 3, day: 16 };
    for w in ALL_DAYS {
        assert!(!rule_matches_ex(&rule, &other, w));
    }
}

#[test]
fn everyday_alias_matches_every_weekday() {
    let rule = parse_recurrence("everyday", &NOW).unwrap();
    let any = Date { year: 2025, month: 7, day: 1 };
    for w in ALL_DAYS {
        assert!(rule_matches_ex(&rule, &any, w));
    }
}

#[test]
fn weekday_alias_matches_monday_through_friday_only() {
    let rule = parse_recurrence("weekday", &NOW).unwrap();
    let any = Date { year: 2024, month: 3, day: 18 };
    assert!(rule_matches_ex(&rule, &any, Weekday::Monday));
    assert!(rule_matches_ex(&rule, &any, Weekday::Friday));
    assert!(!rule_matches_ex(&rule, &any, Weekday::Saturday));
    assert!(!rule_matches_ex(&rule, &any, Weekday::Sunday));
}

#[test]
fn weekend_alias_matches_saturday_and_sunday_only() {
    let rule = parse_recurrence("weekend", &NOW).unwrap();
    let any_saturday = Date { year: 2024, month: 3, day: 16 };
    let any_tuesday = Date { year: 2024, month: 3, day: 19 };
    assert!(rule_matches_ex(&rule, &any_saturday, Weekday::Saturday));
    assert!(rule_matches_ex(&rule, &any_saturday, Weekday::Sunday));
    assert!(!rule_matches_ex(&rule, &any_tuesday, Weekday::Tuesday));
    assert!(!rule_matches_ex(&rule, &any_tuesday, Weekday::Wednesday));
}

#[test]
fn comma_list_order_does_not_change_membership() {
    let a = parse_recurrence("monday,tuesday", &NOW).unwrap();
    let b = parse_recurrence("tuesday,monday", &NOW).unwrap();
    let any = Date { year: 2024, month: 6, day: 3 };
    for w in ALL_DAYS {
        assert_eq!(rule_matches_ex(&a, &any, w), rule_matches_ex(&b, &any, w));
    }
    assert!(rule_matches_ex(&a, &any, Weekday::Monday));
    assert!(rule_matches_ex(&a, &any, Weekday::Tuesday));
    assert!(!rule_matches_ex(&a, &any, Weekday::Wednesday));
}

#[test]
fn duplicate_names_in_a_list_are_harmless() {
    let rule = parse_recurrence("sunday,sunday", &NOW).unwrap();
    let any = Date { year: 2024, month: 6, day: 2 };
    assert!(rule_matches_ex(&rule, &any, Weekday::Sunday));
    assert!(!rule_matches_ex(&rule, &any, Weekday::Monday));
}

#[test]
fn explicit_date_parses_to_on_date() {
    let rule = parse_recurrence("2024-12-25", &NOW).unwrap();
    let xmas = Date { year: 2024, month: 12, day: 25 };
    assert!(matches!(rule, RecurrenceRule::OnDate(d) if d == xmas));
    for w in ALL_DAYS {
        assert!(rule_matches_ex(&rule, &xmas, w));
    }
    assert!(!rule_matches_ex(&rule, &NOW, Weekday::Friday));
}

#[test]
fn invalid_lists_are_refused() {
    assert_eq!(parse_recurrence("mon", &NOW).unwrap_err(), ParseError::InvalidRecurrence);
    assert_eq!(
        parse_recurrence("monday,", &NOW).unwrap_err(),
        ParseError::InvalidRecurrence
    );
    assert_eq!(
        parse_recurrence("monday tuesday", &NOW).unwrap_err(),
        ParseError::InvalidRecurrence
    );
    assert_eq!(
        parse_recurrence("Monday", &NOW).unwrap_err(),
        ParseError::InvalidRecurrence
    );
}

#[test]
fn invalid_dates_are_refused() {
    assert_eq!(
        parse_recurrence("2024-13-01", &NOW).unwrap_err(),
        ParseError::InvalidRecurrence
    );
    assert_eq!(
        parse_recurrence("2023-02-29", &NOW).unwrap_err(),
        ParseError::InvalidRecurrence
    );
    assert_eq!(
        parse_recurrence("2024-3-5", &NOW).unwrap_err(),
        ParseError::InvalidRecurrence
    );
    assert_eq!(
        parse_recurrence("a-b-c", &NOW).unwrap_err(),
        ParseError::InvalidRecurrence
    );
}

#[test]
fn leap_day_date_is_accepted() {
    let rule = parse_recurrence("2024-02-29", &NOW).unwrap();
    let leap = Date { year: 2024, month: 2, day: 29 };
    assert!(rule_matches_ex(&rule, &leap, Weekday::Thursday));
}
