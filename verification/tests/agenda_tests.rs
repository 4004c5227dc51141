use vayu::agenda::{agenda_for, weekly_window, Event};
use vayu::clock::today_from_parts;
use vayu::date::Date;
use vayu::recurrence::parse_recurrence;
use vayu::timeofday::parse_time;
use vayu::weekday::Weekday;

const NOW: Date = Date { year: 2024, month: 3, day: 15 };

fn event(description: &str, start: &str, end: &str, repeat: &str, id: u64) -> Event {
    Event {
        description: String::from(description),
        start: parse_time(start).unwrap(),
        end: parse_time(end).unwrap(),
        recurrence: parse_recurrence(repeat, &NOW).unwrap(),
        id,
    }
}

#[test]
fn empty_collection_gives_empty_agenda() {
    let events: Vec<Event> = Vec::new();
    let agenda = agenda_for(&NOW, Weekday::Friday, &events);
    assert!(agenda.is_empty());
}

#[test]
fn agenda_keeps_only_matching_events() {
    let events = vec![
        event("standup", "9:30am", "9:45am", "weekday", 1),
        event("brunch", "11:00am", "1:00pm", "weekend", 2),
        event("deploy", "4:00pm", "5:00pm", "2024-03-15", 3),
    ];
    let friday = agenda_for(&NOW, Weekday::Friday, &events);
    let ids: Vec<u64> = friday.iter().map(|e| e.id).collect();
    assert_eq!(ids, vec![1, 3]);
    let saturday_date = Date { year: 2024, month: 3, day: 16 };
    let saturday = agenda_for(&saturday_date, Weekday::Saturday, &events);
    let ids: Vec<u64> = saturday.iter().map(|e| e.id).collect();
    assert_eq!(ids, vec![2]);
}

#[test]
fn agenda_sorts_by_start_time_with_twelve_hour_order() {
    let events = vec![
        event("afternoon", "1:00pm", "2:00pm", "everyday", 1),
        event("past midnight", "12:10am", "1:00am", "everyday", 2),
        event("noon", "12:00pm", "12:30pm", "everyday", 3),
        event("morning", "8:00am", "9:00am", "everyday", 4),
    ];
    let agenda = agenda_for(&NOW, Weekday::Friday, &events);
    let ids: Vec<u64> = agenda.iter().map(|e| e.id).collect();
    assert_eq!(ids, vec![2, 4, 3, 1]);
}

#[test]
fn agenda_never_reorders_equal_starts() {
    let events = vec![
        event("first listed", "9:00am", "10:00am", "everyday", 10),
        event("early", "8:00am", "8:30am", "everyday", 11),
        event("second listed", "9:00am", "9:30am", "everyday", 12),
        event("third listed", "9:00am", "11:00am", "everyday", 13),
    ];
    let agenda = agenda_for(&NOW, Weekday::Friday, &events);
    let ids: Vec<u64> = agenda.iter().map(|e| e.id).collect();
    assert_eq!(ids, vec![11, 10, 12, 13]);
}

#[test]
fn agenda_does_not_change_the_input() {
    let events = vec![
        event("b", "2:00pm", "3:00pm", "everyday", 1),
        event("a", "9:00am", "10:00am", "everyday", 2),
    ];
    let _ = agenda_for(&NOW, Weekday::Friday, &events);
    assert_eq!(events[0].id, 1);
    assert_eq!(events[1].id, 2);
    assert_eq!(events[0].description, "b");
}

#[test]
fn weekly_window_of_agendas() {
    // One call per day over a seven-day window, as the calendar view does.
    let events = vec![
        event("gym", "6:00pm", "7:00pm", "monday,wednesday", 1),
        event("rest", "10:00am", "11:00am", "weekend", 2),
    ];
    let days = [
        (Date { year: 2024, month: 3, day: 14 }, Weekday::Thursday, 0usize),
        (Date { year: 2024, month: 3, day: 15 }, Weekday::Friday, 0),
        (Date { year: 2024, month: 3, day: 16 }, Weekday::Saturday, 1),
        (Date { year: 2024, month: 3, day: 17 }, Weekday::Sunday, 1),
        (Date { year: 2024, month: 3, day: 18 }, Weekday::Monday, 1),
        (Date { year: 2024, month: 3, day: 19 }, Weekday::Tuesday, 0),
        (Date { year: 2024, month: 3, day: 20 }, Weekday::Wednesday, 1),
    ];
    for (date, weekday, expected) in days {
        assert_eq!(agenda_for(&date, weekday, &events).len(), expected);
    }
}

#[test]
fn weekly_window_runs_from_yesterday_through_five_days_ahead() {
    let now = today_from_parts(2024, 3, 15).unwrap();
    let events = vec![
        event("gym", "6:00pm", "7:00pm", "monday,wednesday", 1),
        event("rest", "10:00am", "11:00am", "weekend", 2),
    ];
    let window = weekly_window(&now, &events);
    assert_eq!(window.len(), 7);
    let days: Vec<u32> = window.iter().map(|d| d.date.day).collect();
    assert_eq!(days, vec![14, 15, 16, 17, 18, 19, 20]);
    let weekdays: Vec<Weekday> = window.iter().map(|d| d.weekday).collect();
    assert_eq!(
        weekdays,
        vec![
            Weekday::Thursday,
            Weekday::Friday,
            Weekday::Saturday,
            Weekday::Sunday,
            Weekday::Monday,
            Weekday::Tuesday,
            Weekday::Wednesday,
        ]
    );
    let counts: Vec<usize> = window.iter().map(|d| d.events.len()).collect();
    assert_eq!(counts, vec![0, 0, 1, 1, 1, 0, 1]);
    assert_eq!(window[4].events[0].id, 1);
}
