use vayu::agenda::Event;
use vayu::clock::{read_clock, today_from_parts};
use vayu::date::{date_valid_ex, day_number, Date};
use vayu::ids::{next_id, remove_by_id};
use vayu::recurrence::parse_recurrence;
use vayu::tasks::{sort_tasks_by_due, Task};
use vayu::timeofday::parse_time;
use vayu::weekday::{weekday_number, weekday_of_date};

fn task(description: &str, due: Date, id: u64) -> Task {
    Task { description: String::from(description), due, done: false, id }
}

#[test]
fn next_id_on_an_empty_store_is_one() {
    let tasks: Vec<Task> = Vec::new();
    assert_eq!(next_id(&tasks), 1);
}

#[test]
fn next_id_is_one_past_the_largest() {
    let tasks = vec![
        task("a", Date { year: 2024, month: 3, day: 15 }, 3),
        task("b", Date { year: 2024, month: 3, day: 16 }, 7),
        task("c", Date { year: 2024, month: 3, day: 17 }, 2),
    ];
    assert_eq!(next_id(&tasks), 8);
}

#[test]
fn remove_by_id_swaps_the_last_item_into_the_hole() {
    let mut tasks = vec![
        task("a", Date { year: 2024, month: 3, day: 15 }, 1),
        task("b", Date { year: 2024, month: 3, day: 16 }, 2),
        task("c", Date { year: 2024, month: 3, day: 17 }, 3),
    ];
    assert!(remove_by_id(&mut tasks, 1));
    let ids: Vec<u64> = tasks.iter().map(|t| t.id).collect();
    assert_eq!(ids, vec![3, 2]);
}

#[test]
fn remove_by_id_reports_a_missing_id() {
    let mut tasks = vec![task("a", Date { year: 2024, month: 3, day: 15 }, 1)];
    assert!(!remove_by_id(&mut tasks, 9));
    assert_eq!(tasks.len(), 1);
    assert_eq!(tasks[0].id, 1);
}

#[test]
fn events_share_the_id_discipline_in_their_own_space() {
    let now = Date { year: 2024, month: 3, day: 15 };
    let mut events = vec![
        Event {
            description: String::from("standup"),
            start: parse_time("9:30am").unwrap(),
            end: parse_time("9:45am").unwrap(),
            recurrence: parse_recurrence("weekday", &now).unwrap(),
            id: 5,
        },
    ];
    assert_eq!(next_id(&events), 6);
    assert!(remove_by_id(&mut events, 5));
    assert!(events.is_empty());
    assert_eq!(next_id(&events), 1);
}

#[test]
fn tasks_sort_by_due_date_keeping_ties_in_order() {
    let d1 = Date { year: 2024, month: 3, day: 20 };
    let d2 = Date { year: 2024, month: 2, day: 28 };
    let tasks = vec![
        task("late", d1, 1),
        task("early", d2, 2),
        task("tied with late", d1, 3),
        task("new year", Date { year: 2025, month: 1, day: 1 }, 4),
    ];
    let sorted = sort_tasks_by_due(&tasks);
    let ids: Vec<u64> = sorted.iter().map(|t| t.id).collect();
    assert_eq!(ids, vec![2, 1, 3, 4]);
    // The input stays as it was.
    assert_eq!(tasks[0].id, 1);
}

#[test]
fn day_numbers_grow_across_month_and_year_boundaries() {
    let a = day_number(&Date { year: 2024, month: 2, day: 29 });
    let b = day_number(&Date { year: 2024, month: 3, day: 1 });
    let c = day_number(&Date { year: 2025, month: 1, day: 1 });
    assert_eq!(b, a + 1);
    assert_eq!(c, day_number(&Date { year: 2024, month: 12, day: 31 }) + 1);
}

#[test]
fn today_from_parts_rejects_what_is_not_a_supported_date() {
    assert!(today_from_parts(2024, 2, 30).is_none());
    assert!(today_from_parts(2024, 13, 1).is_none());
    assert!(today_from_parts(2024, 0, 1).is_none());
    assert!(today_from_parts(9999, 1, 1).is_none());
    assert!(today_from_parts(1, 1, 1).is_none());
    assert!(today_from_parts(2, 1, 1).is_some());
    assert!(today_from_parts(9998, 12, 31).is_some());
}

#[test]
fn clock_reading_is_well_formed() {
    let reading = read_clock();
    assert!(date_valid_ex(&reading.today.date));
    assert!(reading.today.date.year >= 2 && reading.today.date.year <= 9998);
    // The weekday carried with the date is the one the calendar assigns.
    assert_eq!(
        weekday_number(reading.today.weekday),
        weekday_number(weekday_of_date(&reading.today.date))
    );
    assert!(reading.time.hour >= 1 && reading.time.hour <= 12);
    assert!(reading.time.minute <= 59);
}
