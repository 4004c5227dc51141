use vayu::timeofday::{parse_time, time_le, time_rank_ex, Meridiem, TimeOfDay};
use vayu::ParseError;

#[test]
fn parse_time_reads_hour_minute_meridiem() {
    let t = parse_time("8:05am").unwrap();
    assert_eq!(t, TimeOfDay { hour: 8, minute: 5, meridiem: Meridiem::Am });
    let t = parse_time("12:30pm").unwrap();
    assert_eq!(t, TimeOfDay { hour: 12, minute: 30, meridiem: Meridiem::Pm });
}

#[test]
fn parse_time_suffix_is_case_insensitive() {
    assert_eq!(parse_time("9:15PM").unwrap().meridiem, Meridiem::Pm);
    assert_eq!(parse_time("9:15Am").unwrap().meridiem, Meridiem::Am);
}

#[test]
fn parse_time_rejects_malformed_strings() {
    assert_eq!(parse_time("noon").unwrap_err(), ParseError::InvalidTime);
    assert_eq!(parse_time("1230am").unwrap_err(), ParseError::InvalidTime);
    assert_eq!(parse_time("9:30").unwrap_err(), ParseError::InvalidTime);
    assert_eq!(parse_time("9:30xm").unwrap_err(), ParseError::InvalidTime);
    assert_eq!(parse_time("0:30am").unwrap_err(), ParseError::InvalidTime);
    assert_eq!(parse_time("13:00pm").unwrap_err(), ParseError::InvalidTime);
    assert_eq!(parse_time("9:60am").unwrap_err(), ParseError::InvalidTime);
    assert_eq!(parse_time(":30am").unwrap_err(), ParseError::InvalidTime);
    assert_eq!(parse_time("9:am").unwrap_err(), ParseError::InvalidTime);
    assert_eq!(parse_time("").unwrap_err(), ParseError::InvalidTime);
}

#[test]
fn twelve_hour_order_puts_twelve_at_the_start_of_each_half() {
    // 12:30am < 1:00am < 11:59am < 12:00pm < 1:00pm < 11:59pm
    let chain = ["12:30am", "1:00am", "11:59am", "12:00pm", "1:00pm", "11:59pm"];
    for w in chain.windows(2) {
        let a = parse_time(w[0]).unwrap();
        let b = parse_time(w[1]).unwrap();
        assert!(time_le(&a, &b), "{} should sort before {}", w[0], w[1]);
        assert!(!time_le(&b, &a), "{} should sort strictly before {}", w[0], w[1]);
    }
}

#[test]
fn time_rank_values_are_exact() {
    assert_eq!(time_rank_ex(&parse_time("12:00am").unwrap()), 0);
    assert_eq!(time_rank_ex(&parse_time("12:30am").unwrap()), 30);
    assert_eq!(time_rank_ex(&parse_time("1:00am").unwrap()), 60);
    assert_eq!(time_rank_ex(&parse_time("11:59am").unwrap()), 719);
    assert_eq!(time_rank_ex(&parse_time("12:00pm").unwrap()), 720);
    assert_eq!(time_rank_ex(&parse_time("1:00pm").unwrap()), 780);
    assert_eq!(time_rank_ex(&parse_time("11:59pm").unwrap()), 1439);
}

#[test]
fn equal_times_sort_equal() {
    let a = parse_time("7:45pm").unwrap();
    let b = parse_time("07:45PM").unwrap();
    assert!(time_le(&a, &b) && time_le(&b, &a));
}
