//! The clock: the only source of "now".
//!
//! The rest of the engine is a pure function of an explicit [`Today`] or
//! [`ClockReading`] argument, so a fixed value can stand in for the wall
//! clock under test; [`read_clock`] is the one place that consults the
//! machine.
use crate::date::{date_valid, date_valid_ex, weekday_index_of_date, Date};
use crate::timeofday::{time_rank, time_wf, Meridiem, TimeOfDay};
use crate::weekday::{weekday_index, weekday_of_date, Weekday};
use chrono::{Datelike, Timelike};
use vstd::prelude::*;

verus! {

/// A calendar date together with the weekday it falls on.
#[derive(Clone, Copy, Debug, PartialEq, Eq, Structural)]
pub struct Today {
    pub date: Date,
    pub weekday: Weekday,
}

/// A well-formed "now": a valid date whose year keeps headroom on both
/// sides for relative dates, carrying the weekday the calendar assigns it.
pub open spec fn today_wf(t: Today) -> bool {
    &&& date_valid(t.date)
    &&& 2 <= t.date.year <= 9998
    &&& weekday_index(t.weekday) == weekday_index_of_date(t.date)
}

/// Everything the clock reports: the date, its weekday, and the time.
#[derive(Clone, Copy, Debug, PartialEq, Eq, Structural)]
pub struct ClockReading {
    pub today: Today,
    pub time: TimeOfDay,
}

/// Builds a well-formed [`Today`] from a year, month and day, computing
/// the weekday; refuses parts that name no date of the supported years.
pub fn today_from_parts(y: u32, m: u32, d: u32) -> (r: Option<Today>)
    ensures
        r is Some <==> date_valid((Date { year: y, month: m, day: d })) && 2 <= y <= 9998,
        r is Some ==> today_wf(r->0) && r->0.date == (Date { year: y, month: m, day: d }),
{
    let date = Date { year: y, month: m, day: d };
    if !date_valid_ex(&date) || y < 2 || y > 9998 {
        return None;
    }
    let weekday = weekday_of_date(&date);
    Some(Today { date, weekday })
}

/// The twelve-hour time that the 24-hour clock reading `h:mi` names.
pub fn time_from_24h(h: u32, mi: u32) -> (t: TimeOfDay)
    requires
        h < 24,
        mi < 60,
    ensures
        time_wf(t),
        time_rank(t) == h * 60 + mi,
{
    let (hour, meridiem) = if h == 0 {
        (12, Meridiem::Am)
    } else if h < 12 {
        (h, Meridiem::Am)
    } else if h == 12 {
        (12, Meridiem::Pm)
    } else {
        (h - 12, Meridiem::Pm)
    };
    TimeOfDay { hour, minute: mi, meridiem }
}

/// Relies on `chrono::Local::now` and the `Datelike`/`Timelike` accessors
/// of the returned date-time: `month` ranges over 1 to 12, `day` over
/// 1 to 31, `hour` below 24 and `minute` below 60.
#[verifier::external_body]
fn local_now_fields() -> (r: (i32, u32, u32, u32, u32))
    ensures
        1 <= r.1 <= 12,
        1 <= r.2 <= 31,
        r.3 < 24,
        r.4 < 60,
{
    let t = chrono::Local::now();
    (t.year(), t.month(), t.day(), t.hour(), t.minute())
}

/// A fixed well-formed date to fall back on: the first of January 2000.
fn default_today() -> (t: Today)
    ensures
        today_wf(t),
{
    let date = Date { year: 2000, month: 1, day: 1 };
    let weekday = weekday_of_date(&date);
    Today { date, weekday }
}

/// Reads the machine clock. Whatever the machine reports, the result is a
/// well-formed date, weekday and time; a reading outside the supported
/// years falls back to a fixed date.
pub fn read_clock() -> (r: ClockReading)
    ensures
        today_wf(r.today),
        time_wf(r.time),
{
    let (y, mo, da, h, mi) = local_now_fields();
    let today = if 2 <= y && y <= 9998 {
        match today_from_parts(y as u32, mo, da) {
            Some(t) => t,
            None => default_today(),
        }
    } else {
        default_today()
    };
    let time = time_from_24h(h, mi);
    ClockReading { today, time }
}

} // verus!
