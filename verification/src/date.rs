//! Calendar dates and day arithmetic.
//!
//! A [`Date`] is a day of the proleptic Gregorian calendar, restricted to the
//! four-digit years `1..=9999` that the `YYYY-MM-DD` notation can write. The
//! mathematical model of a date is [`day_index`], the number of days between
//! it and the first of January of year 1; every other operation (ordering,
//! stepping one day, weekday computation) is specified through it.
use vstd::prelude::*;

verus! {

/// A calendar date: year, month and day of month, all one-based.
#[derive(Clone, Copy, Debug, PartialEq, Eq, Structural)]
pub struct Date {
    pub year: u32,
    pub month: u32,
    pub day: u32,
}

/// A Gregorian leap year: divisible by 4, except centuries not divisible by 400.
pub open spec fn is_leap_year(y: int) -> bool {
    (y % 4 == 0 && y % 100 != 0) || y % 400 == 0
}

/// How many days month `m` of year `y` has.
pub open spec fn days_in_month_s(y: int, m: int) -> int {
    if m == 2 {
        if is_leap_year(y) {
            29
        } else {
            28
        }
    } else if m == 4 || m == 6 || m == 9 || m == 11 {
        30
    } else {
        31
    }
}

/// How many days of year `y` fall in months strictly before month `m`.
pub open spec fn days_before_month(y: int, m: int) -> int {
    (if m <= 1 {
        0int
    } else if m == 2 {
        31
    } else if m == 3 {
        59
    } else if m == 4 {
        90
    } else if m == 5 {
        120
    } else if m == 6 {
        151
    } else if m == 7 {
        181
    } else if m == 8 {
        212
    } else if m == 9 {
        243
    } else if m == 10 {
        273
    } else if m == 11 {
        304
    } else {
        334
    }) + if m >= 3 && is_leap_year(y) {
        1int
    } else {
        0int
    }
}

/// How many leap years lie strictly before year `y`.
pub open spec fn leap_years_before(y: int) -> int {
    (y - 1) / 4 - (y - 1) / 100 + (y - 1) / 400
}

/// Days of full years strictly before year `y`.
pub open spec fn days_before_year(y: int) -> int {
    365 * (y - 1) + leap_years_before(y)
}

/// The number of days between `d` and the first of January of year 1,
/// which is day 0 (and, in this calendar, a Monday).
pub open spec fn day_index(d: Date) -> int {
    days_before_year(d.year as int) + days_before_month(d.year as int, d.month as int) + d.day - 1
}

/// A well-formed date: months and days in range, year writable as `YYYY`.
pub open spec fn date_valid(d: Date) -> bool {
    &&& 1 <= d.year <= 9999
    &&& 1 <= d.month <= 12
    &&& 1 <= d.day <= days_in_month_s(d.year as int, d.month as int)
}

/// The weekday of a date as a number, Monday being 0 and Sunday 6.
pub open spec fn weekday_index_of_date(d: Date) -> int {
    day_index(d) % 7
}

/// The last day this calendar can write.
pub open spec fn at_calendar_end(d: Date) -> bool {
    d.year == 9999 && d.month == 12 && d.day == 31
}

/// The first day this calendar can write.
pub open spec fn at_calendar_start(d: Date) -> bool {
    d.year == 1 && d.month == 1 && d.day == 1
}

/// The day after `d`.
pub open spec fn next_date(d: Date) -> Date {
    if d.day < days_in_month_s(d.year as int, d.month as int) {
        Date { year: d.year, month: d.month, day: (d.day + 1) as u32 }
    } else if d.month < 12 {
        Date { year: d.year, month: (d.month + 1) as u32, day: 1 }
    } else {
        Date { year: (d.year + 1) as u32, month: 1, day: 1 }
    }
}

/// The day before `d`.
pub open spec fn prev_date(d: Date) -> Date {
    if d.day > 1 {
        Date { year: d.year, month: d.month, day: (d.day - 1) as u32 }
    } else if d.month > 1 {
        Date {
            year: d.year,
            month: (d.month - 1) as u32,
            day: days_in_month_s(d.year as int, d.month as int - 1) as u32,
        }
    } else {
        Date { year: (d.year - 1) as u32, month: 12, day: 31 }
    }
}

/// One more leap year lies before `y + 1` than before `y` exactly when `y`
/// itself is a leap year.
proof fn lemma_leap_years_step(y: int)
    requires
        y >= 1,
    ensures
        leap_years_before(y + 1) == leap_years_before(y) + if is_leap_year(y) {
            1int
        } else {
            0int
        },
{
    assert(y / 4 == (y - 1) / 4 + if y % 4 == 0 {
        1int
    } else {
        0int
    }) by (nonlinear_arith)
        requires y >= 1;
    assert(y / 100 == (y - 1) / 100 + if y % 100 == 0 {
        1int
    } else {
        0int
    }) by (nonlinear_arith)
        requires y >= 1;
    assert(y / 400 == (y - 1) / 400 + if y % 400 == 0 {
        1int
    } else {
        0int
    }) by (nonlinear_arith)
        requires y >= 1;
    assert(y % 400 == 0 ==> y % 4 == 0 && y % 100 == 0) by (nonlinear_arith);
    assert(y % 100 == 0 ==> y % 4 == 0) by (nonlinear_arith);
}

/// Stepping to the next date advances the day index by exactly one and
/// stays within the calendar.
pub proof fn lemma_next_date_index(d: Date)
    requires
        date_valid(d),
        !at_calendar_end(d),
    ensures
        date_valid(next_date(d)),
        day_index(next_date(d)) == day_index(d) + 1,
{
    if d.day < days_in_month_s(d.year as int, d.month as int) {
    } else if d.month < 12 {
    } else {
        lemma_leap_years_step(d.year as int);
    }
}

/// Stepping to the previous date decreases the day index by exactly one.
pub proof fn lemma_prev_date_index(d: Date)
    requires
        date_valid(d),
        !at_calendar_start(d),
    ensures
        date_valid(prev_date(d)),
        day_index(prev_date(d)) == day_index(d) - 1,
        next_date(prev_date(d)) == d,
{
    if d.day > 1 {
    } else if d.month > 1 {
    } else {
        lemma_leap_years_step(d.year as int - 1);
    }
}

/// Whole years before `y2` hold at least 365 days per year beyond those
/// before `y1`.
proof fn lemma_days_before_year_monotonic(y1: int, y2: int)
    requires
        1 <= y1 <= y2,
    ensures
        days_before_year(y1) + 365 * (y2 - y1) <= days_before_year(y2),
    decreases y2 - y1,
{
    if y1 < y2 {
        lemma_days_before_year_monotonic(y1, y2 - 1);
        lemma_leap_years_step(y2 - 1);
    }
}

/// Every day of year `y` lies strictly before the first day of year `y + 1`.
proof fn lemma_day_index_within_year(d: Date)
    requires
        date_valid(d),
    ensures
        days_before_year(d.year as int) <= day_index(d),
        day_index(d) < days_before_year(d.year as int + 1),
{
    lemma_leap_years_step(d.year as int);
}

/// The day index is never negative.
pub proof fn lemma_day_index_nonnegative(d: Date)
    requires
        date_valid(d),
    ensures
        day_index(d) >= 0,
{
    let y = d.year as int;
    assert((y - 1) / 4 >= 0 && (y - 1) / 100 >= 0 && (y - 1) / 400 >= 0) by (nonlinear_arith)
        requires y >= 1;
    assert((y - 1) / 4 >= (y - 1) / 100) by (nonlinear_arith)
        requires y >= 1;
}

/// A date of a year up to 9998 keeps at least a full year of headroom
/// before the end of the calendar.
pub proof fn lemma_day_index_headroom(d: Date)
    requires
        date_valid(d),
        d.year <= 9998,
    ensures
        day_index(d) + 365 <= day_index(Date { year: 9999, month: 12, day: 31 }),
{
    lemma_day_index_within_year(d);
    lemma_days_before_year_monotonic(d.year as int + 1, 9999);
}

/// The day index orders dates exactly as the year-month-day triple does.
pub proof fn lemma_day_index_orders_dates(a: Date, b: Date)
    requires
        date_valid(a),
        date_valid(b),
    ensures
        (day_index(a) < day_index(b)) <==> (a.year < b.year || (a.year == b.year && a.month
            < b.month) || (a.year == b.year && a.month == b.month && a.day < b.day)),
        (day_index(a) == day_index(b)) <==> a == b,
{
    if a.year < b.year {
        lemma_day_index_within_year(a);
        lemma_days_before_year_monotonic(a.year as int + 1, b.year as int);
        lemma_day_index_within_year(b);
    } else if b.year < a.year {
        lemma_day_index_within_year(b);
        lemma_days_before_year_monotonic(b.year as int + 1, a.year as int);
        lemma_day_index_within_year(a);
    }
}

/// The day index of the last day the calendar can write.
pub open spec fn max_day_index() -> int {
    day_index(Date { year: 9999, month: 12, day: 31 })
}

/// Whether year `y` is a leap year.
pub fn is_leap_year_ex(y: u32) -> (r: bool)
    ensures
        r == is_leap_year(y as int),
{
    (y % 4 == 0 && y % 100 != 0) || y % 400 == 0
}

/// How many days month `m` of year `y` has.
pub fn days_in_month(y: u32, m: u32) -> (r: u32)
    ensures
        r == days_in_month_s(y as int, m as int),
{
    if m == 2 {
        if is_leap_year_ex(y) {
            29
        } else {
            28
        }
    } else if m == 4 || m == 6 || m == 9 || m == 11 {
        30
    } else {
        31
    }
}

/// Whether `d` is a well-formed date.
pub fn date_valid_ex(d: &Date) -> (r: bool)
    ensures
        r == date_valid(*d),
{
    1 <= d.year && d.year <= 9999 && 1 <= d.month && d.month <= 12 && 1 <= d.day && d.day
        <= days_in_month(d.year, d.month)
}

/// The number of days between `d` and the first of January of year 1.
pub fn day_number(d: &Date) -> (n: u64)
    requires
        date_valid(*d),
    ensures
        n == day_index(*d),
        n <= 3652058,
{
    proof {
        lemma_day_index_nonnegative(*d);
        lemma_day_index_orders_dates(*d, Date { year: 9999, month: 12, day: 31 });
    }
    let y = (d.year - 1) as u64;
    let before_month: u64 = match d.month {
        1 => 0,
        2 => 31,
        3 => 59,
        4 => 90,
        5 => 120,
        6 => 151,
        7 => 181,
        8 => 212,
        9 => 243,
        10 => 273,
        11 => 304,
        _ => 334,
    };
    let leap_adjust: u64 = if d.month >= 3 && is_leap_year_ex(d.year) {
        1
    } else {
        0
    };
    365 * y + y / 4 - y / 100 + y / 400 + before_month + leap_adjust + (d.day as u64) - 1
}

/// The day after `d`.
pub fn next_date_ex(d: &Date) -> (r: Date)
    requires
        date_valid(*d),
        !at_calendar_end(*d),
    ensures
        r == next_date(*d),
        date_valid(r),
        day_index(r) == day_index(*d) + 1,
{
    proof {
        lemma_next_date_index(*d);
    }
    if d.day < days_in_month(d.year, d.month) {
        Date { year: d.year, month: d.month, day: d.day + 1 }
    } else if d.month < 12 {
        Date { year: d.year, month: d.month + 1, day: 1 }
    } else {
        Date { year: d.year + 1, month: 1, day: 1 }
    }
}

/// The day before `d`.
pub fn prev_date_ex(d: &Date) -> (r: Date)
    requires
        date_valid(*d),
        !at_calendar_start(*d),
    ensures
        r == prev_date(*d),
        date_valid(r),
        day_index(r) == day_index(*d) - 1,
{
    proof {
        lemma_prev_date_index(*d);
    }
    if d.day > 1 {
        Date { year: d.year, month: d.month, day: d.day - 1 }
    } else if d.month > 1 {
        Date { year: d.year, month: d.month - 1, day: days_in_month(d.year, d.month - 1) }
    } else {
        Date { year: d.year - 1, month: 12, day: 31 }
    }
}

/// The date `n` days after `d`.
pub fn advance_days(d: &Date, n: u32) -> (r: Date)
    requires
        date_valid(*d),
        day_index(*d) + n <= max_day_index(),
    ensures
        date_valid(r),
        day_index(r) == day_index(*d) + n,
{
    let mut cur = *d;
    let mut k: u32 = 0;
    while k < n
        invariant
            date_valid(cur),
            k <= n,
            day_index(cur) == day_index(*d) + k,
            day_index(*d) + n <= max_day_index(),
        decreases n - k,
    {
        proof {
            if at_calendar_end(cur) {
                assert(cur == (Date { year: 9999, month: 12, day: 31 }));
            }
        }
        cur = next_date_ex(&cur);
        k = k + 1;
    }
    cur
}

/// Whether `a` falls no later than `b`.
pub fn date_le(a: &Date, b: &Date) -> (r: bool)
    requires
        date_valid(*a),
        date_valid(*b),
    ensures
        r == (day_index(*a) <= day_index(*b)),
{
    proof {
        lemma_day_index_orders_dates(*a, *b);
    }
    if a.year != b.year {
        a.year < b.year
    } else if a.month != b.month {
        a.month < b.month
    } else {
        a.day <= b.day
    }
}

} // verus!
