//! Relative-date resolution: `today`, `tomorrow`, `yesterday`, or a
//! weekday name, resolved against an explicit "now".
use crate::clock::{today_wf, Today};
use crate::date::{
    at_calendar_end, date_valid, day_index, next_date, next_date_ex, prev_date, prev_date_ex,
    weekday_index_of_date, Date,
};
use crate::text::{chars_eq_str, str_chars};
use crate::weekday::{weekday_from_chars, weekday_index, weekday_name, weekday_number, Weekday};
use crate::ParseError;
use vstd::prelude::*;

verus! {

/// How many days ahead of `now` a weekday keyword resolves: the distance
/// to the next strictly future date falling on `w`, so a full seven days
/// when `now` itself falls on `w`.
pub open spec fn weekday_resolution_gap(now: Today, w: Weekday) -> int {
    let diff = weekday_index(w) - weekday_index(now.weekday);
    if diff <= 0 {
        diff + 7
    } else {
        diff
    }
}

/// The vocabulary `resolve` recognizes.
pub open spec fn known_date_keyword(s: Seq<char>) -> bool {
    ||| s == "today"@
    ||| s == "tomorrow"@
    ||| s == "yesterday"@
    ||| exists|w: Weekday| s == weekday_name(w)
}

/// Resolves a relative-date keyword against `now`.
///
/// `today`, `tomorrow` and `yesterday` name the obvious dates. A weekday
/// name resolves to the next date strictly after `now` that falls on that
/// weekday — a full week ahead when `now` already falls on it, never
/// `now` itself. Anything else is refused.
pub fn resolve(keyword: &str, now: &Today) -> (r: Result<Date, ParseError>)
    requires
        today_wf(*now),
    ensures
        keyword@ == "today"@ ==> r == Ok::<Date, ParseError>(now.date),
        keyword@ == "tomorrow"@ ==> r == Ok::<Date, ParseError>(next_date(now.date)) && day_index(
            r->Ok_0,
        ) == day_index(now.date) + 1,
        keyword@ == "yesterday"@ ==> r == Ok::<Date, ParseError>(prev_date(now.date)) && day_index(
            r->Ok_0,
        ) == day_index(now.date) - 1,
        forall|w: Weekday|
            keyword@ == weekday_name(w) ==> {
                &&& r is Ok
                &&& date_valid(r->Ok_0)
                &&& day_index(r->Ok_0) == day_index(now.date) + weekday_resolution_gap(*now, w)
                &&& weekday_index_of_date(r->Ok_0) == weekday_index(w)
                &&& day_index(now.date) < day_index(r->Ok_0) <= day_index(now.date) + 7
            },
        r is Err <==> !known_date_keyword(keyword@),
        r is Err ==> r->Err_0 == ParseError::UnrecognizedDate,
{
    broadcast use vstd::string::group_string_axioms;

    proof {
        reveal_strlit("today");
        reveal_strlit("tomorrow");
        reveal_strlit("yesterday");
        reveal_strlit("monday");
        reveal_strlit("tuesday");
        reveal_strlit("wednesday");
        reveal_strlit("thursday");
        reveal_strlit("friday");
        reveal_strlit("saturday");
        reveal_strlit("sunday");
        assert("today"@.len() == 5);
        assert("tomorrow"@.len() == 8);
        assert("yesterday"@.len() == 9);
        assert("monday"@.len() == 6);
        assert("tuesday"@.len() == 7);
        assert("wednesday"@.len() == 9);
        assert("thursday"@.len() == 8);
        assert("friday"@.len() == 6);
        assert("saturday"@.len() == 8);
        assert("sunday"@.len() == 6);
        assert("yesterday"@[0] == 'y' && "wednesday"@[0] == 'w');
        assert("tomorrow"@[1] == 'o' && "thursday"@[1] == 'h' && "saturday"@[1] == 'a');
        assert("monday"@[0] == 'm' && "friday"@[0] == 'f' && "sunday"@[0] == 's');
    }
    let v = str_chars(keyword);
    if chars_eq_str(&v, "today") {
        Ok(now.date)
    } else if chars_eq_str(&v, "tomorrow") {
        Ok(next_date_ex(&now.date))
    } else if chars_eq_str(&v, "yesterday") {
        Ok(prev_date_ex(&now.date))
    } else {
        match weekday_from_chars(&v) {
            Some(w) => {
                let wn = weekday_number(w);
                let nn = weekday_number(now.weekday);
                let delta: u32 = if wn <= nn {
                    wn + 7 - nn
                } else {
                    wn - nn
                };
                proof {
                    crate::date::lemma_day_index_headroom(now.date);
                    crate::date::lemma_day_index_nonnegative(now.date);
                }
                let mut d = now.date;
                let mut k: u32 = 0;
                while k < delta
                    invariant
                        date_valid(d),
                        k <= delta <= 7,
                        day_index(d) == day_index(now.date) + k,
                        day_index(now.date) + 365 <= day_index(
                            (Date { year: 9999, month: 12, day: 31 }),
                        ),
                    decreases delta - k,
                {
                    proof {
                        if at_calendar_end(d) {
                            assert(d == (Date { year: 9999, month: 12, day: 31 }));
                        }
                    }
                    d = next_date_ex(&d);
                    k = k + 1;
                }
                proof {
                    let a = day_index(now.date);
                    let q = (a - weekday_index(now.weekday)) / 7;
                    assert(a == 7 * q + weekday_index(now.weekday)) by (nonlinear_arith)
                        requires
                            a >= 0,
                            a % 7 == weekday_index(now.weekday),
                            q == (a - weekday_index(now.weekday)) / 7,
                            0 <= weekday_index(now.weekday) < 7,
                    ;
                    assert(weekday_index_of_date(d) == weekday_index(w)) by (nonlinear_arith)
                        requires
                            day_index(d) == 7 * q + weekday_index(now.weekday) + delta,
                            delta == weekday_resolution_gap(*now, w),
                            weekday_resolution_gap(*now, w) == if weekday_index(w) - weekday_index(
                                now.weekday,
                            ) <= 0 {
                                weekday_index(w) - weekday_index(now.weekday) + 7
                            } else {
                                weekday_index(w) - weekday_index(now.weekday)
                            },
                            0 <= weekday_index(w) < 7,
                            0 <= weekday_index(now.weekday) < 7,
                            day_index(d) >= 0,
                            weekday_index_of_date(d) == day_index(d) % 7,
                    ;
                }
                Ok(d)
            },
            None => {
                proof {
                    assert(!known_date_keyword(keyword@));
                }
                Err(ParseError::UnrecognizedDate)
            },
        }
    }
}

} // verus!
