//! Days of the week and their names.
use crate::date::{date_valid, day_number, weekday_index_of_date, Date};
use crate::text::chars_eq_str;
use vstd::prelude::*;

verus! {

/// A day of the week.
#[derive(Clone, Copy, Debug, PartialEq, Eq, Structural)]
pub enum Weekday {
    Monday,
    Tuesday,
    Wednesday,
    Thursday,
    Friday,
    Saturday,
    Sunday,
}

/// The position of `w` in the week, Monday being 0 and Sunday 6.
pub open spec fn weekday_index(w: Weekday) -> int {
    match w {
        Weekday::Monday => 0,
        Weekday::Tuesday => 1,
        Weekday::Wednesday => 2,
        Weekday::Thursday => 3,
        Weekday::Friday => 4,
        Weekday::Saturday => 5,
        Weekday::Sunday => 6,
    }
}

/// The weekday at position `i` of the week.
pub open spec fn weekday_of_index(i: int) -> Weekday {
    if i == 0 {
        Weekday::Monday
    } else if i == 1 {
        Weekday::Tuesday
    } else if i == 2 {
        Weekday::Wednesday
    } else if i == 3 {
        Weekday::Thursday
    } else if i == 4 {
        Weekday::Friday
    } else if i == 5 {
        Weekday::Saturday
    } else {
        Weekday::Sunday
    }
}

/// The position of `w` in the week, Monday being 0 and Sunday 6.
pub fn weekday_number(w: Weekday) -> (r: u32)
    ensures
        r == weekday_index(w),
{
    match w {
        Weekday::Monday => 0,
        Weekday::Tuesday => 1,
        Weekday::Wednesday => 2,
        Weekday::Thursday => 3,
        Weekday::Friday => 4,
        Weekday::Saturday => 5,
        Weekday::Sunday => 6,
    }
}

/// The weekday at position `i` of the week.
pub fn weekday_from_number(i: u32) -> (r: Weekday)
    requires
        i < 7,
    ensures
        r == weekday_of_index(i as int),
        weekday_index(r) == i,
{
    if i == 0 {
        Weekday::Monday
    } else if i == 1 {
        Weekday::Tuesday
    } else if i == 2 {
        Weekday::Wednesday
    } else if i == 3 {
        Weekday::Thursday
    } else if i == 4 {
        Weekday::Friday
    } else if i == 5 {
        Weekday::Saturday
    } else {
        Weekday::Sunday
    }
}

/// The weekday on which the date `d` falls.
pub fn weekday_of_date(d: &Date) -> (w: Weekday)
    requires
        date_valid(*d),
    ensures
        weekday_index(w) == weekday_index_of_date(*d),
{
    let n = day_number(d);
    weekday_from_number((n % 7) as u32)
}

/// The lowercase English name of `w`.
pub open spec fn weekday_name(w: Weekday) -> Seq<char> {
    match w {
        Weekday::Monday => "monday"@,
        Weekday::Tuesday => "tuesday"@,
        Weekday::Wednesday => "wednesday"@,
        Weekday::Thursday => "thursday"@,
        Weekday::Friday => "friday"@,
        Weekday::Saturday => "saturday"@,
        Weekday::Sunday => "sunday"@,
    }
}

/// The lowercase English name of `w`.
pub fn weekday_name_ex(w: Weekday) -> (s: &'static str)
    ensures
        s@ == weekday_name(w),
{
    match w {
        Weekday::Monday => "monday",
        Weekday::Tuesday => "tuesday",
        Weekday::Wednesday => "wednesday",
        Weekday::Thursday => "thursday",
        Weekday::Friday => "friday",
        Weekday::Saturday => "saturday",
        Weekday::Sunday => "sunday",
    }
}

/// How many days forward a walk starting on weekday position `from`
/// takes to first land on position `to`: zero when already there, never
/// more than six.
pub open spec fn weekday_gap(from: int, to: int) -> int {
    if to - from < 0 {
        to - from + 7
    } else {
        to - from
    }
}

/// How many days forward a walk from weekday position `from` takes to
/// land on position `to`.
pub fn weekday_gap_ex(from: u32, to: u32) -> (g: u32)
    requires
        from < 7,
        to < 7,
    ensures
        g == weekday_gap(from as int, to as int),
        g <= 6,
{
    if to >= from {
        to - from
    } else {
        to + 7 - from
    }
}

/// Advancing `g` days from a day whose position in the week is `wd` lands
/// on position `target` when `g` is the gap from `wd` to `target`.
pub proof fn lemma_gap_lands_on_target(a: int, wd: int, target: int, g: int)
    requires
        a >= 0,
        a % 7 == wd,
        0 <= wd < 7,
        0 <= target < 7,
        g == weekday_gap(wd, target),
    ensures
        (a + g) % 7 == target,
{
    let q = (a - wd) / 7;
    assert(a == 7 * q + wd) by (nonlinear_arith)
        requires
            a >= 0,
            a % 7 == wd,
            q == (a - wd) / 7,
            0 <= wd < 7,
    ;
    assert((a + g) % 7 == target) by (nonlinear_arith)
        requires
            a == 7 * q + wd,
            g == if target - wd < 0 {
                target - wd + 7
            } else {
                target - wd
            },
            0 <= wd < 7,
            0 <= target < 7,
            a >= 0,
    ;
}

/// Every weekday name has at least six characters.
pub proof fn lemma_weekday_name_lens()
    ensures
        forall|w: Weekday| 6 <= #[trigger] weekday_name(w).len() <= 9,
{
    broadcast use vstd::string::group_string_axioms;

    reveal_strlit("monday");
    reveal_strlit("tuesday");
    reveal_strlit("wednesday");
    reveal_strlit("thursday");
    reveal_strlit("friday");
    reveal_strlit("saturday");
    reveal_strlit("sunday");
    assert("monday"@.len() == 6);
    assert("tuesday"@.len() == 7);
    assert("wednesday"@.len() == 9);
    assert("thursday"@.len() == 8);
    assert("friday"@.len() == 6);
    assert("saturday"@.len() == 8);
    assert("sunday"@.len() == 6);
    assert forall|w: Weekday| 6 <= #[trigger] weekday_name(w).len() <= 9 by {
        match w {
            Weekday::Monday => {},
            Weekday::Tuesday => {},
            Weekday::Wednesday => {},
            Weekday::Thursday => {},
            Weekday::Friday => {},
            Weekday::Saturday => {},
            Weekday::Sunday => {},
        }
    }
}

/// Whether `t` is the lowercase English name of some weekday.
pub open spec fn is_weekday_name(t: Seq<char>) -> bool {
    exists|w: Weekday| t == weekday_name(w)
}

/// Weekday names are pairwise distinct, so a name determines its weekday.
pub proof fn lemma_weekday_names_distinct()
    ensures
        forall|a: Weekday, b: Weekday| weekday_name(a) == weekday_name(b) ==> a == b,
{
    broadcast use vstd::string::group_string_axioms;

    reveal_strlit("monday");
    reveal_strlit("tuesday");
    reveal_strlit("wednesday");
    reveal_strlit("thursday");
    reveal_strlit("friday");
    reveal_strlit("saturday");
    reveal_strlit("sunday");
    assert("monday"@.len() == 6);
    assert("tuesday"@.len() == 7);
    assert("wednesday"@.len() == 9);
    assert("thursday"@.len() == 8);
    assert("friday"@.len() == 6);
    assert("saturday"@.len() == 8);
    assert("sunday"@.len() == 6);
    assert("monday"@[0] == 'm' && "friday"@[0] == 'f' && "sunday"@[0] == 's');
    assert("thursday"@[0] == 't' && "saturday"@[0] == 's');
}

/// The weekday whose lowercase English name is `tok`, if any.
pub fn weekday_from_chars(tok: &Vec<char>) -> (r: Option<Weekday>)
    ensures
        r is Some ==> tok@ == weekday_name(r->0),
        r is None ==> forall|w: Weekday| tok@ != weekday_name(w),
{
    if chars_eq_str(tok, "monday") {
        Some(Weekday::Monday)
    } else if chars_eq_str(tok, "tuesday") {
        Some(Weekday::Tuesday)
    } else if chars_eq_str(tok, "wednesday") {
        Some(Weekday::Wednesday)
    } else if chars_eq_str(tok, "thursday") {
        Some(Weekday::Thursday)
    } else if chars_eq_str(tok, "friday") {
        Some(Weekday::Friday)
    } else if chars_eq_str(tok, "saturday") {
        Some(Weekday::Saturday)
    } else if chars_eq_str(tok, "sunday") {
        Some(Weekday::Sunday)
    } else {
        proof {
            assert forall|w: Weekday| tok@ != weekday_name(w) by {
                match w {
                    Weekday::Monday => {},
                    Weekday::Tuesday => {},
                    Weekday::Wednesday => {},
                    Weekday::Thursday => {},
                    Weekday::Friday => {},
                    Weekday::Saturday => {},
                    Weekday::Sunday => {},
                }
            }
        }
        None
    }
}

} // verus!
