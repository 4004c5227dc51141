//! Due-date inference from free-form phrases.
//!
//! A phrase such as `submit report by end of month` or `gym mon` carries a
//! temporal anchor. The anchors, tried in this order, are: `end` together
//! with `month`, with `year`, or with `week` (all by substring containment),
//! and then space-prefixed three-letter weekday abbreviations, each of which
//! advances the running date to the next occurrence of its weekday (staying
//! put when the date already falls on it). The cleaned description strips
//! the anchor words — for a weekday, the name's prefixes from six letters
//! down to two — collapses repeated spaces, and drops trailing stop words;
//! a phrase whose description empties out yields no inference at all.
use crate::clock::{today_wf, Today};
use crate::date::{
    advance_days, date_valid, day_index, days_in_month, days_in_month_s, weekday_index_of_date,
    Date,
};
use crate::text::{
    chars_eq_str, contains_sub, contains_sub_ex, copy_chars, join_words, join_words_ex,
    remove_all, remove_all_ex, split_words, split_words_ex, str_chars, string_from_chars,
};
use crate::weekday::{
    lemma_gap_lands_on_target, lemma_weekday_name_lens, weekday_gap, weekday_gap_ex,
    weekday_index, weekday_name, weekday_name_ex, weekday_number, Weekday,
};
use vstd::prelude::*;

verus! {

/// What a phrase infers: a due date and the cleaned task description.
#[derive(Debug)]
pub struct Inference {
    pub due: Date,
    pub description: String,
}

/// Whether `w` is one of the trailing words dropped from a description.
pub open spec fn is_stop_word(w: Seq<char>) -> bool {
    ||| w == "by"@
    ||| w == "at"@
    ||| w == "of"@
    ||| w == "on"@
    ||| w == "the"@
    ||| w == "this"@
}

/// Whether `w` is one of the trailing words dropped from a description.
pub fn is_stop_word_ex(w: &Vec<char>) -> (r: bool)
    ensures
        r == is_stop_word(w@),
{
    chars_eq_str(w, "by") || chars_eq_str(w, "at") || chars_eq_str(w, "of") || chars_eq_str(
        w,
        "on",
    ) || chars_eq_str(w, "the") || chars_eq_str(w, "this")
}

/// `ws` with every trailing stop word dropped.
pub open spec fn drop_trailing_stops(ws: Seq<Seq<char>>) -> Seq<Seq<char>>
    decreases ws.len(),
{
    if ws.len() == 0 {
        ws
    } else if is_stop_word(ws.last()) {
        drop_trailing_stops(ws.drop_last())
    } else {
        ws
    }
}

/// The cleaned description read from the stripped phrase `s`: its words
/// without trailing stop words, joined by single spaces — or nothing, when
/// no word remains.
pub open spec fn finish_desc(s: Seq<char>) -> Option<Seq<char>> {
    let ws = drop_trailing_stops(split_words(s));
    if ws.len() == 0 {
        None
    } else {
        Some(join_words(ws))
    }
}

/// Builds the cleaned description from the stripped phrase `v`.
fn finish_description(v: &Vec<char>) -> (r: Option<String>)
    ensures
        r is Some <==> finish_desc(v@) is Some,
        r is Some ==> r->0@ == finish_desc(v@)->0,
{
    let mut ws = split_words_ex(v);
    while ws.len() > 0 && is_stop_word_ex(&ws[ws.len() - 1])
        invariant
            drop_trailing_stops(ws.deep_view()) == drop_trailing_stops(split_words(v@)),
        decreases ws@.len(),
    {
        let ghost old_dv = ws.deep_view();
        proof {
            assert(ws.deep_view()[ws@.len() - 1] =~= ws@[ws@.len() - 1]@);
            assert(is_stop_word(old_dv.last()));
        }
        ws.pop();
        proof {
            assert(ws.deep_view() =~~= old_dv.drop_last());
        }
    }
    proof {
        if ws.deep_view().len() > 0 {
            assert(ws.deep_view().last() =~= ws@[ws@.len() - 1]@);
            assert(!is_stop_word(ws.deep_view().last()));
        }
        assert(drop_trailing_stops(ws.deep_view()) == ws.deep_view());
    }
    if ws.len() == 0 {
        None
    } else {
        let joined = join_words_ex(&ws);
        Some(string_from_chars(&joined))
    }
}

/// `s` stripped of the prefixes of the name of `w`, from length `k` down
/// to length two, longest first.
pub open spec fn strip_from(s: Seq<char>, w: Weekday, k: int) -> Seq<char>
    decreases k,
{
    if k < 2 {
        s
    } else {
        strip_from(remove_all(s, weekday_name(w).take(k)), w, k - 1)
    }
}

/// `s` stripped of the name of `w` and all its prefixes from length six
/// down to length two.
pub open spec fn strip_day(s: Seq<char>, w: Weekday) -> Seq<char> {
    strip_from(s, w, 6)
}

/// Strips from `v` the prefixes of the name of `w`, lengths six down to
/// two, longest first.
fn strip_day_ex(v: Vec<char>, w: Weekday) -> (out: Vec<char>)
    ensures
        out@ == strip_day(v@, w),
{
    proof {
        lemma_weekday_name_lens();
    }
    let name = weekday_name_ex(w);
    let name_len = name.unicode_len();
    let mut out = v;
    let ghost orig = out@;
    let mut k: usize = 6;
    while k >= 2
        invariant
            1 <= k <= 6,
            name@ == weekday_name(w),
            name_len == name@.len(),
            6 <= name_len <= 9,
            strip_from(out@, w, k as int) == strip_from(orig, w, 6),
        decreases k,
    {
        let pat = name.substring_char(0, k);
        proof {
            assert(pat@ == weekday_name(w).take(k as int));
            assert(pat@.len() == k);
        }
        out = remove_all_ex(&out, pat);
        k = k - 1;
    }
    out
}

/// The space-prefixed three-letter abbreviation that announces `w` in a
/// phrase.
pub open spec fn day_abbrev(w: Weekday) -> Seq<char> {
    match w {
        Weekday::Monday => " mon"@,
        Weekday::Tuesday => " tue"@,
        Weekday::Wednesday => " wed"@,
        Weekday::Thursday => " thu"@,
        Weekday::Friday => " fri"@,
        Weekday::Saturday => " sat"@,
        Weekday::Sunday => " sun"@,
    }
}

/// Whether the phrase holds `end` and `month`.
pub open spec fn has_end_month(p: Seq<char>) -> bool {
    contains_sub(p, "end"@) && contains_sub(p, "month"@)
}

/// Whether the phrase holds `end` and `year`.
pub open spec fn has_end_year(p: Seq<char>) -> bool {
    contains_sub(p, "end"@) && contains_sub(p, "year"@)
}

/// Whether the phrase holds `end` and `week`.
pub open spec fn has_end_week(p: Seq<char>) -> bool {
    contains_sub(p, "end"@) && contains_sub(p, "week"@)
}

/// Whether the phrase holds any space-prefixed weekday abbreviation.
pub open spec fn any_day_matched(p: Seq<char>) -> bool {
    ||| contains_sub(p, day_abbrev(Weekday::Monday))
    ||| contains_sub(p, day_abbrev(Weekday::Tuesday))
    ||| contains_sub(p, day_abbrev(Weekday::Wednesday))
    ||| contains_sub(p, day_abbrev(Weekday::Thursday))
    ||| contains_sub(p, day_abbrev(Weekday::Friday))
    ||| contains_sub(p, day_abbrev(Weekday::Saturday))
    ||| contains_sub(p, day_abbrev(Weekday::Sunday))
}

/// The days advanced and the weekday reached after applying one matched
/// abbreviation to the running state.
pub open spec fn apply_day(p: Seq<char>, st: (int, int), w: Weekday) -> (int, int) {
    if contains_sub(p, day_abbrev(w)) {
        (st.0 + weekday_gap(st.1, weekday_index(w)), weekday_index(w))
    } else {
        st
    }
}

/// The total days advanced (and final weekday position) after applying
/// every matched abbreviation, Monday through Sunday in that fixed order,
/// each walking forward from the date the previous one reached.
pub open spec fn weekday_offset(p: Seq<char>, wd0: int) -> (int, int) {
    let st = (0int, wd0);
    let st = apply_day(p, st, Weekday::Monday);
    let st = apply_day(p, st, Weekday::Tuesday);
    let st = apply_day(p, st, Weekday::Wednesday);
    let st = apply_day(p, st, Weekday::Thursday);
    let st = apply_day(p, st, Weekday::Friday);
    let st = apply_day(p, st, Weekday::Saturday);
    apply_day(p, st, Weekday::Sunday)
}

/// The phrase stripped of the name prefixes of every matched weekday,
/// Monday through Sunday in order.
pub open spec fn strip_matched(p: Seq<char>) -> Seq<char> {
    let s = if contains_sub(p, day_abbrev(Weekday::Monday)) {
        strip_day(p, Weekday::Monday)
    } else {
        p
    };
    let s = if contains_sub(p, day_abbrev(Weekday::Tuesday)) {
        strip_day(s, Weekday::Tuesday)
    } else {
        s
    };
    let s = if contains_sub(p, day_abbrev(Weekday::Wednesday)) {
        strip_day(s, Weekday::Wednesday)
    } else {
        s
    };
    let s = if contains_sub(p, day_abbrev(Weekday::Thursday)) {
        strip_day(s, Weekday::Thursday)
    } else {
        s
    };
    let s = if contains_sub(p, day_abbrev(Weekday::Friday)) {
        strip_day(s, Weekday::Friday)
    } else {
        s
    };
    let s = if contains_sub(p, day_abbrev(Weekday::Saturday)) {
        strip_day(s, Weekday::Saturday)
    } else {
        s
    };
    if contains_sub(p, day_abbrev(Weekday::Sunday)) {
        strip_day(s, Weekday::Sunday)
    } else {
        s
    }
}

/// The last day of the month `d` lies in.
pub open spec fn end_of_month_date(d: Date) -> Date {
    Date { year: d.year, month: d.month, day: days_in_month_s(d.year as int, d.month as int) as u32 }
}

/// The last day of the year `d` lies in.
pub open spec fn end_of_year_date(d: Date) -> Date {
    Date { year: d.year, month: 12, day: 31 }
}

/// The cleaned description of an `end ... month` phrase.
pub open spec fn month_cleaned(p: Seq<char>) -> Option<Seq<char>> {
    finish_desc(remove_all(remove_all(p, "end"@), "month"@))
}

/// The cleaned description of an `end ... year` phrase.
pub open spec fn year_cleaned(p: Seq<char>) -> Option<Seq<char>> {
    finish_desc(remove_all(remove_all(p, "end"@), "year"@))
}

/// The cleaned description of an `end ... week` phrase.
pub open spec fn week_cleaned(p: Seq<char>) -> Option<Seq<char>> {
    finish_desc(remove_all(remove_all(p, "end"@), "week"@))
}

/// The cleaned description of a weekday-abbreviation phrase.
pub open spec fn days_cleaned(p: Seq<char>) -> Option<Seq<char>> {
    finish_desc(strip_matched(p))
}

/// Infers a due date and a cleaned description from a free-form phrase.
///
/// Anchors are tried in order: `end` with `month` (due: last day of the
/// current month), `end` with `year` (last day of the year), `end` with
/// `week` (the coming Saturday), then space-prefixed weekday abbreviations
/// (` mon` … ` sun`), each advancing the running date to its weekday, in
/// that fixed order, so a later abbreviation restarts from the date an
/// earlier one reached. A phrase with no anchor, or whose description
/// strips down to nothing, infers nothing.
/// The `end … month` case: due on the last day of the current month.
fn infer_month(v: &Vec<char>, now: &Today) -> (r: Option<Inference>)
    requires
        today_wf(*now),
    ensures
        r is Some <==> month_cleaned(v@) is Some,
        r is Some ==> r->0.due == end_of_month_date(now.date) && date_valid(r->0.due)
            && r->0.description@ == month_cleaned(v@)->0,
{
    broadcast use vstd::string::group_string_axioms;

    proof {
        reveal_strlit("end");
        reveal_strlit("month");
        assert("end"@.len() == 3 && "month"@.len() == 5);
    }
    let s1 = remove_all_ex(v, "end");
    let s2 = remove_all_ex(&s1, "month");
    match finish_description(&s2) {
        Some(d) => {
            let due = Date {
                year: now.date.year,
                month: now.date.month,
                day: days_in_month(now.date.year, now.date.month),
            };
            Some(Inference { due, description: d })
        },
        None => None,
    }
}

/// The `end … year` case: due on the last day of the current year.
fn infer_year(v: &Vec<char>, now: &Today) -> (r: Option<Inference>)
    requires
        today_wf(*now),
    ensures
        r is Some <==> year_cleaned(v@) is Some,
        r is Some ==> r->0.due == end_of_year_date(now.date) && date_valid(r->0.due)
            && r->0.description@ == year_cleaned(v@)->0,
{
    broadcast use vstd::string::group_string_axioms;

    proof {
        reveal_strlit("end");
        reveal_strlit("year");
        assert("end"@.len() == 3 && "year"@.len() == 4);
    }
    let s1 = remove_all_ex(v, "end");
    let s2 = remove_all_ex(&s1, "year");
    match finish_description(&s2) {
        Some(d) => {
            let due = Date { year: now.date.year, month: 12, day: 31 };
            Some(Inference { due, description: d })
        },
        None => None,
    }
}

/// The `end … week` case: due on the coming Saturday, today when today
/// already is one.
fn infer_week(v: &Vec<char>, now: &Today) -> (r: Option<Inference>)
    requires
        today_wf(*now),
    ensures
        r is Some <==> week_cleaned(v@) is Some,
        r is Some ==> {
            &&& date_valid(r->0.due)
            &&& day_index(r->0.due) == day_index(now.date) + weekday_gap(
                weekday_index(now.weekday),
                5,
            )
            &&& weekday_index_of_date(r->0.due) == 5
            &&& r->0.description@ == week_cleaned(v@)->0
        },
{
    broadcast use vstd::string::group_string_axioms;

    proof {
        reveal_strlit("end");
        reveal_strlit("week");
        assert("end"@.len() == 3 && "week"@.len() == 4);
    }
    let s1 = remove_all_ex(v, "end");
    let s2 = remove_all_ex(&s1, "week");
    match finish_description(&s2) {
        Some(d) => {
            let g = weekday_gap_ex(weekday_number(now.weekday), 5);
            proof {
                crate::date::lemma_day_index_headroom(now.date);
                crate::date::lemma_day_index_nonnegative(now.date);
            }
            let due = advance_days(&now.date, g);
            proof {
                lemma_gap_lands_on_target(
                    day_index(now.date),
                    weekday_index(now.weekday),
                    5,
                    g as int,
                );
            }
            Some(Inference { due, description: d })
        },
        None => None,
    }
}

/// Applies every matched weekday abbreviation, Monday through Sunday,
/// walking the date forward and stripping the matched names.
#[verifier::rlimit(60)]
fn apply_matched_days(v: &Vec<char>, now: &Today) -> (res: (Date, Vec<char>))
    requires
        today_wf(*now),
    ensures
        date_valid(res.0),
        day_index(res.0) == day_index(now.date) + weekday_offset(
            v@,
            weekday_index(now.weekday),
        ).0,
        res.1@ == strip_matched(v@),
{
    let m_mon = contains_sub_ex(v, " mon");
    let m_tue = contains_sub_ex(v, " tue");
    let m_wed = contains_sub_ex(v, " wed");
    let m_thu = contains_sub_ex(v, " thu");
    let m_fri = contains_sub_ex(v, " fri");
    let m_sat = contains_sub_ex(v, " sat");
    let m_sun = contains_sub_ex(v, " sun");
    proof {
        crate::date::lemma_day_index_headroom(now.date);
        crate::date::lemma_day_index_nonnegative(now.date);
    }
    let ghost p = v@;
    let ghost wd0 = weekday_index(now.weekday);
    let ghost st0 = (0int, wd0);
    let ghost st1 = apply_day(p, st0, Weekday::Monday);
    let ghost st2 = apply_day(p, st1, Weekday::Tuesday);
    let ghost st3 = apply_day(p, st2, Weekday::Wednesday);
    let ghost st4 = apply_day(p, st3, Weekday::Thursday);
    let ghost st5 = apply_day(p, st4, Weekday::Friday);
    let ghost st6 = apply_day(p, st5, Weekday::Saturday);
    let ghost st7 = apply_day(p, st6, Weekday::Sunday);
    let mut cur = now.date;
    let mut cw: u32 = weekday_number(now.weekday);
    let mut stripped = copy_chars(v);
    if m_mon {
        let g = weekday_gap_ex(cw, 0);
        cur = advance_days(&cur, g);
        cw = 0;
        stripped = strip_day_ex(stripped, Weekday::Monday);
    }
    proof {
        assert(day_index(cur) == day_index(now.date) + st1.0 && cw == st1.1 && 0 <= st1.0 <= 6);
    }
    if m_tue {
        let g = weekday_gap_ex(cw, 1);
        cur = advance_days(&cur, g);
        cw = 1;
        stripped = strip_day_ex(stripped, Weekday::Tuesday);
    }
    proof {
        assert(day_index(cur) == day_index(now.date) + st2.0 && cw == st2.1 && 0 <= st2.0 <= 12);
    }
    if m_wed {
        let g = weekday_gap_ex(cw, 2);
        cur = advance_days(&cur, g);
        cw = 2;
        stripped = strip_day_ex(stripped, Weekday::Wednesday);
    }
    proof {
        assert(day_index(cur) == day_index(now.date) + st3.0 && cw == st3.1 && 0 <= st3.0 <= 18);
    }
    if m_thu {
        let g = weekday_gap_ex(cw, 3);
        cur = advance_days(&cur, g);
        cw = 3;
        stripped = strip_day_ex(stripped, Weekday::Thursday);
    }
    proof {
        assert(day_index(cur) == day_index(now.date) + st4.0 && cw == st4.1 && 0 <= st4.0 <= 24);
    }
    if m_fri {
        let g = weekday_gap_ex(cw, 4);
        cur = advance_days(&cur, g);
        cw = 4;
        stripped = strip_day_ex(stripped, Weekday::Friday);
    }
    proof {
        assert(day_index(cur) == day_index(now.date) + st5.0 && cw == st5.1 && 0 <= st5.0 <= 30);
    }
    if m_sat {
        let g = weekday_gap_ex(cw, 5);
        cur = advance_days(&cur, g);
        cw = 5;
        stripped = strip_day_ex(stripped, Weekday::Saturday);
    }
    proof {
        assert(day_index(cur) == day_index(now.date) + st6.0 && cw == st6.1 && 0 <= st6.0 <= 36);
    }
    if m_sun {
        let g = weekday_gap_ex(cw, 6);
        cur = advance_days(&cur, g);
        cw = 6;
        stripped = strip_day_ex(stripped, Weekday::Sunday);
    }
    proof {
        assert(day_index(cur) == day_index(now.date) + st7.0 && cw == st7.1 && 0 <= st7.0 <= 42);
        assert(stripped@ == strip_matched(p));
    }
    (cur, stripped)
}

/// The weekday-abbreviation case.
fn infer_days(v: &Vec<char>, now: &Today) -> (r: Option<Inference>)
    requires
        today_wf(*now),
    ensures
        r is Some <==> days_cleaned(v@) is Some,
        r is Some ==> {
            &&& date_valid(r->0.due)
            &&& day_index(r->0.due) == day_index(now.date) + weekday_offset(
                v@,
                weekday_index(now.weekday),
            ).0
            &&& r->0.description@ == days_cleaned(v@)->0
        },
{
    let (due, stripped) = apply_matched_days(v, now);
    match finish_description(&stripped) {
        Some(d) => Some(Inference { due, description: d }),
        None => None,
    }
}

/// Infers a due date and a cleaned description from a free-form phrase.
///
/// Anchors are tried in order: `end` with `month` (due: last day of the
/// current month), `end` with `year` (last day of the year), `end` with
/// `week` (the coming Saturday), then space-prefixed weekday abbreviations
/// (` mon` … ` sun`), each advancing the running date to its weekday, in
/// that fixed order, so a later abbreviation restarts from the date an
/// earlier one reached. A phrase with no anchor, or whose description
/// strips down to nothing, infers nothing.
pub fn infer(phrase: &str, now: &Today) -> (r: Option<Inference>)
    requires
        today_wf(*now),
    ensures
        has_end_month(phrase@) ==> {
            &&& (r is Some <==> month_cleaned(phrase@) is Some)
            &&& r is Some ==> r->0.due == end_of_month_date(now.date) && date_valid(r->0.due)
                && r->0.description@ == month_cleaned(phrase@)->0
        },
        (!has_end_month(phrase@) && has_end_year(phrase@)) ==> {
            &&& (r is Some <==> year_cleaned(phrase@) is Some)
            &&& r is Some ==> r->0.due == end_of_year_date(now.date) && date_valid(r->0.due)
                && r->0.description@ == year_cleaned(phrase@)->0
        },
        (!has_end_month(phrase@) && !has_end_year(phrase@) && has_end_week(phrase@)) ==> {
            &&& (r is Some <==> week_cleaned(phrase@) is Some)
            &&& r is Some ==> {
                &&& date_valid(r->0.due)
                &&& day_index(r->0.due) == day_index(now.date) + weekday_gap(
                    weekday_index(now.weekday),
                    5,
                )
                &&& weekday_index_of_date(r->0.due) == 5
                &&& r->0.description@ == week_cleaned(phrase@)->0
            }
        },
        (!has_end_month(phrase@) && !has_end_year(phrase@) && !has_end_week(phrase@)
            && any_day_matched(phrase@)) ==> {
            &&& (r is Some <==> days_cleaned(phrase@) is Some)
            &&& r is Some ==> {
                &&& date_valid(r->0.due)
                &&& day_index(r->0.due) == day_index(now.date) + weekday_offset(
                    phrase@,
                    weekday_index(now.weekday),
                ).0
                &&& r->0.description@ == days_cleaned(phrase@)->0
            }
        },
        (!has_end_month(phrase@) && !has_end_year(phrase@) && !has_end_week(phrase@)
            && !any_day_matched(phrase@)) ==> r is None,
{
    let v = str_chars(phrase);
    let has_end = contains_sub_ex(&v, "end");
    if has_end && contains_sub_ex(&v, "month") {
        return infer_month(&v, now);
    }
    if has_end && contains_sub_ex(&v, "year") {
        return infer_year(&v, now);
    }
    if has_end && contains_sub_ex(&v, "week") {
        return infer_week(&v, now);
    }
    let any_day = contains_sub_ex(&v, " mon") || contains_sub_ex(&v, " tue") || contains_sub_ex(
        &v,
        " wed",
    ) || contains_sub_ex(&v, " thu") || contains_sub_ex(&v, " fri") || contains_sub_ex(&v, " sat")
        || contains_sub_ex(&v, " sun");
    if !any_day {
        return None;
    }
    infer_days(&v, now)
}

} // verus!
