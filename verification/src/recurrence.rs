//! Recurrence rules: when an event fires.
//!
//! A rule is either one exact calendar date or a set of weekdays. The
//! constructor accepts an empty text (the given "now" as the one date), one
//! of the aliases `everyday`, `weekday` or `weekend`, a `YYYY-MM-DD` date
//! (told apart from weekday lists by holding exactly two `-` characters),
//! or a comma-separated list of lowercase weekday names.
use crate::date::{date_valid, date_valid_ex, Date};
use crate::text::{
    all_digits, chars_eq_str, digits_val, digits_value_capped, is_digit, split_sep, split_sep_ex,
    str_chars,
};
use crate::weekday::{is_weekday_name, weekday_from_chars, weekday_name, Weekday};
use crate::ParseError;
use vstd::prelude::*;

verus! {

/// A set of days of the week.
#[derive(Clone, Copy, Debug, PartialEq, Eq, Structural)]
pub struct WeekdaySet {
    pub monday: bool,
    pub tuesday: bool,
    pub wednesday: bool,
    pub thursday: bool,
    pub friday: bool,
    pub saturday: bool,
    pub sunday: bool,
}

/// Whether `w` belongs to `s`.
pub open spec fn set_has(s: WeekdaySet, w: Weekday) -> bool {
    match w {
        Weekday::Monday => s.monday,
        Weekday::Tuesday => s.tuesday,
        Weekday::Wednesday => s.wednesday,
        Weekday::Thursday => s.thursday,
        Weekday::Friday => s.friday,
        Weekday::Saturday => s.saturday,
        Weekday::Sunday => s.sunday,
    }
}

/// Whether `w` belongs to `s`.
pub fn set_has_ex(s: &WeekdaySet, w: Weekday) -> (r: bool)
    ensures
        r == set_has(*s, w),
{
    match w {
        Weekday::Monday => s.monday,
        Weekday::Tuesday => s.tuesday,
        Weekday::Wednesday => s.wednesday,
        Weekday::Thursday => s.thursday,
        Weekday::Friday => s.friday,
        Weekday::Saturday => s.saturday,
        Weekday::Sunday => s.sunday,
    }
}

/// The empty set of weekdays.
pub open spec fn no_days() -> WeekdaySet {
    WeekdaySet {
        monday: false,
        tuesday: false,
        wednesday: false,
        thursday: false,
        friday: false,
        saturday: false,
        sunday: false,
    }
}

/// All seven weekdays: the expansion of the alias `everyday`.
pub open spec fn every_day() -> WeekdaySet {
    WeekdaySet {
        monday: true,
        tuesday: true,
        wednesday: true,
        thursday: true,
        friday: true,
        saturday: true,
        sunday: true,
    }
}

/// Monday through Friday: the expansion of the alias `weekday`.
pub open spec fn week_days() -> WeekdaySet {
    WeekdaySet {
        monday: true,
        tuesday: true,
        wednesday: true,
        thursday: true,
        friday: true,
        saturday: false,
        sunday: false,
    }
}

/// Saturday and Sunday: the expansion of the alias `weekend`.
pub open spec fn weekend_days() -> WeekdaySet {
    WeekdaySet {
        monday: false,
        tuesday: false,
        wednesday: false,
        thursday: false,
        friday: false,
        saturday: true,
        sunday: true,
    }
}

/// `s` with `w` added.
pub fn set_add(s: WeekdaySet, w: Weekday) -> (r: WeekdaySet)
    ensures
        forall|x: Weekday| set_has(r, x) == (set_has(s, x) || x == w),
{
    let mut r = s;
    match w {
        Weekday::Monday => r.monday = true,
        Weekday::Tuesday => r.tuesday = true,
        Weekday::Wednesday => r.wednesday = true,
        Weekday::Thursday => r.thursday = true,
        Weekday::Friday => r.friday = true,
        Weekday::Saturday => r.saturday = true,
        Weekday::Sunday => r.sunday = true,
    }
    r
}

/// When an event recurs: on one exact date, or on every date falling on
/// one of a set of weekdays.
#[derive(Clone, Copy, Debug, PartialEq, Eq, Structural)]
pub enum RecurrenceRule {
    OnDate(Date),
    OnWeekdays(WeekdaySet),
}

/// Whether the rule fires on the given date, which falls on the given
/// weekday: an exact date compares dates, a weekday set tests membership.
pub open spec fn rule_matches(rule: RecurrenceRule, date: Date, weekday: Weekday) -> bool {
    match rule {
        RecurrenceRule::OnDate(d) => d == date,
        RecurrenceRule::OnWeekdays(s) => set_has(s, weekday),
    }
}

/// Whether the rule fires on the given date and weekday.
pub fn rule_matches_ex(rule: &RecurrenceRule, date: &Date, weekday: Weekday) -> (r: bool)
    ensures
        r == rule_matches(*rule, *date, weekday),
{
    match rule {
        RecurrenceRule::OnDate(d) => *d == *date,
        RecurrenceRule::OnWeekdays(s) => set_has_ex(s, weekday),
    }
}

/// How many times `c` occurs in `s`.
pub open spec fn count_char(s: Seq<char>, c: char) -> int
    decreases s.len(),
{
    if s.len() == 0 {
        0
    } else {
        count_char(s.drop_last(), c) + if s.last() == c {
            1int
        } else {
            0int
        }
    }
}

/// How many times `c` occurs in `v`.
pub fn count_char_ex(v: &Vec<char>, c: char) -> (n: u64)
    ensures
        n == count_char(v@, c),
        n <= v@.len(),
{
    let mut n: u64 = 0;
    let mut i: usize = 0;
    proof {
        assert(v@.take(0) =~= Seq::<char>::empty());
    }
    while i < v.len()
        invariant
            i <= v@.len(),
            n == count_char(v@.take(i as int), c),
            n <= i,
        decreases v@.len() - i,
    {
        proof {
            assert(v@.take(i + 1).drop_last() =~= v@.take(i as int));
            assert(v@.take(i + 1).last() == v@[i as int]);
        }
        if v[i] == c {
            n = n + 1;
        }
        i = i + 1;
    }
    proof {
        assert(v@.take(v@.len() as int) =~= v@);
    }
    n
}

/// Whether `s` writes the date `d` as `YYYY-MM-DD`: four year digits, two
/// month digits and two day digits, separated by `-`.
pub open spec fn is_date_repr(s: Seq<char>, d: Date) -> bool {
    &&& s.len() == 10
    &&& all_digits(s.subrange(0, 4))
    &&& s[4] == '-'
    &&& all_digits(s.subrange(5, 7))
    &&& s[7] == '-'
    &&& all_digits(s.subrange(8, 10))
    &&& digits_val(s.subrange(0, 4)) == d.year
    &&& digits_val(s.subrange(5, 7)) == d.month
    &&& digits_val(s.subrange(8, 10)) == d.day
}

/// Parses a `YYYY-MM-DD` text into a valid date.
fn parse_date_chars(v: &Vec<char>) -> (r: Option<Date>)
    ensures
        r is Some ==> date_valid(r->0) && is_date_repr(v@, r->0),
        r is None ==> forall|d: Date| date_valid(d) ==> !is_date_repr(v@, d),
{
    if v.len() != 10 {
        return None;
    }
    let c4 = v[4];
    let c7 = v[7];
    if c4 != '-' || c7 != '-' {
        return None;
    }
    let y = match digits_value_capped(v, 0, 4, 10000) {
        None => {
            return None;
        },
        Some(y) => y,
    };
    let m = match digits_value_capped(v, 5, 7, 13) {
        None => {
            return None;
        },
        Some(m) => m,
    };
    let d = match digits_value_capped(v, 8, 10, 32) {
        None => {
            return None;
        },
        Some(d) => d,
    };
    proof {
        assert(digits_val(v@.subrange(0, 4)) <= 9999) by {
            lemma_digits_val_bound(v@.subrange(0, 4));
        }
        assert(digits_val(v@.subrange(5, 7)) <= 99) by {
            lemma_digits_val_bound(v@.subrange(5, 7));
        }
        assert(digits_val(v@.subrange(8, 10)) <= 99) by {
            lemma_digits_val_bound(v@.subrange(8, 10));
        }
    }
    if m == 13 || d == 32 {
        proof {
            assert forall|dd: Date| date_valid(dd) implies !is_date_repr(v@, dd) by {
                if is_date_repr(v@, dd) {
                }
            }
        }
        return None;
    }
    let date = Date { year: y, month: m, day: d };
    if date_valid_ex(&date) {
        Some(date)
    } else {
        None
    }
}

/// A short run of digits writes a small number: below 10 to the power of
/// its length, stated here for the runs a date uses.
proof fn lemma_digits_val_bound(s: Seq<char>)
    requires
        all_digits(s),
    ensures
        0 <= digits_val(s),
        s.len() <= 1 ==> digits_val(s) < 10,
        s.len() <= 2 ==> digits_val(s) < 100,
        s.len() <= 3 ==> digits_val(s) < 1000,
        s.len() <= 4 ==> digits_val(s) < 10000,
    decreases s.len(),
{
    if s.len() > 0 {
        assert(all_digits(s.drop_last())) by {
            assert(forall|i: int| 0 <= i < s.len() - 1 ==> s.drop_last()[i] == #[trigger] s[i]);
        }
        lemma_digits_val_bound(s.drop_last());
        assert(is_digit(s.last()));
        assert(0 <= s.last() as int - '0' as int <= 9);
    }
}

/// A text writes at most one date, so the contract of [`parse_date`]
/// determines its result completely.
pub proof fn lemma_date_repr_unique(s: Seq<char>, d1: Date, d2: Date)
    requires
        is_date_repr(s, d1),
        is_date_repr(s, d2),
    ensures
        d1 == d2,
{
}

/// Parses a `YYYY-MM-DD` text into a valid date: four year digits, two
/// month digits and two day digits, naming a real calendar day.
pub fn parse_date(raw: &str) -> (r: Option<Date>)
    ensures
        r is Some ==> date_valid(r->0) && is_date_repr(raw@, r->0),
        r is None ==> forall|d: Date| date_valid(d) ==> !is_date_repr(raw@, d),
{
    let v = str_chars(raw);
    parse_date_chars(&v)
}

/// Parses a repeat specification against the date "now".
///
/// An empty text makes the rule that fires only on `now`. One of the three
/// aliases makes its fixed weekday set. A text holding exactly two `-`
/// characters must write a valid `YYYY-MM-DD` date. Anything else is read
/// as a comma-separated list whose every piece must be a lowercase weekday
/// name.
#[verifier::loop_isolation(false)]
pub fn parse_recurrence(raw: &str, now: &Date) -> (r: Result<RecurrenceRule, ParseError>)
    requires
        date_valid(*now),
    ensures
        raw@.len() == 0 ==> r == Ok::<RecurrenceRule, ParseError>(RecurrenceRule::OnDate(*now)),
        raw@ == "everyday"@ ==> r == Ok::<RecurrenceRule, ParseError>(
            RecurrenceRule::OnWeekdays(every_day()),
        ),
        raw@ == "weekday"@ ==> r == Ok::<RecurrenceRule, ParseError>(
            RecurrenceRule::OnWeekdays(week_days()),
        ),
        raw@ == "weekend"@ ==> r == Ok::<RecurrenceRule, ParseError>(
            RecurrenceRule::OnWeekdays(weekend_days()),
        ),
        count_char(raw@, '-') == 2 ==> match r {
            Ok(rule) => exists|d: Date|
                rule == RecurrenceRule::OnDate(d) && date_valid(d) && is_date_repr(raw@, d),
            Err(e) => e == ParseError::InvalidRecurrence && forall|d: Date|
                date_valid(d) ==> !is_date_repr(raw@, d),
        },
        (raw@.len() != 0 && raw@ != "everyday"@ && raw@ != "weekday"@ && raw@ != "weekend"@
            && count_char(raw@, '-') != 2) ==> match r {
            Ok(rule) => {
                &&& forall|i: int|
                    0 <= i < split_sep(raw@, ',').len() ==> is_weekday_name(
                        #[trigger] split_sep(raw@, ',')[i],
                    )
                &&& rule matches RecurrenceRule::OnWeekdays(s) && (forall|w: Weekday|
                    #[trigger] set_has(s, w) <==> split_sep(raw@, ',').contains(weekday_name(w)))
            },
            Err(e) => e == ParseError::InvalidRecurrence && exists|i: int|
                0 <= i < split_sep(raw@, ',').len() && !is_weekday_name(
                    #[trigger] split_sep(raw@, ',')[i],
                ),
        },
        r is Err ==> r->Err_0 == ParseError::InvalidRecurrence,
{
    broadcast use vstd::string::group_string_axioms;

    proof {
        reveal_strlit("everyday");
        reveal_strlit("weekday");
        reveal_strlit("weekend");
        assert("everyday"@.len() == 8);
        assert("weekday"@.len() == 7);
        assert("weekend"@.len() == 7);
        assert("weekday"@[4] == 'd' && "weekend"@[4] == 'e');
    }
    let v = str_chars(raw);
    if v.len() == 0 {
        return Ok(RecurrenceRule::OnDate(*now));
    }
    if chars_eq_str(&v, "everyday") {
        proof {
            assert(count_char(raw@, '-') == 0) by {
                lemma_count_char_none(raw@, '-');
            }
        }
        return Ok(
            RecurrenceRule::OnWeekdays(
                WeekdaySet {
                    monday: true,
                    tuesday: true,
                    wednesday: true,
                    thursday: true,
                    friday: true,
                    saturday: true,
                    sunday: true,
                },
            ),
        );
    }
    if chars_eq_str(&v, "weekday") {
        proof {
            assert(count_char(raw@, '-') == 0) by {
                lemma_count_char_none(raw@, '-');
            }
        }
        return Ok(
            RecurrenceRule::OnWeekdays(
                WeekdaySet {
                    monday: true,
                    tuesday: true,
                    wednesday: true,
                    thursday: true,
                    friday: true,
                    saturday: false,
                    sunday: false,
                },
            ),
        );
    }
    if chars_eq_str(&v, "weekend") {
        proof {
            assert(count_char(raw@, '-') == 0) by {
                lemma_count_char_none(raw@, '-');
            }
        }
        return Ok(
            RecurrenceRule::OnWeekdays(
                WeekdaySet {
                    monday: false,
                    tuesday: false,
                    wednesday: false,
                    thursday: false,
                    friday: false,
                    saturday: true,
                    sunday: true,
                },
            ),
        );
    }
    let dashes = count_char_ex(&v, '-');
    if dashes == 2 {
        return match parse_date_chars(&v) {
            Some(d) => Ok(RecurrenceRule::OnDate(d)),
            None => Err(ParseError::InvalidRecurrence),
        };
    }
    let tokens = split_sep_ex(&v, ',');
    let mut set = WeekdaySet {
        monday: false,
        tuesday: false,
        wednesday: false,
        thursday: false,
        friday: false,
        saturday: false,
        sunday: false,
    };
    let mut k: usize = 0;
    let n = tokens.len();
    while k < n
        invariant
            n == tokens@.len(),
            k <= n,
            tokens.deep_view() == split_sep(v@, ','),
            tokens.deep_view().len() == n,
            forall|i: int|
                0 <= i < k ==> is_weekday_name(#[trigger] tokens.deep_view()[i]),
            forall|w: Weekday|
                #[trigger] set_has(set, w) <==> prefix_names_day(
                    tokens.deep_view(),
                    k as int,
                    w,
                ),
        decreases n - k,
    {
        let tok = &tokens[k];
        proof {
            assert(tokens.deep_view()[k as int] =~= tok@);
        }
        match weekday_from_chars(tok) {
            Some(w) => {
                let ghost old_set = set;
                set = set_add(set, w);
                proof {
                    crate::weekday::lemma_weekday_names_distinct();
                    assert forall|x: Weekday| set_has(set, x) implies prefix_names_day(
                        tokens.deep_view(),
                        k + 1,
                        x,
                    ) by {
                        if set_has(old_set, x) {
                            let i = choose|i: int|
                                0 <= i < k && tokens.deep_view()[i] == weekday_name(x);
                            assert(0 <= i < k + 1 && tokens.deep_view()[i] == weekday_name(x));
                        } else {
                            assert(x == w);
                            assert(tokens.deep_view()[k as int] == weekday_name(x));
                        }
                    }
                    assert forall|x: Weekday|
                        prefix_names_day(tokens.deep_view(), k + 1, x) implies set_has(
                        set,
                        x,
                    ) by {
                        let i = choose|i: int|
                            0 <= i < k + 1 && tokens.deep_view()[i] == weekday_name(x);
                        if i < k {
                            assert(prefix_names_day(tokens.deep_view(), k as int, x));
                            assert(set_has(old_set, x));
                        } else {
                            assert(weekday_name(w) == weekday_name(x));
                            assert(x == w);
                        }
                    }
                }
            },
            None => {
                proof {
                    assert(!is_weekday_name(split_sep(raw@, ',')[k as int]));
                }
                return Err(ParseError::InvalidRecurrence);
            },
        }
        k = k + 1;
    }
    proof {
        assert forall|w: Weekday|
            #[trigger] set_has(set, w) <==> split_sep(raw@, ',').contains(weekday_name(w)) by {
            if set_has(set, w) {
                let i = choose|i: int|
                    0 <= i < n && tokens.deep_view()[i] == weekday_name(w);
                assert(split_sep(raw@, ',')[i] == weekday_name(w));
            }
            if split_sep(raw@, ',').contains(weekday_name(w)) {
                let i = choose|i: int|
                    0 <= i < split_sep(raw@, ',').len() && split_sep(raw@, ',')[i]
                        == weekday_name(w);
                assert(prefix_names_day(tokens.deep_view(), n as int, w));
            }
        }
    }
    Ok(RecurrenceRule::OnWeekdays(set))
}

/// Whether one of the first `k` pieces of `toks` is the name of `w`.
pub open spec fn prefix_names_day(toks: Seq<Seq<char>>, k: int, w: Weekday) -> bool {
    exists|i: int| 0 <= i < k && toks[i] == weekday_name(w)
}

/// A text that holds no `c` at all counts zero.
proof fn lemma_count_char_none(s: Seq<char>, c: char)
    requires
        forall|i: int| 0 <= i < s.len() ==> s[i] != c,
    ensures
        count_char(s, c) == 0,
    decreases s.len(),
{
    if s.len() > 0 {
        assert(forall|i: int|
            0 <= i < s.len() - 1 ==> s.drop_last()[i] == #[trigger] s[i]);
        lemma_count_char_none(s.drop_last(), c);
    }
}

/// An exact-date rule fires on its own date whatever weekday is supplied,
/// and never on any other date.
pub proof fn lemma_on_date_matches_exactly(d: Date, other: Date, w: Weekday)
    ensures
        rule_matches(RecurrenceRule::OnDate(d), d, w),
        other != d ==> !rule_matches(RecurrenceRule::OnDate(d), other, w),
{
}

/// The `everyday` alias admits every weekday, so the rule it makes fires
/// on every date whatever weekday it falls on.
pub proof fn lemma_everyday_matches_all(date: Date, w: Weekday)
    ensures
        rule_matches(RecurrenceRule::OnWeekdays(every_day()), date, w),
{
}

/// Weekday lists are order-insensitive: two comma lists holding the same
/// pieces in any order make rules with identical membership behavior on
/// every date and weekday.
pub proof fn lemma_weekday_list_order_irrelevant(
    a: Seq<char>,
    b: Seq<char>,
    sa: WeekdaySet,
    sb: WeekdaySet,
)
    requires
        split_sep(a, ',').to_multiset() == split_sep(b, ',').to_multiset(),
        forall|w: Weekday|
            #[trigger] set_has(sa, w) <==> split_sep(a, ',').contains(weekday_name(w)),
        forall|w: Weekday|
            #[trigger] set_has(sb, w) <==> split_sep(b, ',').contains(weekday_name(w)),
    ensures
        forall|date: Date, w: Weekday|
            rule_matches(RecurrenceRule::OnWeekdays(sa), date, w) == rule_matches(
                RecurrenceRule::OnWeekdays(sb),
                date,
                w,
            ),
{
    broadcast use vstd::seq_lib::group_to_multiset_ensures;

    assert forall|date: Date, w: Weekday|
        rule_matches(RecurrenceRule::OnWeekdays(sa), date, w) == rule_matches(
            RecurrenceRule::OnWeekdays(sb),
            date,
            w,
        ) by {
        let ta = split_sep(a, ',');
        let tb = split_sep(b, ',');
        assert(ta.contains(weekday_name(w)) <==> ta.to_multiset().count(weekday_name(w)) > 0);
        assert(tb.contains(weekday_name(w)) <==> tb.to_multiset().count(weekday_name(w)) > 0);
    }
}

} // verus!
