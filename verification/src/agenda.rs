//! Daily agendas: which events are active on a date, in start-time order.
//!
//! [`agenda_for`] filters a collection of events down to those whose
//! recurrence rule fires on the given date and sorts them stably by start
//! time: events that start at the same minute keep the order they had in
//! the collection. The specification is the recursive stable insertion
//! sort [`sort_by_start`] over the filtered sequence, and the stability
//! law is proved of it as [`lemma_agenda_stable`].
use crate::clock::{today_wf, Today};
use crate::date::{
    at_calendar_end, date_valid, day_index, lemma_day_index_headroom, lemma_day_index_nonnegative,
    next_date_ex, prev_date_ex, weekday_index_of_date, Date,
};
use crate::recurrence::{rule_matches, rule_matches_ex, RecurrenceRule};
use crate::timeofday::{time_rank, time_rank_ex, time_wf, TimeOfDay};
use crate::weekday::{weekday_index, weekday_of_date, Weekday};
use vstd::prelude::*;
use vstd::seq_lib::group_filter_ensures;

verus! {

/// A calendar event: what, when in the day, and on which days.
#[derive(Debug)]
pub struct Event {
    pub description: String,
    pub start: TimeOfDay,
    pub end: TimeOfDay,
    pub recurrence: RecurrenceRule,
    pub id: u64,
}

impl Clone for Event {
    /// An event clones to an equal event.
    fn clone(&self) -> (r: Self)
        ensures
            r == *self,
    {
        Event {
            description: self.description.clone(),
            start: self.start,
            end: self.end,
            recurrence: self.recurrence,
            id: self.id,
        }
    }
}

/// A well-formed event carries well-formed start and end times.
pub open spec fn event_wf(e: Event) -> bool {
    time_wf(e.start) && time_wf(e.end)
}

/// Whether the event's recurrence rule fires on the given date and weekday.
pub open spec fn event_matches(e: Event, date: Date, weekday: Weekday) -> bool {
    rule_matches(e.recurrence, date, weekday)
}

/// The sort key of an event: the rank of its start time.
pub open spec fn start_rank(e: Event) -> int {
    time_rank(e.start)
}

/// The predicate selecting the events active on `date`.
pub open spec fn matches_pred(date: Date, weekday: Weekday) -> spec_fn(Event) -> bool {
    |e: Event| event_matches(e, date, weekday)
}

/// The predicate selecting the events whose start has rank `k`.
pub open spec fn start_class(k: int) -> spec_fn(Event) -> bool {
    |e: Event| start_rank(e) == k
}

/// `x` inserted into `s` after every event that starts no later than `x`.
pub open spec fn insert_by_start(x: Event, s: Seq<Event>) -> Seq<Event>
    decreases s.len(),
{
    if s.len() == 0 {
        seq![x]
    } else if start_rank(x) < start_rank(s[0]) {
        seq![x] + s
    } else {
        seq![s[0]] + insert_by_start(x, s.drop_first())
    }
}

/// Stable insertion sort by start time: events are taken left to right
/// and each is inserted after every earlier event starting no later.
pub open spec fn sort_by_start(s: Seq<Event>) -> Seq<Event>
    decreases s.len(),
{
    if s.len() == 0 {
        Seq::<Event>::empty()
    } else {
        insert_by_start(s.last(), sort_by_start(s.drop_last()))
    }
}

/// Whether `s` is ordered by start time.
pub open spec fn sorted_by_start(s: Seq<Event>) -> bool {
    forall|i: int, j: int| 0 <= i < j < s.len() ==> start_rank(s[i]) <= start_rank(s[j])
}

/// The agenda of `date`: the events whose rule fires on it, stably sorted
/// by start time.
pub open spec fn agenda_spec(events: Seq<Event>, date: Date, weekday: Weekday) -> Seq<Event> {
    sort_by_start(events.filter(matches_pred(date, weekday)))
}

/// Inserting keeps a sequence sorted.
proof fn lemma_insert_sorted(x: Event, s: Seq<Event>)
    requires
        sorted_by_start(s),
    ensures
        sorted_by_start(insert_by_start(x, s)),
        insert_by_start(x, s).len() == s.len() + 1,
    decreases s.len(),
{
    if s.len() == 0 {
    } else if start_rank(x) < start_rank(s[0]) {
        let r = seq![x] + s;
        assert forall|i: int, j: int| 0 <= i < j < r.len() implies start_rank(r[i]) <= start_rank(
            r[j],
        ) by {
            if i > 0 {
                assert(r[i] == s[i - 1] && r[j] == s[j - 1]);
            } else {
                assert(r[j] == s[j - 1]);
                assert(start_rank(s[0]) <= start_rank(s[j - 1]));
            }
        }
    } else {
        assert(sorted_by_start(s.drop_first())) by {
            assert(forall|i: int, j: int|
                0 <= i < j < s.len() - 1 ==> start_rank(#[trigger] s.drop_first()[i])
                    <= start_rank(#[trigger] s.drop_first()[j]));
        }
        lemma_insert_sorted(x, s.drop_first());
        let t = insert_by_start(x, s.drop_first());
        let r = seq![s[0]] + t;
        assert forall|i: int, j: int| 0 <= i < j < r.len() implies start_rank(r[i]) <= start_rank(
            r[j],
        ) by {
            if i > 0 {
                assert(r[i] == t[i - 1] && r[j] == t[j - 1]);
            } else {
                assert(r[j] == t[j - 1]);
                assert(start_rank(s[0]) <= start_rank(t[j - 1])) by {
                    lemma_insert_members(x, s.drop_first(), j - 1);
                }
            }
        }
    }
}

/// Every element of an insertion is the inserted event or one of the old
/// ones, so a lower bound on the old ranks and on the new event bounds
/// the whole result.
proof fn lemma_insert_members(x: Event, s: Seq<Event>, i: int)
    requires
        0 <= i < insert_by_start(x, s).len(),
        insert_by_start(x, s).len() == s.len() + 1,
    ensures
        insert_by_start(x, s)[i] == x || exists|j: int|
            0 <= j < s.len() && insert_by_start(x, s)[i] == s[j],
    decreases s.len(),
{
    if s.len() == 0 {
    } else if start_rank(x) < start_rank(s[0]) {
        if i > 0 {
            assert(insert_by_start(x, s)[i] == s[i - 1]);
        }
    } else {
        if i > 0 {
            lemma_insert_sorted_len(x, s.drop_first());
            lemma_insert_members(x, s.drop_first(), i - 1);
            let t = insert_by_start(x, s.drop_first());
            assert(insert_by_start(x, s)[i] == t[i - 1]);
            if t[i - 1] != x {
                let j = choose|j: int| 0 <= j < s.len() - 1 && t[i - 1] == s.drop_first()[j];
                assert(insert_by_start(x, s)[i] == s[j + 1]);
            }
        } else {
            assert(insert_by_start(x, s)[0] == s[0]);
        }
    }
}

/// Inserting grows the length by one.
proof fn lemma_insert_sorted_len(x: Event, s: Seq<Event>)
    ensures
        insert_by_start(x, s).len() == s.len() + 1,
    decreases s.len(),
{
    if s.len() > 0 && !(start_rank(x) < start_rank(s[0])) {
        lemma_insert_sorted_len(x, s.drop_first());
    }
}

/// The sort of any sequence is sorted.
pub proof fn lemma_sort_sorted(s: Seq<Event>)
    ensures
        sorted_by_start(sort_by_start(s)),
        sort_by_start(s).len() == s.len(),
    decreases s.len(),
{
    if s.len() > 0 {
        lemma_sort_sorted(s.drop_last());
        lemma_insert_sorted(s.last(), sort_by_start(s.drop_last()));
    }
}

/// When every event of `s` starts no earlier than position `p` would
/// demand, insertion lands exactly at `p`.
proof fn lemma_insert_at(x: Event, s: Seq<Event>, p: int)
    requires
        sorted_by_start(s),
        0 <= p <= s.len(),
        forall|q: int| 0 <= q < p ==> start_rank(s[q]) <= start_rank(x),
        p < s.len() ==> start_rank(s[p]) > start_rank(x),
    ensures
        insert_by_start(x, s) == s.insert(p, x),
    decreases s.len(),
{
    if s.len() == 0 {
        assert(insert_by_start(x, s) =~= s.insert(0, x));
    } else if p == 0 {
        assert(start_rank(x) < start_rank(s[0]));
        assert(seq![x] + s =~= s.insert(0, x));
    } else {
        assert(start_rank(s[0]) <= start_rank(x));
        assert(sorted_by_start(s.drop_first())) by {
            assert(forall|i: int, j: int|
                0 <= i < j < s.len() - 1 ==> start_rank(#[trigger] s.drop_first()[i])
                    <= start_rank(#[trigger] s.drop_first()[j]));
        }
        assert(forall|q: int|
            0 <= q < p - 1 ==> start_rank(#[trigger] s.drop_first()[q]) <= start_rank(x));
        lemma_insert_at(x, s.drop_first(), p - 1);
        assert(seq![s[0]] + s.drop_first().insert(p - 1, x) =~= s.insert(p, x));
    }
}

/// Appending one event to the input inserts it into the sorted output.
proof fn lemma_sort_push(s: Seq<Event>, x: Event)
    ensures
        sort_by_start(s.push(x)) == insert_by_start(x, sort_by_start(s)),
{
    assert(s.push(x).drop_last() =~= s);
    assert(s.push(x).last() == x);
}

/// A filter keeps nothing when nothing satisfies the predicate.
proof fn lemma_filter_none(s: Seq<Event>, pred: spec_fn(Event) -> bool)
    requires
        forall|i: int| 0 <= i < s.len() ==> !pred(#[trigger] s[i]),
    ensures
        s.filter(pred) == Seq::<Event>::empty(),
    decreases s.len(),
{
    reveal(Seq::filter);
    if s.len() > 0 {
        assert(!pred(s.last()));
        assert(forall|i: int|
            0 <= i < s.len() - 1 ==> s.drop_last()[i] == #[trigger] s[i]);
        lemma_filter_none(s.drop_last(), pred);
    }
}

/// A one-event sequence filters to itself or to nothing.
proof fn lemma_filter_singleton(x: Event, pred: spec_fn(Event) -> bool)
    ensures
        seq![x].filter(pred) == if pred(x) {
            seq![x]
        } else {
            Seq::<Event>::empty()
        },
{
    reveal(Seq::filter);
    assert(seq![x].drop_last() =~= Seq::<Event>::empty());
    assert(seq![x].last() == x);
    assert(Seq::<Event>::empty().filter(pred) == Seq::<Event>::empty());
    if pred(x) {
        assert(seq![x].filter(pred) =~= seq![x]);
    }
}

/// Insertion appends the new event to its own start class and leaves
/// every start class otherwise unchanged.
proof fn lemma_insert_class(x: Event, s: Seq<Event>, k: int)
    requires
        sorted_by_start(s),
    ensures
        insert_by_start(x, s).filter(start_class(k)) == s.filter(start_class(k)) + if start_rank(x)
            == k {
            seq![x]
        } else {
            Seq::<Event>::empty()
        },
    decreases s.len(),
{
    broadcast use group_filter_ensures;

    let pred = start_class(k);
    let tail_x: Seq<Event> = if start_rank(x) == k {
        seq![x]
    } else {
        Seq::<Event>::empty()
    };
    lemma_filter_singleton(x, pred);
    if s.len() == 0 {
        assert(s.filter(pred) == Seq::<Event>::empty()) by {
            lemma_filter_none(s, pred);
        }
        assert(seq![x].filter(pred) =~= s.filter(pred) + tail_x);
    } else if start_rank(x) < start_rank(s[0]) {
        Seq::filter_distributes_over_add(seq![x], s, pred);
        if start_rank(x) == k {
            assert(forall|i: int| 0 <= i < s.len() ==> !pred(#[trigger] s[i]));
            lemma_filter_none(s, pred);
            assert(seq![x].filter(pred) + s.filter(pred) =~= s.filter(pred) + tail_x);
        } else {
            assert(seq![x].filter(pred) + s.filter(pred) =~= s.filter(pred) + tail_x);
        }
    } else {
        assert(sorted_by_start(s.drop_first())) by {
            assert(forall|i: int, j: int|
                0 <= i < j < s.len() - 1 ==> start_rank(#[trigger] s.drop_first()[i])
                    <= start_rank(#[trigger] s.drop_first()[j]));
        }
        lemma_insert_class(x, s.drop_first(), k);
        lemma_filter_singleton(s[0], pred);
        Seq::filter_distributes_over_add(seq![s[0]], insert_by_start(x, s.drop_first()), pred);
        Seq::filter_distributes_over_add(seq![s[0]], s.drop_first(), pred);
        assert(seq![s[0]] + s.drop_first() =~= s);
        assert(seq![s[0]].filter(pred) + (s.drop_first().filter(pred) + tail_x) =~= (
        seq![s[0]].filter(pred) + s.drop_first().filter(pred)) + tail_x);
    }
}

/// Sorting preserves each start class as a subsequence: the events of any
/// one start rank come out in exactly the order they went in.
proof fn lemma_sort_class(s: Seq<Event>, k: int)
    ensures
        sort_by_start(s).filter(start_class(k)) == s.filter(start_class(k)),
    decreases s.len(),
{
    reveal(Seq::filter);
    if s.len() > 0 {
        lemma_sort_class(s.drop_last(), k);
        lemma_sort_sorted(s.drop_last());
        lemma_insert_class(s.last(), sort_by_start(s.drop_last()), k);
        let pred = start_class(k);
        let tail_x: Seq<Event> = if start_rank(s.last()) == k {
            seq![s.last()]
        } else {
            Seq::<Event>::empty()
        };
        assert(s.filter(pred) == if pred(s.last()) {
            s.drop_last().filter(pred).push(s.last())
        } else {
            s.drop_last().filter(pred)
        });
        assert(s.drop_last().filter(pred) + tail_x =~= s.filter(pred));
    }
}

/// The agenda never reorders two events with the same start time: within
/// each start rank, the agenda lists the matching events in their
/// original order.
pub proof fn lemma_agenda_stable(events: Seq<Event>, date: Date, weekday: Weekday, k: int)
    ensures
        agenda_spec(events, date, weekday).filter(start_class(k)) == events.filter(
            matches_pred(date, weekday),
        ).filter(start_class(k)),
{
    lemma_sort_class(events.filter(matches_pred(date, weekday)), k);
}

/// The position in `v` before which an event of start rank `rx` belongs:
/// past every event starting no later than `rx`.
fn insert_position(v: &Vec<Event>, rx: u32) -> (p: usize)
    requires
        forall|i: int| 0 <= i < v@.len() ==> event_wf(#[trigger] v@[i]),
    ensures
        p <= v@.len(),
        forall|q: int| 0 <= q < p ==> start_rank(v@[q]) <= rx,
        p < v@.len() ==> start_rank(v@[p as int]) > rx,
{
    let n = v.len();
    let mut p: usize = 0;
    while p < n
        invariant
            n == v@.len(),
            p <= n,
            forall|i: int| 0 <= i < v@.len() ==> event_wf(#[trigger] v@[i]),
            forall|q: int| 0 <= q < p ==> start_rank(v@[q]) <= rx,
        decreases n - p,
    {
        if time_rank_ex(&v[p].start) > rx {
            return p;
        }
        p = p + 1;
    }
    p
}

/// The agenda of `date`: every event whose recurrence rule fires on it,
/// sorted stably by start time. An empty collection, or one where nothing
/// matches, yields an empty agenda, never an error.
#[verifier::loop_isolation(false)]
pub fn agenda_for(date: &Date, weekday: Weekday, events: &Vec<Event>) -> (r: Vec<Event>)
    requires
        forall|i: int| 0 <= i < events@.len() ==> event_wf(#[trigger] events@[i]),
    ensures
        r@ == agenda_spec(events@, *date, weekday),
        sorted_by_start(r@),
        forall|i: int| 0 <= i < r@.len() ==> event_wf(#[trigger] r@[i]),
        events@.len() == 0 ==> r@.len() == 0,
{
    reveal(Seq::filter);
    let ghost pred = matches_pred(*date, weekday);
    let mut out: Vec<Event> = Vec::new();
    let n = events.len();
    let mut i: usize = 0;
    proof {
        assert(events@.take(0) =~= Seq::<Event>::empty());
        assert(Seq::<Event>::empty().filter(pred) == Seq::<Event>::empty());
    }
    while i < n
        invariant
            i <= n,
            out@ == sort_by_start(events@.take(i as int).filter(pred)),
            sorted_by_start(out@),
            forall|j: int| 0 <= j < out@.len() ==> event_wf(#[trigger] out@[j]),
        decreases n - i,
    {
        let e = &events[i];
        proof {
            assert(events@.take(i + 1).drop_last() =~= events@.take(i as int));
            assert(events@.take(i + 1).last() == events@[i as int]);
        }
        if rule_matches_ex(&e.recurrence, date, weekday) {
            let x = e.clone();
            let rx = time_rank_ex(&x.start);
            let p = insert_position(&out, rx);
            let ghost old_out = out@;
            out.insert(p, x);
            proof {
                lemma_insert_at(x, old_out, p as int);
                lemma_sort_push(events@.take(i as int).filter(pred), x);
                assert(events@.take(i + 1).filter(pred) == events@.take(i as int).filter(
                    pred,
                ).push(x));
                lemma_sort_sorted(events@.take(i + 1).filter(pred));
                assert forall|j: int| 0 <= j < out@.len() implies event_wf(
                    #[trigger] out@[j],
                ) by {
                    assert(out@ == old_out.insert(p as int, x));
                    if j < p {
                        assert(out@[j] == old_out[j]);
                    } else if j == p {
                        assert(out@[j] == x);
                    } else {
                        assert(out@[j] == old_out[j - 1]);
                    }
                }
            }
        } else {
            proof {
                assert(events@.take(i + 1).filter(pred) == events@.take(i as int).filter(pred));
            }
        }
        i = i + 1;
    }
    proof {
        assert(events@.take(n as int) =~= events@);
    }
    out
}

/// One day of the weekly calendar: a date, the weekday it falls on, and
/// the agenda of events active on it.
#[derive(Debug)]
pub struct DayAgenda {
    pub date: Date,
    pub weekday: Weekday,
    pub events: Vec<Event>,
}

/// The weekly calendar window: yesterday, today, and the five days after,
/// in order, each carrying its own weekday and agenda.
#[verifier::loop_isolation(false)]
pub fn weekly_window(now: &Today, events: &Vec<Event>) -> (r: Vec<DayAgenda>)
    requires
        today_wf(*now),
        forall|i: int| 0 <= i < events@.len() ==> event_wf(#[trigger] events@[i]),
    ensures
        r@.len() == 7,
        forall|i: int|
            0 <= i < 7 ==> {
                &&& date_valid(#[trigger] r@[i].date)
                &&& day_index(r@[i].date) == day_index(now.date) - 1 + i
                &&& weekday_index(r@[i].weekday) == weekday_index_of_date(r@[i].date)
                &&& r@[i].events@ == agenda_spec(events@, r@[i].date, r@[i].weekday)
            },
{
    proof {
        lemma_day_index_headroom(now.date);
        lemma_day_index_nonnegative(now.date);
    }
    let mut out: Vec<DayAgenda> = Vec::new();
    let mut d = prev_date_ex(&now.date);
    let mut i: usize = 0;
    while i < 7
        invariant
            i <= 7,
            out@.len() == i,
            date_valid(d),
            day_index(d) == day_index(now.date) - 1 + i,
            forall|j: int|
                0 <= j < i ==> {
                    &&& date_valid(#[trigger] out@[j].date)
                    &&& day_index(out@[j].date) == day_index(now.date) - 1 + j
                    &&& weekday_index(out@[j].weekday) == weekday_index_of_date(out@[j].date)
                    &&& out@[j].events@ == agenda_spec(events@, out@[j].date, out@[j].weekday)
                },
        decreases 7 - i,
    {
        let weekday = weekday_of_date(&d);
        let agenda = agenda_for(&d, weekday, events);
        out.push(DayAgenda { date: d, weekday, events: agenda });
        proof {
            if at_calendar_end(d) {
                assert(d == (Date { year: 9999, month: 12, day: 31 }));
            }
        }
        d = next_date_ex(&d);
        i = i + 1;
    }
    out
}

} // verus!
