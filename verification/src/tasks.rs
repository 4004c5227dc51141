//! Tasks and the due-date ordering of a task list.
use crate::date::{date_valid, day_index, day_number, Date};
use vstd::prelude::*;

verus! {

/// A task: what to do, by when, whether it is done, and its id.
#[derive(Debug)]
pub struct Task {
    pub description: String,
    pub due: Date,
    pub done: bool,
    pub id: u64,
}

impl Clone for Task {
    /// A task clones to an equal task.
    fn clone(&self) -> (r: Self)
        ensures
            r == *self,
    {
        Task {
            description: self.description.clone(),
            due: self.due,
            done: self.done,
            id: self.id,
        }
    }
}

/// A well-formed task carries a valid due date.
pub open spec fn task_wf(t: Task) -> bool {
    date_valid(t.due)
}

/// The sort key of a task: the day index of its due date.
pub open spec fn due_rank(t: Task) -> int {
    day_index(t.due)
}

/// `x` inserted into `s` after every task due no later than `x`.
pub open spec fn insert_by_due(x: Task, s: Seq<Task>) -> Seq<Task>
    decreases s.len(),
{
    if s.len() == 0 {
        seq![x]
    } else if due_rank(x) < due_rank(s[0]) {
        seq![x] + s
    } else {
        seq![s[0]] + insert_by_due(x, s.drop_first())
    }
}

/// Stable insertion sort by due date: tasks are taken left to right and
/// each is inserted after every earlier task due no later.
pub open spec fn sort_by_due(s: Seq<Task>) -> Seq<Task>
    decreases s.len(),
{
    if s.len() == 0 {
        Seq::<Task>::empty()
    } else {
        insert_by_due(s.last(), sort_by_due(s.drop_last()))
    }
}

/// Whether `s` is ordered by due date.
pub open spec fn sorted_by_due(s: Seq<Task>) -> bool {
    forall|i: int, j: int| 0 <= i < j < s.len() ==> due_rank(s[i]) <= due_rank(s[j])
}

/// Inserting keeps a task sequence sorted and grows it by one.
proof fn lemma_insert_due_sorted(x: Task, s: Seq<Task>)
    requires
        sorted_by_due(s),
    ensures
        sorted_by_due(insert_by_due(x, s)),
        insert_by_due(x, s).len() == s.len() + 1,
    decreases s.len(),
{
    if s.len() == 0 {
    } else if due_rank(x) < due_rank(s[0]) {
        let r = seq![x] + s;
        assert forall|i: int, j: int| 0 <= i < j < r.len() implies due_rank(r[i]) <= due_rank(
            r[j],
        ) by {
            if i > 0 {
                assert(r[i] == s[i - 1] && r[j] == s[j - 1]);
            } else {
                assert(r[j] == s[j - 1]);
                assert(due_rank(s[0]) <= due_rank(s[j - 1]));
            }
        }
    } else {
        assert(sorted_by_due(s.drop_first())) by {
            assert(forall|i: int, j: int|
                0 <= i < j < s.len() - 1 ==> due_rank(#[trigger] s.drop_first()[i]) <= due_rank(
                    #[trigger] s.drop_first()[j],
                ));
        }
        lemma_insert_due_sorted(x, s.drop_first());
        let t = insert_by_due(x, s.drop_first());
        let r = seq![s[0]] + t;
        assert forall|i: int, j: int| 0 <= i < j < r.len() implies due_rank(r[i]) <= due_rank(
            r[j],
        ) by {
            if i > 0 {
                assert(r[i] == t[i - 1] && r[j] == t[j - 1]);
            } else {
                assert(r[j] == t[j - 1]);
                assert(due_rank(s[0]) <= due_rank(t[j - 1])) by {
                    lemma_insert_due_members(x, s.drop_first(), j - 1);
                }
            }
        }
    }
}

/// Every element of an insertion is the inserted task or one of the old
/// ones.
proof fn lemma_insert_due_members(x: Task, s: Seq<Task>, i: int)
    requires
        0 <= i < insert_by_due(x, s).len(),
        insert_by_due(x, s).len() == s.len() + 1,
    ensures
        insert_by_due(x, s)[i] == x || exists|j: int|
            0 <= j < s.len() && insert_by_due(x, s)[i] == s[j],
    decreases s.len(),
{
    if s.len() == 0 {
    } else if due_rank(x) < due_rank(s[0]) {
        if i > 0 {
            assert(insert_by_due(x, s)[i] == s[i - 1]);
        }
    } else {
        if i > 0 {
            lemma_insert_due_len(x, s.drop_first());
            lemma_insert_due_members(x, s.drop_first(), i - 1);
            let t = insert_by_due(x, s.drop_first());
            assert(insert_by_due(x, s)[i] == t[i - 1]);
            if t[i - 1] != x {
                let j = choose|j: int| 0 <= j < s.len() - 1 && t[i - 1] == s.drop_first()[j];
                assert(insert_by_due(x, s)[i] == s[j + 1]);
            }
        } else {
            assert(insert_by_due(x, s)[0] == s[0]);
        }
    }
}

/// Inserting grows the length by one.
proof fn lemma_insert_due_len(x: Task, s: Seq<Task>)
    ensures
        insert_by_due(x, s).len() == s.len() + 1,
    decreases s.len(),
{
    if s.len() > 0 && !(due_rank(x) < due_rank(s[0])) {
        lemma_insert_due_len(x, s.drop_first());
    }
}

/// The sort of any task sequence is sorted and keeps its length.
pub proof fn lemma_sort_due_sorted(s: Seq<Task>)
    ensures
        sorted_by_due(sort_by_due(s)),
        sort_by_due(s).len() == s.len(),
    decreases s.len(),
{
    if s.len() > 0 {
        lemma_sort_due_sorted(s.drop_last());
        lemma_insert_due_sorted(s.last(), sort_by_due(s.drop_last()));
    }
}

/// When every task before position `p` is due no later than `x` and the
/// one at `p` is due strictly later, insertion lands exactly at `p`.
proof fn lemma_insert_due_at(x: Task, s: Seq<Task>, p: int)
    requires
        sorted_by_due(s),
        0 <= p <= s.len(),
        forall|q: int| 0 <= q < p ==> due_rank(s[q]) <= due_rank(x),
        p < s.len() ==> due_rank(s[p]) > due_rank(x),
    ensures
        insert_by_due(x, s) == s.insert(p, x),
    decreases s.len(),
{
    if s.len() == 0 {
        assert(insert_by_due(x, s) =~= s.insert(0, x));
    } else if p == 0 {
        assert(due_rank(x) < due_rank(s[0]));
        assert(seq![x] + s =~= s.insert(0, x));
    } else {
        assert(due_rank(s[0]) <= due_rank(x));
        assert(sorted_by_due(s.drop_first())) by {
            assert(forall|i: int, j: int|
                0 <= i < j < s.len() - 1 ==> due_rank(#[trigger] s.drop_first()[i]) <= due_rank(
                    #[trigger] s.drop_first()[j],
                ));
        }
        assert(forall|q: int|
            0 <= q < p - 1 ==> due_rank(#[trigger] s.drop_first()[q]) <= due_rank(x));
        lemma_insert_due_at(x, s.drop_first(), p - 1);
        assert(seq![s[0]] + s.drop_first().insert(p - 1, x) =~= s.insert(p, x));
    }
}

/// Appending one task to the input inserts it into the sorted output.
proof fn lemma_sort_due_push(s: Seq<Task>, x: Task)
    ensures
        sort_by_due(s.push(x)) == insert_by_due(x, sort_by_due(s)),
{
    assert(s.push(x).drop_last() =~= s);
    assert(s.push(x).last() == x);
}

/// The position in `v` before which a task of due rank `rx` belongs.
fn due_insert_position(v: &Vec<Task>, rx: u64) -> (p: usize)
    requires
        forall|i: int| 0 <= i < v@.len() ==> task_wf(#[trigger] v@[i]),
    ensures
        p <= v@.len(),
        forall|q: int| 0 <= q < p ==> due_rank(v@[q]) <= rx,
        p < v@.len() ==> due_rank(v@[p as int]) > rx,
{
    let n = v.len();
    let mut p: usize = 0;
    while p < n
        invariant
            n == v@.len(),
            p <= n,
            forall|i: int| 0 <= i < v@.len() ==> task_wf(#[trigger] v@[i]),
            forall|q: int| 0 <= q < p ==> due_rank(v@[q]) <= rx,
        decreases n - p,
    {
        if day_number(&v[p].due) > rx {
            return p;
        }
        p = p + 1;
    }
    p
}

/// The task list ordered by due date, earliest first; tasks due the same
/// day keep the order they had. The input is left as it is.
#[verifier::loop_isolation(false)]
pub fn sort_tasks_by_due(tasks: &Vec<Task>) -> (r: Vec<Task>)
    requires
        forall|i: int| 0 <= i < tasks@.len() ==> task_wf(#[trigger] tasks@[i]),
    ensures
        r@ == sort_by_due(tasks@),
        sorted_by_due(r@),
        r@.len() == tasks@.len(),
{
    let mut out: Vec<Task> = Vec::new();
    let n = tasks.len();
    let mut i: usize = 0;
    proof {
        assert(tasks@.take(0) =~= Seq::<Task>::empty());
    }
    while i < n
        invariant
            i <= n,
            out@ == sort_by_due(tasks@.take(i as int)),
            sorted_by_due(out@),
            forall|j: int| 0 <= j < out@.len() ==> task_wf(#[trigger] out@[j]),
        decreases n - i,
    {
        proof {
            assert(tasks@.take(i + 1).drop_last() =~= tasks@.take(i as int));
            assert(tasks@.take(i + 1).last() == tasks@[i as int]);
        }
        let x = tasks[i].clone();
        let rx = day_number(&x.due);
        let p = due_insert_position(&out, rx);
        let ghost old_out = out@;
        out.insert(p, x);
        proof {
            lemma_insert_due_at(x, old_out, p as int);
            lemma_sort_due_push(tasks@.take(i as int), x);
            lemma_sort_due_sorted(tasks@.take(i + 1));
            assert forall|j: int| 0 <= j < out@.len() implies task_wf(#[trigger] out@[j]) by {
                assert(out@ == old_out.insert(p as int, x));
                if j < p {
                    assert(out@[j] == old_out[j]);
                } else if j == p {
                    assert(out@[j] == x);
                } else {
                    assert(out@[j] == old_out[j - 1]);
                }
            }
        }
        i = i + 1;
    }
    proof {
        assert(tasks@.take(n as int) =~= tasks@);
        lemma_sort_due_sorted(tasks@);
    }
    out
}

} // verus!
