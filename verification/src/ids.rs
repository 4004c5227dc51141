//! Numbered items and the id discipline shared by tasks and events:
//! a new item takes one more than the largest id present (so the first id
//! handed out is 1), and removal by id takes out the first item bearing
//! the id, swapping the last item into its place.
use crate::agenda::Event;
use crate::tasks::Task;
use vstd::prelude::*;

verus! {

/// An item carrying a numeric id.
pub trait Identified {
    /// The item's id.
    spec fn ident(&self) -> u64;

    /// The item's id.
    fn ident_ex(&self) -> (r: u64)
        ensures
            r == self.ident(),
    ;
}

impl Identified for Task {
    open spec fn ident(&self) -> u64 {
        self.id
    }

    fn ident_ex(&self) -> (r: u64)
        ensures
            r == self.ident(),
    {
        self.id
    }
}

impl Identified for Event {
    open spec fn ident(&self) -> u64 {
        self.id
    }

    fn ident_ex(&self) -> (r: u64)
        ensures
            r == self.ident(),
    {
        self.id
    }
}

/// The largest id among the items of `s`, or zero when `s` is empty.
pub open spec fn max_ident<T: Identified>(s: Seq<T>) -> int
    decreases s.len(),
{
    if s.len() == 0 {
        0
    } else {
        let m = max_ident(s.drop_last());
        if s.last().ident() >= m {
            s.last().ident() as int
        } else {
            m
        }
    }
}

/// The id the next item should take: one more than the largest present.
pub fn next_id<T: Identified>(v: &Vec<T>) -> (r: u64)
    requires
        max_ident(v@) < u64::MAX,
    ensures
        r == max_ident(v@) + 1,
{
    let n = v.len();
    let mut m: u64 = 0;
    let mut i: usize = 0;
    proof {
        assert(v@.take(0) =~= Seq::<T>::empty());
    }
    while i < n
        invariant
            n == v@.len(),
            i <= n,
            m == max_ident(v@.take(i as int)),
            max_ident(v@) < u64::MAX,
        decreases n - i,
    {
        proof {
            assert(v@.take(i + 1).drop_last() =~= v@.take(i as int));
            assert(v@.take(i + 1).last() == v@[i as int]);
            lemma_max_ident_take_bound(v@, i + 1);
        }
        let id = v[i].ident_ex();
        if id > m {
            m = id;
        }
        i = i + 1;
    }
    proof {
        assert(v@.take(n as int) =~= v@);
    }
    m + 1
}

/// The largest id of a prefix never exceeds the largest id of the whole.
proof fn lemma_max_ident_take_bound<T: Identified>(s: Seq<T>, k: int)
    requires
        0 <= k <= s.len(),
    ensures
        max_ident(s.take(k)) <= max_ident(s),
    decreases s.len() - k,
{
    if k < s.len() {
        lemma_max_ident_take_bound(s, k + 1);
        assert(s.take(k + 1).drop_last() =~= s.take(k));
    } else {
        assert(s.take(k) =~= s);
    }
}

/// Removes the first item bearing `id`, swapping the last item into its
/// place, and reports whether one was found.
pub fn remove_by_id<T: Identified>(v: &mut Vec<T>, id: u64) -> (found: bool)
    ensures
        found <==> (exists|j: int|
            0 <= j < old(v)@.len() && (#[trigger] old(v)@[j].ident()) == id),
        found ==> exists|fi: int|
            {
                &&& 0 <= fi < old(v)@.len()
                &&& (#[trigger] old(v)@[fi].ident()) == id
                &&& forall|j: int| 0 <= j < fi ==> old(v)@[j].ident() != id
                &&& final(v)@ == old(v)@.update(fi, old(v)@.last()).drop_last()
            },
        !found ==> final(v)@ == old(v)@,
{
    let n = v.len();
    let mut i: usize = 0;
    while i < n
        invariant
            n == v@.len(),
            i <= n,
            v@ == old(v)@,
            forall|j: int| 0 <= j < i ==> (#[trigger] v@[j].ident()) != id,
        decreases n - i,
    {
        if v[i].ident_ex() == id {
            v.swap_remove(i);
            proof {
                assert(old(v)@[i as int].ident() == id);
            }
            return true;
        }
        i = i + 1;
    }
    false
}

} // verus!
