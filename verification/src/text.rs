//! Character-sequence utilities shared by the parsing operations.
//!
//! All text handling in this crate works over `Vec<char>` values whose model
//! is the `Seq<char>` view of the originating string, so that every operation
//! (search, removal, splitting, joining) has an exact sequence-level
//! specification.
use vstd::prelude::*;

verus! {

/// The characters of `s`, in order.
pub fn str_chars(s: &str) -> (v: Vec<char>)
    ensures
        v@ == s@,
{
    let n = s.unicode_len();
    let mut v: Vec<char> = Vec::new();
    let mut i: usize = 0;
    while i < n
        invariant
            n == s@.len(),
            i <= n,
            v@ == s@.take(i as int),
        decreases n - i,
    {
        let c = s.get_char(i);
        v.push(c);
        proof {
            assert(v@ =~= s@.take(i + 1));
        }
        i = i + 1;
    }
    proof {
        assert(v@ =~= s@);
    }
    v
}

/// Whether `v` holds exactly the characters of `s`.
pub fn chars_eq_str(v: &Vec<char>, s: &str) -> (r: bool)
    ensures
        r == (v@ == s@),
{
    let n = s.unicode_len();
    if v.len() != n {
        return false;
    }
    let mut i: usize = 0;
    while i < n
        invariant
            n == s@.len(),
            v@.len() == n,
            i <= n,
            forall|j: int| 0 <= j < i ==> v@[j] == s@[j],
        decreases n - i,
    {
        if v[i] != s.get_char(i) {
            return false;
        }
        i = i + 1;
    }
    proof {
        assert(v@ =~= s@);
    }
    true
}

/// Whether the pattern `pat` occurs in `s` starting at position `i`.
pub open spec fn occurs_at(s: Seq<char>, pat: Seq<char>, i: int) -> bool {
    0 <= i && i + pat.len() <= s.len() && s.subrange(i, i + pat.len()) == pat
}

/// Whether `pat` occurs anywhere in `s`.
pub open spec fn contains_sub(s: Seq<char>, pat: Seq<char>) -> bool {
    exists|i: int| occurs_at(s, pat, i)
}

/// Whether the characters of `pat` occur as a contiguous run inside `v`.
pub fn contains_sub_ex(v: &Vec<char>, pat: &str) -> (r: bool)
    ensures
        r == contains_sub(v@, pat@),
{
    let n = v.len();
    let m = pat.unicode_len();
    if m > n {
        proof {
            assert(forall|i: int| !occurs_at(v@, pat@, i));
        }
        return false;
    }
    if m == 0 {
        proof {
            assert(v@.subrange(0, 0) =~= pat@);
            assert(occurs_at(v@, pat@, 0));
        }
        return true;
    }
    let mut i: usize = 0;
    while i <= n - m
        invariant
            m == pat@.len(),
            n == v@.len(),
            1 <= m <= n,
            i <= n - m + 1,
            forall|k: int| 0 <= k < i ==> !occurs_at(v@, pat@, k),
        decreases n + 1 - m - i,
    {
        let mut j: usize = 0;
        let mut mismatch = false;
        while j < m
            invariant
                m == pat@.len(),
                n == v@.len(),
                i + m <= n,
                j <= m,
                !mismatch ==> forall|l: int| 0 <= l < j ==> v@[i + l] == pat@[l],
                mismatch ==> !occurs_at(v@, pat@, i as int),
            decreases m - j,
        {
            if v[i + j] != pat.get_char(j) {
                proof {
                    if occurs_at(v@, pat@, i as int) {
                        assert(v@.subrange(i as int, i + pat@.len())[j as int] == pat@[j as int]);
                    }
                }
                mismatch = true;
                j = m;
            } else {
                j = j + 1;
            }
        }
        if !mismatch {
            proof {
                assert(v@.subrange(i as int, i + pat@.len()) =~= pat@);
                assert(occurs_at(v@, pat@, i as int));
            }
            return true;
        }
        i = i + 1;
    }
    proof {
        assert(forall|k: int| i <= k ==> !occurs_at(v@, pat@, k));
    }
    false
}

/// Whether the characters of `pat` stand in `v` at position `i`.
pub fn match_at(v: &Vec<char>, pat: &str, i: usize) -> (r: bool)
    requires
        i <= v@.len(),
    ensures
        r == occurs_at(v@, pat@, i as int),
{
    let m = pat.unicode_len();
    let n = v.len();
    if m > n - i {
        return false;
    }
    let mut j: usize = 0;
    while j < m
        invariant
            m == pat@.len(),
            n == v@.len(),
            i + m <= n,
            j <= m,
            forall|l: int| 0 <= l < j ==> v@[i + l] == pat@[l],
        decreases m - j,
    {
        if v[i + j] != pat.get_char(j) {
            proof {
                if occurs_at(v@, pat@, i as int) {
                    assert(v@.subrange(i as int, i + pat@.len())[j as int] == pat@[j as int]);
                }
            }
            return false;
        }
        j = j + 1;
    }
    proof {
        assert(v@.subrange(i as int, i + pat@.len()) =~= pat@);
        assert(occurs_at(v@, pat@, i as int));
    }
    true
}

/// `s` with every occurrence of `pat` removed, scanning left to right and
/// never rescanning text that an earlier removal exposed.
pub open spec fn remove_all(s: Seq<char>, pat: Seq<char>) -> Seq<char>
    decreases s.len(),
{
    if pat.len() == 0 || s.len() < pat.len() {
        s
    } else if s.subrange(0, pat.len() as int) == pat {
        remove_all(s.skip(pat.len() as int), pat)
    } else {
        seq![s[0]] + remove_all(s.skip(1), pat)
    }
}

/// `v` with every occurrence of `pat` removed.
pub fn remove_all_ex(v: &Vec<char>, pat: &str) -> (out: Vec<char>)
    requires
        pat@.len() >= 1,
    ensures
        out@ == remove_all(v@, pat@),
{
    let m = pat.unicode_len();
    let n = v.len();
    let mut out: Vec<char> = Vec::new();
    let mut i: usize = 0;
    proof {
        assert(v@.skip(0) =~= v@);
        assert(out@ + remove_all(v@, pat@) =~= remove_all(v@, pat@));
    }
    while i < n
        invariant
            m == pat@.len(),
            1 <= m,
            n == v@.len(),
            i <= n,
            remove_all(v@, pat@) == out@ + remove_all(v@.skip(i as int), pat@),
        decreases n - i,
    {
        if match_at(v, pat, i) {
            proof {
                let rest = v@.skip(i as int);
                assert(rest.subrange(0, m as int) =~= v@.subrange(i as int, i + m));
                assert(rest.skip(m as int) =~= v@.skip(i + m));
                assert(remove_all(rest, pat@) == remove_all(v@.skip(i + m), pat@));
            }
            i = i + m;
        } else {
            proof {
                let rest = v@.skip(i as int);
                if rest.len() >= m {
                    assert(rest.subrange(0, m as int) =~= v@.subrange(i as int, i + m));
                    assert(rest.subrange(0, m as int) != pat@);
                }
                assert(rest.skip(1) =~= v@.skip(i + 1));
                assert(rest[0] == v@[i as int]);
                assert(remove_all(rest, pat@) == seq![v@[i as int]] + remove_all(
                    v@.skip(i + 1),
                    pat@,
                ));
                assert(out@ + remove_all(rest, pat@) =~= out@.push(v@[i as int]) + remove_all(
                    v@.skip(i + 1),
                    pat@,
                ));
            }
            let c = v[i];
            out.push(c);
            i = i + 1;
        }
    }
    proof {
        assert(v@.skip(n as int) =~= Seq::<char>::empty());
        assert(out@ + remove_all(Seq::<char>::empty(), pat@) =~= out@);
    }
    out
}

/// `s` divided at every occurrence of the separator `sep`; empty pieces
/// are kept, so the result always holds one more piece than `s` holds
/// separators.
pub open spec fn split_sep(s: Seq<char>, sep: char) -> Seq<Seq<char>>
    decreases s.len(),
{
    if s.len() == 0 {
        seq![Seq::<char>::empty()]
    } else if s[0] == sep {
        seq![Seq::<char>::empty()] + split_sep(s.drop_first(), sep)
    } else {
        let r = split_sep(s.drop_first(), sep);
        seq![seq![s[0]] + r[0]] + r.skip(1)
    }
}

/// A separator-free piece is returned whole.
proof fn lemma_split_no_sep(w: Seq<char>, sep: char)
    requires
        forall|j: int| 0 <= j < w.len() ==> w[j] != sep,
    ensures
        split_sep(w, sep) == seq![w],
    decreases w.len(),
{
    if w.len() == 0 {
        assert(w =~= Seq::<char>::empty());
        assert(split_sep(w, sep) == seq![Seq::<char>::empty()]);
        assert(split_sep(w, sep) =~= seq![w]);
    } else {
        lemma_split_no_sep(w.drop_first(), sep);
        let r = split_sep(w.drop_first(), sep);
        assert(r == seq![w.drop_first()]);
        assert(r[0] == w.drop_first());
        assert(seq![w[0]] + r[0] =~= w);
        assert(r.skip(1) =~= Seq::<Seq<char>>::empty());
        assert(split_sep(w, sep) == seq![seq![w[0]] + r[0]] + r.skip(1));
        assert(seq![seq![w[0]] + r[0]] + r.skip(1) =~= seq![w]);
    }
}

/// Splitting a text that starts with the separator-free piece `w`, then the
/// separator, then `tail`, yields `w` and then the pieces of `tail`.
proof fn lemma_split_at_sep(w: Seq<char>, tail: Seq<char>, sep: char)
    requires
        forall|j: int| 0 <= j < w.len() ==> w[j] != sep,
    ensures
        split_sep(w + seq![sep] + tail, sep) == seq![w] + split_sep(tail, sep),
    decreases w.len(),
{
    let s = w + seq![sep] + tail;
    if w.len() == 0 {
        assert(w =~= Seq::<char>::empty());
        assert(s =~= seq![sep] + tail);
        assert(s.drop_first() =~= tail);
        assert(split_sep(s, sep) == seq![Seq::<char>::empty()] + split_sep(tail, sep));
        assert(split_sep(s, sep) =~= seq![w] + split_sep(tail, sep));
    } else {
        lemma_split_at_sep(w.drop_first(), tail, sep);
        assert(s.drop_first() =~= w.drop_first() + seq![sep] + tail);
        let r = split_sep(s.drop_first(), sep);
        assert(r == seq![w.drop_first()] + split_sep(tail, sep));
        assert(r[0] == w.drop_first());
        assert(s[0] == w[0]);
        assert(seq![s[0]] + r[0] =~= w);
        assert(r.skip(1) =~= split_sep(tail, sep));
        assert(split_sep(s, sep) == seq![seq![s[0]] + r[0]] + r.skip(1));
        assert(seq![seq![s[0]] + r[0]] + r.skip(1) =~= seq![w] + split_sep(tail, sep));
    }
}

/// The pieces of `v` between occurrences of `sep`, empty pieces kept.
pub fn split_sep_ex(v: &Vec<char>, sep: char) -> (out: Vec<Vec<char>>)
    ensures
        out.deep_view() == split_sep(v@, sep),
{
    let n = v.len();
    let mut out: Vec<Vec<char>> = Vec::new();
    let mut cur: Vec<char> = Vec::new();
    let mut i: usize = 0;
    proof {
        assert(cur@ + v@.skip(0) =~= v@);
        assert(out.deep_view() + split_sep(v@, sep) =~= split_sep(v@, sep));
    }
    while i < n
        invariant
            n == v@.len(),
            i <= n,
            forall|j: int| 0 <= j < cur@.len() ==> cur@[j] != sep,
            split_sep(v@, sep) == out.deep_view() + split_sep(cur@ + v@.skip(i as int), sep),
        decreases n - i,
    {
        let c = v[i];
        if c == sep {
            let ghost old_dv = out.deep_view();
            proof {
                assert(cur@ + v@.skip(i as int) =~= cur@ + seq![sep] + v@.skip(i + 1));
                lemma_split_at_sep(cur@, v@.skip(i + 1), sep);
            }
            let ghost finished_view = cur@;
            let finished = cur;
            out.push(finished);
            cur = Vec::new();
            proof {
                assert(out.deep_view() =~~= old_dv.push(finished_view));
                assert(old_dv.push(finished_view) =~= old_dv + seq![finished_view]);
                assert((old_dv + seq![finished_view]) + split_sep(v@.skip(i + 1), sep) =~= old_dv
                    + (seq![finished_view] + split_sep(v@.skip(i + 1), sep)));
                assert(cur@ + v@.skip(i + 1) =~= v@.skip(i + 1));
            }
        } else {
            proof {
                assert(cur@.push(c) + v@.skip(i + 1) =~= cur@ + v@.skip(i as int));
            }
            cur.push(c);
        }
        i = i + 1;
    }
    let ghost old_dv = out.deep_view();
    let ghost last_word = cur@;
    proof {
        assert(cur@ + v@.skip(n as int) =~= cur@);
        lemma_split_no_sep(cur@, sep);
    }
    out.push(cur);
    proof {
        assert(out.deep_view() =~~= old_dv.push(last_word));
        assert(old_dv.push(last_word) =~= old_dv + seq![last_word]);
        assert(out.deep_view() =~= split_sep(v@, sep));
    }
    out
}

/// The words of `s`: the maximal space-free nonempty runs, in order.
pub open spec fn split_words(s: Seq<char>) -> Seq<Seq<char>> {
    split_sep(s, ' ').filter(|w: Seq<char>| w.len() > 0)
}

/// The words of `v`, dropping every empty piece between repeated spaces.
pub fn split_words_ex(v: &Vec<char>) -> (out: Vec<Vec<char>>)
    ensures
        out.deep_view() == split_words(v@),
{
    let pieces = split_sep_ex(v, ' ');
    let mut out: Vec<Vec<char>> = Vec::new();
    let mut k: usize = 0;
    let n = pieces.len();
    proof {
        assert(pieces.deep_view().take(0) =~= Seq::<Seq<char>>::empty());
        assert(Seq::<Seq<char>>::empty().filter(|w: Seq<char>| w.len() > 0)
            =~= Seq::<Seq<char>>::empty());
        assert(out.deep_view() =~= Seq::<Seq<char>>::empty());
    }
    while k < n
        invariant
            n == pieces@.len(),
            k <= n,
            pieces.deep_view().len() == n,
            pieces.deep_view() == split_sep(v@, ' '),
            out.deep_view() == pieces.deep_view().take(k as int).filter(
                |w: Seq<char>| w.len() > 0,
            ),
        decreases n - k,
    {
        let ghost pred = |w: Seq<char>| w.len() > 0;
        proof {
            let pre = pieces.deep_view().take(k as int);
            let ext = pieces.deep_view().take(k + 1);
            assert(ext.drop_last() =~= pre);
            assert(ext.last() == pieces.deep_view()[k as int]);
            reveal(Seq::filter);
            assert(ext.filter(pred) == if pred(pieces.deep_view()[k as int]) {
                pre.filter(pred).push(pieces.deep_view()[k as int])
            } else {
                pre.filter(pred)
            });
        }
        if pieces[k].len() > 0 {
            let ghost before = out.deep_view();
            let w = &pieces[k];
            let mut copied: Vec<char> = Vec::new();
            let mut j: usize = 0;
            while j < w.len()
                invariant
                    j <= w@.len(),
                    copied@ == w@.take(j as int),
                decreases w@.len() - j,
            {
                copied.push(w[j]);
                proof {
                    assert(copied@ =~= w@.take(j + 1));
                }
                j = j + 1;
            }
            proof {
                assert(copied@ =~= w@);
                assert(pieces.deep_view()[k as int] =~= w@);
            }
            out.push(copied);
            proof {
                assert(out.deep_view() =~~= before.push(pieces.deep_view()[k as int]));
            }
        }
        k = k + 1;
    }
    proof {
        assert(pieces.deep_view().take(n as int) =~= pieces.deep_view());
    }
    out
}

/// The words of `ws` joined by single spaces.
pub open spec fn join_words(ws: Seq<Seq<char>>) -> Seq<char>
    decreases ws.len(),
{
    if ws.len() == 0 {
        Seq::<char>::empty()
    } else if ws.len() == 1 {
        ws[0]
    } else {
        ws[0] + seq![' '] + join_words(ws.drop_first())
    }
}

/// Joining one more word appends a space and then that word, unless
/// nothing was joined yet.
proof fn lemma_join_push(ws: Seq<Seq<char>>, w: Seq<char>)
    ensures
        join_words(ws.push(w)) == if ws.len() == 0 {
            w
        } else {
            join_words(ws) + seq![' '] + w
        },
    decreases ws.len(),
{
    if ws.len() == 0 {
        assert(ws.push(w)[0] == w);
    } else {
        lemma_join_push(ws.drop_first(), w);
        assert(ws.push(w).drop_first() =~= ws.drop_first().push(w));
        if ws.len() == 1 {
            assert(join_words(ws.push(w)) =~= join_words(ws) + seq![' '] + w);
        } else {
            assert(ws.push(w)[0] == ws[0]);
            assert(join_words(ws.push(w)) =~= join_words(ws) + seq![' '] + w);
        }
    }
}

/// The words of `ws` joined by single spaces.
pub fn join_words_ex(ws: &Vec<Vec<char>>) -> (out: Vec<char>)
    ensures
        out@ == join_words(ws.deep_view()),
{
    let n = ws.len();
    let mut out: Vec<char> = Vec::new();
    let mut k: usize = 0;
    proof {
        assert(ws.deep_view().take(0) =~= Seq::<Seq<char>>::empty());
    }
    while k < n
        invariant
            n == ws@.len(),
            ws.deep_view().len() == n,
            k <= n,
            out@ == join_words(ws.deep_view().take(k as int)),
        decreases n - k,
    {
        proof {
            let pre = ws.deep_view().take(k as int);
            let ext = ws.deep_view().take(k + 1);
            assert(ext =~= pre.push(ws.deep_view()[k as int]));
            lemma_join_push(pre, ws.deep_view()[k as int]);
        }
        if k > 0 {
            out.push(' ');
        }
        let ghost mark = out@;
        let w = &ws[k];
        proof {
            assert(ws.deep_view()[k as int] =~= w@);
        }
        let mut j: usize = 0;
        while j < w.len()
            invariant
                j <= w@.len(),
                out@ == mark + w@.take(j as int),
            decreases w@.len() - j,
        {
            out.push(w[j]);
            proof {
                assert(mark + w@.take(j + 1) =~= (mark + w@.take(j as int)).push(w@[j as int]));
            }
            j = j + 1;
        }
        proof {
            assert(mark + w@.take(w@.len() as int) =~= mark + w@);
            assert(out@ =~= join_words(ws.deep_view().take(k + 1)));
        }
        k = k + 1;
    }
    proof {
        assert(ws.deep_view().take(n as int) =~= ws.deep_view());
    }
    out
}

/// Relies on `String: FromIterator<char>` (`collect`): collecting characters
/// yields the string of exactly those characters, in order.
#[verifier::external_body]
pub fn string_from_chars(v: &Vec<char>) -> (s: String)
    ensures
        s@ == v@,
{
    v.iter().collect()
}

/// A fresh vector holding the same characters as `v`.
pub fn copy_chars(v: &Vec<char>) -> (out: Vec<char>)
    ensures
        out@ == v@,
{
    let n = v.len();
    let mut out: Vec<char> = Vec::new();
    let mut i: usize = 0;
    while i < n
        invariant
            n == v@.len(),
            i <= n,
            out@ == v@.take(i as int),
        decreases n - i,
    {
        out.push(v[i]);
        proof {
            assert(out@ =~= v@.take(i + 1));
        }
        i = i + 1;
    }
    proof {
        assert(out@ =~= v@);
    }
    out
}

/// The position of the first occurrence of `c` in `v`, or the length of
/// `v` when `c` does not occur.
pub fn find_char_ex(v: &Vec<char>, c: char) -> (i: usize)
    ensures
        i <= v@.len(),
        forall|j: int| 0 <= j < i ==> v@[j] != c,
        i < v@.len() ==> v@[i as int] == c,
{
    let n = v.len();
    let mut i: usize = 0;
    while i < n
        invariant
            n == v@.len(),
            i <= n,
            forall|j: int| 0 <= j < i ==> v@[j] != c,
        decreases n - i,
    {
        if v[i] == c {
            return i;
        }
        i = i + 1;
    }
    i
}

/// Whether `c` is a decimal digit.
pub open spec fn is_digit(c: char) -> bool {
    '0' <= c && c <= '9'
}

/// Whether every character of `s` is a decimal digit.
pub open spec fn all_digits(s: Seq<char>) -> bool {
    forall|i: int| 0 <= i < s.len() ==> is_digit(#[trigger] s[i])
}

/// The number written by the decimal digits `s`, most significant first.
pub open spec fn digits_val(s: Seq<char>) -> int
    decreases s.len(),
{
    if s.len() == 0 {
        0
    } else {
        digits_val(s.drop_last()) * 10 + (s.last() as int - '0' as int)
    }
}

/// Reads the digit run `v[start..end]` as a number, clamped to `cap`.
/// Returns `None` when the run is empty or holds a non-digit.
pub fn digits_value_capped(v: &Vec<char>, start: usize, end: usize, cap: u32) -> (r: Option<u32>)
    requires
        start <= end <= v@.len(),
        1 <= cap <= 10000,
    ensures
        r is Some <==> (end > start && all_digits(v@.subrange(start as int, end as int))),
        r is Some ==> {
            let full = digits_val(v@.subrange(start as int, end as int));
            r->0 == if full >= cap {
                cap as int
            } else {
                full
            }
        },
{
    if start == end {
        return None;
    }
    let ghost whole = v@.subrange(start as int, end as int);
    let mut val: u32 = 0;
    let mut i: usize = start;
    while i < end
        invariant
            start <= i <= end <= v@.len(),
            1 <= cap <= 10000,
            whole == v@.subrange(start as int, end as int),
            all_digits(v@.subrange(start as int, i as int)),
            0 <= val <= cap,
            digits_val(v@.subrange(start as int, i as int)) >= cap <==> val == cap,
            digits_val(v@.subrange(start as int, i as int)) < cap ==> val == digits_val(
                v@.subrange(start as int, i as int),
            ),
        decreases end - i,
    {
        let c = v[i];
        if c < '0' || c > '9' {
            proof {
                assert(whole[i - start] == c);
            }
            return None;
        }
        let d = (c as u32) - 48;
        proof {
            let pre = v@.subrange(start as int, i as int);
            let cur = v@.subrange(start as int, i + 1);
            assert(cur.drop_last() =~= pre);
            assert(cur.last() == c);
            assert(digits_val(cur) == digits_val(pre) * 10 + d);
            if digits_val(pre) >= cap {
                assert(digits_val(pre) * 10 + d >= digits_val(pre)) by (nonlinear_arith)
                    requires digits_val(pre) >= 0, d >= 0;
            }
        }
        if val >= cap {
            val = cap;
        } else {
            let next = val * 10 + d;
            val = if next >= cap {
                cap
            } else {
                next
            };
        }
        i = i + 1;
    }
    proof {
        assert(v@.subrange(start as int, end as int) == whole);
    }
    Some(val)
}

} // verus!
