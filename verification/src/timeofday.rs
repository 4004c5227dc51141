//! Twelve-hour clock times and their ordering.
//!
//! A [`TimeOfDay`] is parsed from strings shaped like `8:05am` or `12:30PM`:
//! digits, a colon, digits, and a case-insensitive `am`/`pm` suffix. The
//! ordering places every morning time before every afternoon time and treats
//! hour 12 as the start of its half of the day, so `12:30am` sorts before
//! `1:00am` and `12:30pm` before `1:00pm`.
use crate::text::{all_digits, digits_val, digits_value_capped, find_char_ex, is_digit, str_chars};
use crate::ParseError;
use vstd::prelude::*;

verus! {

/// The half of the day a twelve-hour time belongs to.
#[derive(Clone, Copy, Debug, PartialEq, Eq, Structural)]
pub enum Meridiem {
    Am,
    Pm,
}

/// A time of day on the twelve-hour clock.
#[derive(Clone, Copy, Debug, PartialEq, Eq, Structural)]
pub struct TimeOfDay {
    pub hour: u32,
    pub minute: u32,
    pub meridiem: Meridiem,
}

/// A well-formed time: hour on the twelve-hour dial, minute under an hour.
pub open spec fn time_wf(t: TimeOfDay) -> bool {
    1 <= t.hour <= 12 && t.minute <= 59
}

/// The position of `t` within one day's ordering: minutes from the start
/// of its half-day, plus 720 for the afternoon block, with hour 12
/// counted as the start of its block.
pub open spec fn time_rank(t: TimeOfDay) -> int {
    (if t.meridiem == Meridiem::Pm {
        720int
    } else {
        0int
    }) + (t.hour % 12) * 60 + t.minute
}

/// The position of `t` within one day's ordering.
pub fn time_rank_ex(t: &TimeOfDay) -> (r: u32)
    requires
        time_wf(*t),
    ensures
        r == time_rank(*t),
        r < 1440,
{
    let block: u32 = if matches!(t.meridiem, Meridiem::Pm) {
        720
    } else {
        0
    };
    block + (t.hour % 12) * 60 + t.minute
}

/// Whether `a` comes no later than `b` in the day's ordering.
pub fn time_le(a: &TimeOfDay, b: &TimeOfDay) -> (r: bool)
    requires
        time_wf(*a),
        time_wf(*b),
    ensures
        r == (time_rank(*a) <= time_rank(*b)),
{
    time_rank_ex(a) <= time_rank_ex(b)
}

/// Whether the meridiem suffix characters `c1`, `c2` spell `m`, ignoring case.
pub open spec fn is_meridiem_suffix(c1: char, c2: char, m: Meridiem) -> bool {
    &&& (c2 == 'm' || c2 == 'M')
    &&& match m {
        Meridiem::Am => c1 == 'a' || c1 == 'A',
        Meridiem::Pm => c1 == 'p' || c1 == 'P',
    }
}

/// Whether `s` writes the time `t`: `hn` hour digits, a colon, `mn` minute
/// digits, and a two-character meridiem suffix.
pub open spec fn is_time_repr_parts(s: Seq<char>, t: TimeOfDay, hn: int, mn: int) -> bool {
    &&& 1 <= hn
    &&& 1 <= mn
    &&& s.len() == hn + 1 + mn + 2
    &&& all_digits(s.subrange(0, hn))
    &&& s[hn] == ':'
    &&& all_digits(s.subrange(hn + 1, hn + 1 + mn))
    &&& digits_val(s.subrange(0, hn)) == t.hour
    &&& digits_val(s.subrange(hn + 1, hn + 1 + mn)) == t.minute
    &&& is_meridiem_suffix(s[s.len() - 2], s[s.len() - 1], t.meridiem)
}

/// Whether `s` writes the time `t` for some split into hour and minute digits.
pub open spec fn is_time_repr(s: Seq<char>, t: TimeOfDay) -> bool {
    exists|hn: int, mn: int| is_time_repr_parts(s, t, hn, mn)
}

/// In a representation, the hour digits reach exactly to the first colon.
proof fn lemma_repr_hour_len(s: Seq<char>, t: TimeOfDay, hn: int, mn: int, ci: int)
    requires
        is_time_repr_parts(s, t, hn, mn),
        0 <= ci < s.len(),
        s[ci] == ':',
        forall|j: int| 0 <= j < ci ==> s[j] != ':',
    ensures
        hn == ci,
{
    if hn < ci {
        assert(s[hn] == ':');
    } else if hn > ci {
        assert(s.subrange(0, hn)[ci] == s[ci]);
    }
}

/// A string writes at most one time, so the contract of [`parse_time`]
/// determines its result completely.
pub proof fn lemma_time_repr_unique(s: Seq<char>, t1: TimeOfDay, t2: TimeOfDay)
    requires
        is_time_repr(s, t1),
        is_time_repr(s, t2),
    ensures
        t1 == t2,
{
    let (hn1, mn1): (int, int) = choose|hn: int, mn: int| is_time_repr_parts(s, t1, hn, mn);
    let (hn2, mn2): (int, int) = choose|hn: int, mn: int| is_time_repr_parts(s, t2, hn, mn);
    if hn1 < hn2 {
        assert(s.subrange(0, hn2)[hn1] == s[hn1]);
        assert(is_digit(s[hn1]));
    } else if hn2 < hn1 {
        assert(s.subrange(0, hn1)[hn2] == s[hn2]);
        assert(is_digit(s[hn2]));
    }
    assert(hn1 == hn2 && mn1 == mn2);
    assert(t1.hour == t2.hour && t1.minute == t2.minute);
    assert(t1.meridiem == t2.meridiem);
}

/// Parses a twelve-hour clock string such as `8:05am`.
///
/// Succeeds exactly on the strings that write some well-formed time:
/// hour digits reading 1 to 12, a colon, minute digits reading 0 to 59,
/// and `am` or `pm` in any letter case.
pub fn parse_time(s: &str) -> (r: Result<TimeOfDay, ParseError>)
    ensures
        r is Ok ==> time_wf(r->Ok_0) && is_time_repr(s@, r->Ok_0),
        r is Err ==> r->Err_0 == ParseError::InvalidTime,
        r is Err ==> forall|t: TimeOfDay| time_wf(t) ==> !is_time_repr(s@, t),
        (exists|t: TimeOfDay| time_wf(t) && is_time_repr(s@, t)) ==> r is Ok,
{
    let v = str_chars(s);
    let n = v.len();
    let ci = find_char_ex(&v, ':');
    if ci >= n {
        proof {
            assert forall|t: TimeOfDay| time_wf(t) implies !is_time_repr(s@, t) by {
                if is_time_repr(s@, t) {
                    let (hn, mn): (int, int) = choose|hn: int, mn: int|
                        is_time_repr_parts(s@, t, hn, mn);
                    assert(s@[hn] == ':');
                }
            }
        }
        return Err(ParseError::InvalidTime);
    }
    let hour_val = digits_value_capped(&v, 0, ci, 13);
    let h = match hour_val {
        None => {
            proof {
                assert forall|t: TimeOfDay| time_wf(t) implies !is_time_repr(s@, t) by {
                    if is_time_repr(s@, t) {
                        let (hn, mn): (int, int) = choose|hn: int, mn: int|
                            is_time_repr_parts(s@, t, hn, mn);
                        lemma_repr_hour_len(s@, t, hn, mn, ci as int);
                    }
                }
            }
            return Err(ParseError::InvalidTime);
        },
        Some(h) => h,
    };
    if h < 1 || h > 12 {
        proof {
            assert forall|t: TimeOfDay| time_wf(t) implies !is_time_repr(s@, t) by {
                if is_time_repr(s@, t) {
                    let (hn, mn): (int, int) = choose|hn: int, mn: int|
                        is_time_repr_parts(s@, t, hn, mn);
                    lemma_repr_hour_len(s@, t, hn, mn, ci as int);
                }
            }
        }
        return Err(ParseError::InvalidTime);
    }
    if n - ci < 4 {
        proof {
            assert forall|t: TimeOfDay| time_wf(t) implies !is_time_repr(s@, t) by {
                if is_time_repr(s@, t) {
                    let (hn, mn): (int, int) = choose|hn: int, mn: int|
                        is_time_repr_parts(s@, t, hn, mn);
                    lemma_repr_hour_len(s@, t, hn, mn, ci as int);
                }
            }
        }
        return Err(ParseError::InvalidTime);
    }
    let c2 = v[n - 1];
    let c1 = v[n - 2];
    if c2 != 'm' && c2 != 'M' {
        proof {
            assert forall|t: TimeOfDay| time_wf(t) implies !is_time_repr(s@, t) by {
                if is_time_repr(s@, t) {
                    let (hn, mn): (int, int) = choose|hn: int, mn: int|
                        is_time_repr_parts(s@, t, hn, mn);
                }
            }
        }
        return Err(ParseError::InvalidTime);
    }
    let meridiem = if c1 == 'a' || c1 == 'A' {
        Meridiem::Am
    } else if c1 == 'p' || c1 == 'P' {
        Meridiem::Pm
    } else {
        proof {
            assert forall|t: TimeOfDay| time_wf(t) implies !is_time_repr(s@, t) by {
                if is_time_repr(s@, t) {
                    let (hn, mn): (int, int) = choose|hn: int, mn: int|
                        is_time_repr_parts(s@, t, hn, mn);
                }
            }
        }
        return Err(ParseError::InvalidTime);
    };
    let minute_val = digits_value_capped(&v, ci + 1, n - 2, 60);
    let m = match minute_val {
        None => {
            proof {
                assert forall|t: TimeOfDay| time_wf(t) implies !is_time_repr(s@, t) by {
                    if is_time_repr(s@, t) {
                        let (hn, mn): (int, int) = choose|hn: int, mn: int|
                            is_time_repr_parts(s@, t, hn, mn);
                        lemma_repr_hour_len(s@, t, hn, mn, ci as int);
                        assert(s@.subrange(hn + 1, hn + 1 + mn) == s@.subrange(
                            ci + 1,
                            n - 2,
                        ));
                    }
                }
            }
            return Err(ParseError::InvalidTime);
        },
        Some(m) => m,
    };
    if m > 59 {
        proof {
            assert forall|t: TimeOfDay| time_wf(t) implies !is_time_repr(s@, t) by {
                if is_time_repr(s@, t) {
                    let (hn, mn): (int, int) = choose|hn: int, mn: int|
                        is_time_repr_parts(s@, t, hn, mn);
                    lemma_repr_hour_len(s@, t, hn, mn, ci as int);
                    assert(s@.subrange(hn + 1, hn + 1 + mn) == s@.subrange(ci + 1, n - 2));
                }
            }
        }
        return Err(ParseError::InvalidTime);
    }
    let t = TimeOfDay { hour: h, minute: m, meridiem };
    proof {
        assert(is_time_repr_parts(s@, t, ci as int, n - ci - 3));
    }
    Ok(t)
}

} // verus!
