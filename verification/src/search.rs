//! Substring search over character sequences, exact and ASCII
//! case-insensitive.

use vstd::prelude::*;
use crate::sentence::ascii_lower_code;

verus! {

/// `pat` occurs in `s` at position `p`.
pub open spec fn occurs_at(s: Seq<char>, pat: Seq<char>, p: int) -> bool {
    0 <= p && p + pat.len() <= s.len() && s.subrange(p, p + pat.len()) == pat
}

/// First position at or after `p` where `pat` occurs in `s`.
pub open spec fn find_from(s: Seq<char>, pat: Seq<char>, p: int) -> Option<int>
    decreases s.len() + 1 - p,
{
    if p < 0 || p + pat.len() > s.len() {
        None
    } else if occurs_at(s, pat, p) {
        Some(p)
    } else {
        find_from(s, pat, p + 1)
    }
}

/// `pat` occurs in `s` at `p` when ASCII case is ignored in `s`.
pub open spec fn occurs_ci_at(s: Seq<char>, pat: Seq<char>, p: int) -> bool {
    &&& 0 <= p
    &&& p + pat.len() <= s.len()
    &&& forall|k: int|
        0 <= k < pat.len() ==> #[trigger] ascii_lower_code(s[p + k]) == pat[k] as u32
}

/// First position at or after `p` where `pat` occurs in `s`, ignoring
/// ASCII case in `s`.
pub open spec fn find_ci_from(s: Seq<char>, pat: Seq<char>, p: int) -> Option<int>
    decreases s.len() + 1 - p,
{
    if p < 0 || p + pat.len() > s.len() {
        None
    } else if occurs_ci_at(s, pat, p) {
        Some(p)
    } else {
        find_ci_from(s, pat, p + 1)
    }
}

/// `pat` occurs somewhere in `s`, ignoring ASCII case in `s`.
pub open spec fn contains_ci(s: Seq<char>, pat: Seq<char>) -> bool {
    exists|p: int| #[trigger] occurs_ci_at(s, pat, p)
}

/// Whether `pat` occurs in `s` at `p`.
pub fn matches_at(s: &Vec<char>, pat: &Vec<char>, p: usize) -> (r: bool)
    ensures
        r == occurs_at(s@, pat@, p as int),
{
    if p > s.len() || pat.len() > s.len() - p {
        return false;
    }
    let n = s.len();
    let mut k: usize = 0;
    while k < pat.len()
        invariant
            n == s@.len(),
            p + pat@.len() <= s@.len(),
            k <= pat@.len(),
            forall|m: int| 0 <= m < k ==> s@[p + m] == pat@[m],
        decreases pat@.len() - k,
    {
        assert(p + k < n);
        if s[p + k] != pat[k] {
            assert(s@.subrange(p as int, p + pat@.len())[k as int] != pat@[k as int]);
            return false;
        }
        k = k + 1;
    }
    assert(s@.subrange(p as int, p + pat@.len()) =~= pat@);
    true
}

/// Whether `pat` occurs in `s` at `p`, ignoring ASCII case in `s`.
pub fn matches_ci_at(s: &Vec<char>, pat: &Vec<char>, p: usize) -> (r: bool)
    ensures
        r == occurs_ci_at(s@, pat@, p as int),
{
    if p > s.len() || pat.len() > s.len() - p {
        return false;
    }
    let n = s.len();
    let mut k: usize = 0;
    while k < pat.len()
        invariant
            n == s@.len(),
            p + pat@.len() <= s@.len(),
            k <= pat@.len(),
            forall|m: int|
                0 <= m < k ==> #[trigger] ascii_lower_code(s@[p + m]) == pat@[m] as u32,
        decreases pat@.len() - k,
    {
        assert(p + k < n);
        let c = s[p + k];
        let code: u32 = if 'A' <= c && c <= 'Z' {
            (c as u32) + 32
        } else {
            c as u32
        };
        assert(code == ascii_lower_code(c));
        if code != pat[k] as u32 {
            return false;
        }
        k = k + 1;
    }
    true
}

/// First position at or after `p` where `pat` occurs in `s`.
pub fn find(s: &Vec<char>, pat: &Vec<char>, p: usize) -> (r: Option<usize>)
    requires
        p <= s@.len(),
    ensures
        match r {
            Some(q) => find_from(s@, pat@, p as int) == Some(q as int),
            None => find_from(s@, pat@, p as int) is None,
        },
{
    let mut q = p;
    while pat.len() <= s.len() - q
        invariant
            p <= q <= s@.len(),
            find_from(s@, pat@, p as int) == find_from(s@, pat@, q as int),
        decreases s@.len() - q,
    {
        if matches_at(s, pat, q) {
            return Some(q);
        }
        if q == s.len() {
            assert(pat@.len() == 0);
            assert(pat@ =~= s@.subrange(q as int, q as int));
            assert(false);
        }
        q = q + 1;
    }
    None
}

/// First position at or after `p` where `pat` occurs in `s`, ignoring
/// ASCII case in `s`.
pub fn find_ci(s: &Vec<char>, pat: &Vec<char>, p: usize) -> (r: Option<usize>)
    requires
        p <= s@.len(),
    ensures
        match r {
            Some(q) => find_ci_from(s@, pat@, p as int) == Some(q as int),
            None => find_ci_from(s@, pat@, p as int) is None,
        },
{
    let mut q = p;
    while pat.len() <= s.len() - q
        invariant
            p <= q <= s@.len(),
            find_ci_from(s@, pat@, p as int) == find_ci_from(s@, pat@, q as int),
        decreases s@.len() - q,
    {
        if matches_ci_at(s, pat, q) {
            return Some(q);
        }
        if q == s.len() {
            assert(pat@.len() == 0);
            assert(occurs_ci_at(s@, pat@, q as int));
            assert(false);
        }
        q = q + 1;
    }
    None
}

/// A position found by `find_from` lies at or after the start and holds
/// the pattern.
pub proof fn lemma_find_from_some(s: Seq<char>, pat: Seq<char>, p: int)
    requires
        find_from(s, pat, p) is Some,
    ensures
        p <= find_from(s, pat, p)->0,
        occurs_at(s, pat, find_from(s, pat, p)->0),
    decreases s.len() + 1 - p,
{
    if !occurs_at(s, pat, p) {
        lemma_find_from_some(s, pat, p + 1);
    }
}

/// A position found by `find_ci_from` lies at or after the start.
pub proof fn lemma_find_ci_from_ge(s: Seq<char>, pat: Seq<char>, p: int)
    requires
        find_ci_from(s, pat, p) is Some,
    ensures
        p <= find_ci_from(s, pat, p)->0,
        occurs_ci_at(s, pat, find_ci_from(s, pat, p)->0),
    decreases s.len() + 1 - p,
{
    if !occurs_ci_at(s, pat, p) {
        lemma_find_ci_from_ge(s, pat, p + 1);
    }
}

proof fn lemma_find_ci_none(s: Seq<char>, pat: Seq<char>, p: int)
    requires
        0 <= p,
        find_ci_from(s, pat, p) is None,
    ensures
        forall|q: int| p <= q ==> !occurs_ci_at(s, pat, q),
    decreases s.len() - p,
{
    if p + pat.len() <= s.len() {
        lemma_find_ci_none(s, pat, p + 1);
    }
}

proof fn lemma_find_ci_some(s: Seq<char>, pat: Seq<char>, p: int)
    requires
        0 <= p,
        find_ci_from(s, pat, p) is Some,
    ensures
        occurs_ci_at(s, pat, find_ci_from(s, pat, p)->0),
    decreases s.len() - p,
{
    if !occurs_ci_at(s, pat, p) {
        lemma_find_ci_some(s, pat, p + 1);
    }
}

/// Whether `pat` occurs in `s[lo..hi]`, ignoring ASCII case in `s`.
pub fn contains_ci_in(s: &Vec<char>, lo: usize, hi: usize, pat: &Vec<char>) -> (r: bool)
    requires
        lo <= hi <= s@.len(),
    ensures
        r == contains_ci(s@.subrange(lo as int, hi as int), pat@),
{
    let sub = crate::chars::sub_chars(s, lo, hi);
    let r = find_ci(&sub, pat, 0);
    proof {
        match r {
            Some(q) => {
                lemma_find_ci_some(sub@, pat@, 0);
            },
            None => {
                lemma_find_ci_none(sub@, pat@, 0);
                assert forall|q: int| !#[trigger] occurs_ci_at(sub@, pat@, q) by {
                    if q >= 0 {
                    }
                }
            },
        }
    }
    r.is_some()
}

} // verus!
