//! Decisions of the HTTP handlers: the session cookie set after an
//! upstream login, and the upload size limit.

use vstd::prelude::*;
use vstd::string::StringExecFns;
use crate::chars::{chars_of, string_from_chars, sub_chars};

verus! {

/// Largest accepted EPUB upload: 50 MiB.
pub const EPUB_UPLOAD_LIMIT: usize = 52428800;

/// An upload of `len` bytes is refused.
pub fn upload_too_large(len: usize) -> (r: bool)
    ensures
        r == (len > 50 * 1024 * 1024),
{
    len > EPUB_UPLOAD_LIMIT
}

/// Index of the first `c` in `s` (`s.len()` when there is none).
pub open spec fn first_index(s: Seq<char>, c: char) -> int
    decreases s.len(),
{
    if s.len() == 0 || s[0] == c {
        0
    } else {
        1 + first_index(s.drop_first(), c)
    }
}

/// The value part of a `name=value` cookie pair: the second `=`-separated
/// field, or the whole pair when it has no `=`.
pub open spec fn cookie_value(pair: Seq<char>) -> Seq<char> {
    let i = first_index(pair, '=');
    if i < pair.len() {
        let rest = pair.subrange(i + 1, pair.len() as int);
        rest.take(first_index(rest, '='))
    } else {
        pair
    }
}

/// The `Set-Cookie` value that re-wraps an upstream session cookie pair.
pub open spec fn session_cookie_text(pair: Seq<char>) -> Seq<char> {
    "MF_SESSION_RS="@ + cookie_value(pair) + "; HttpOnly; Path=/"@
}

/// Position of the first `c` in `cs` at or after `lo` (`cs.len()` when
/// there is none).
fn index_from(cs: &Vec<char>, lo: usize, c: char) -> (r: usize)
    requires
        lo <= cs@.len(),
    ensures
        r == lo + first_index(cs@.subrange(lo as int, cs@.len() as int), c),
        lo <= r <= cs@.len(),
{
    let n = cs.len();
    let mut i = lo;
    while i < n && cs[i] != c
        invariant
            lo <= i <= n == cs@.len(),
            first_index(cs@.subrange(lo as int, n as int), c) == (i - lo) + first_index(
                cs@.subrange(i as int, n as int),
                c,
            ),
        decreases n - i,
    {
        assert(cs@.subrange(i as int, n as int).drop_first() =~= cs@.subrange(i + 1, n as int));
        i = i + 1;
    }
    i
}

/// The cookie that carries the upstream session under our own name:
/// `MF_SESSION_RS=<value>; HttpOnly; Path=/`.
pub fn session_cookie(pair: &str) -> (r: String)
    ensures
        r@ == session_cookie_text(pair@),
{
    let cs = chars_of(pair);
    let n = cs.len();
    let i = index_from(&cs, 0, '=');
    assert(cs@.subrange(0, n as int) =~= cs@);
    let value = if i < n {
        let j = index_from(&cs, i + 1, '=');
        let v = sub_chars(&cs, i + 1, j);
        assert(v@ =~= cs@.subrange(i + 1, n as int).take(j - (i + 1)));
        string_from_chars(v.as_slice())
    } else {
        string_from_chars(cs.as_slice())
    };
    let mut r = String::from_str("MF_SESSION_RS=");
    r.append(value.as_str());
    r.append("; HttpOnly; Path=/");
    r
}

} // verus!
