//! Upload helpers: filesystem-safe names for user-supplied filenames and
//! the on-disk path of a stored upload.

use vstd::prelude::*;
use crate::chars::{chars_of, string_from_chars};

verus! {

/// Path separators recognised in uploaded filenames.
pub open spec fn is_path_sep(c: char) -> bool {
    c == '/' || c == '\\'
}

/// Unicode general category Cc: U+0000–U+001F and U+007F–U+009F.
pub open spec fn control_char(c: char) -> bool {
    (c as u32) <= 0x1F || (0x7F <= (c as u32) && (c as u32) <= 0x9F)
}

/// Whether `c` is a control code in the sense of `control_char`.
fn is_control(c: char) -> (r: bool)
    ensures
        r == control_char(c),
{
    let v = c as u32;
    v <= 0x1F || (0x7F <= v && v <= 0x9F)
}

/// Index of the last path separator in `s`, or -1.
pub open spec fn last_sep(s: Seq<char>) -> int
    decreases s.len(),
{
    if s.len() == 0 {
        -1
    } else if is_path_sep(s.last()) {
        s.len() - 1
    } else {
        last_sep(s.drop_last())
    }
}

/// A component that names nothing: empty or `.`.
pub open spec fn empty_component(c: Seq<char>) -> bool {
    c.len() == 0 || (c.len() == 1 && c[0] == '.')
}

/// The last path component of `s` that is neither empty nor `.`, or the
/// empty sequence when there is none.
pub open spec fn basename(s: Seq<char>) -> Seq<char>
    decreases s.len(),
{
    let k = last_sep(s);
    let comp = s.subrange(k + 1, s.len() as int);
    if !empty_component(comp) {
        comp
    } else if k < 0 || k >= s.len() {
        Seq::empty()
    } else {
        basename(s.subrange(0, k))
    }
}

/// `s` with control characters and path separators replaced by `_`.
pub open spec fn sanitize_chars(s: Seq<char>) -> Seq<char> {
    s.map_values(|c: char| if control_char(c) || is_path_sep(c) { '_' } else { c })
}

/// `s` with each `..` replaced by `_`, scanning left to right.
pub open spec fn replace_dotdot(s: Seq<char>) -> Seq<char>
    decreases s.len(),
{
    if s.len() >= 2 && s[0] == '.' && s[1] == '.' {
        seq!['_'] + replace_dotdot(s.subrange(2, s.len() as int))
    } else if s.len() == 0 {
        s
    } else {
        seq![s[0]] + replace_dotdot(s.drop_first())
    }
}

/// `s` without its leading `.` and `_` characters.
pub open spec fn strip_leading_dots(s: Seq<char>) -> Seq<char>
    decreases s.len(),
{
    if s.len() > 0 && (s[0] == '.' || s[0] == '_') {
        strip_leading_dots(s.drop_first())
    } else {
        s
    }
}

/// The safe name for `file_name`: the basename, with control characters
/// replaced, `..` collapsed to `_`, leading `.`/`_` removed, and `unnamed`
/// when nothing is left.
pub open spec fn safe_name(file_name: Seq<char>) -> Seq<char> {
    let s = strip_leading_dots(replace_dotdot(sanitize_chars(basename(file_name))));
    if s.len() == 0 {
        "unnamed"@
    } else {
        s
    }
}

/// Index of the last path separator in `cs[..hi]`, or `None`.
fn last_sep_in(cs: &Vec<char>, hi: usize) -> (r: Option<usize>)
    requires
        hi <= cs@.len(),
    ensures
        match r {
            Some(k) => k < hi && last_sep(cs@.take(hi as int)) == k,
            None => last_sep(cs@.take(hi as int)) == -1,
        },
{
    let mut j = hi;
    while j > 0
        invariant
            j <= hi <= cs@.len(),
            last_sep(cs@.take(hi as int)) == last_sep(cs@.take(j as int)),
        decreases j,
    {
        assert(cs@.take(j as int).last() == cs@[j - 1]);
        if cs[j - 1] == '/' || cs[j - 1] == '\\' {
            return Some(j - 1);
        }
        assert(cs@.take(j as int).drop_last() =~= cs@.take(j - 1));
        j = j - 1;
    }
    None
}

/// The basename of `cs` as a vector.
fn basename_of(cs: &Vec<char>) -> (r: Vec<char>)
    ensures
        r@ == basename(cs@),
{
    let mut hi = cs.len();
    assert(cs@.take(hi as int) =~= cs@);
    loop
        invariant
            hi <= cs@.len(),
            basename(cs@) == basename(cs@.take(hi as int)),
        decreases hi,
    {
        let ghost s = cs@.take(hi as int);
        let k = last_sep_in(cs, hi);
        let lo: usize = match k {
            Some(k) => k + 1,
            None => 0,
        };
        let mut comp: Vec<char> = Vec::new();
        let mut i = lo;
        while i < hi
            invariant
                lo <= i <= hi <= cs@.len(),
                comp@ == cs@.subrange(lo as int, i as int),
            decreases hi - i,
        {
            comp.push(cs[i]);
            assert(comp@ =~= cs@.subrange(lo as int, i + 1));
            i = i + 1;
        }
        assert(s.subrange(last_sep(s) + 1, s.len() as int) =~= comp@);
        if !(comp.len() == 0 || (comp.len() == 1 && comp[0] == '.')) {
            return comp;
        }
        match k {
            None => {
                return Vec::new();
            },
            Some(k) => {
                assert(s.subrange(0, k as int) =~= cs@.take(k as int));
                hi = k;
            },
        }
    }
}

/// `s` with each `..` replaced by `_`, left to right.
fn replace_dotdot_vec(s: &Vec<char>) -> (r: Vec<char>)
    ensures
        r@ == replace_dotdot(s@),
{
    let mut out: Vec<char> = Vec::new();
    let mut i: usize = 0;
    assert(s@.subrange(0, s@.len() as int) =~= s@);
    assert(out@ + replace_dotdot(s@) =~= replace_dotdot(s@));
    while i < s.len()
        invariant
            i <= s@.len(),
            out@ + replace_dotdot(s@.subrange(i as int, s@.len() as int)) == replace_dotdot(s@),
        decreases s@.len() - i,
    {
        let ghost rest = s@.subrange(i as int, s@.len() as int);
        if i + 1 < s.len() && s[i] == '.' && s[i + 1] == '.' {
            assert(rest.subrange(2, rest.len() as int) =~= s@.subrange(i + 2, s@.len() as int));
            out.push('_');
            i = i + 2;
        } else {
            assert(rest.drop_first() =~= s@.subrange(i + 1, s@.len() as int));
            out.push(s[i]);
            i = i + 1;
        }
    }
    assert(s@.subrange(i as int, s@.len() as int) =~= Seq::<char>::empty());
    assert(out@ + Seq::<char>::empty() =~= out@);
    out
}

/// Derive a filesystem-safe name from a user-supplied filename: keep the
/// last meaningful path component, replace control characters, collapse
/// `..` to `_`, drop leading `.`/`_`, and fall back to `unnamed`.
pub fn safe_name_for(file_name: &str) -> (r: String)
    ensures
        r@ == safe_name(file_name@),
{
    let cs = chars_of(file_name);
    let base = basename_of(&cs);
    let mut sanitized: Vec<char> = Vec::new();
    let mut i: usize = 0;
    while i < base.len()
        invariant
            i <= base@.len(),
            sanitized@ == sanitize_chars(base@).take(i as int),
        decreases base@.len() - i,
    {
        let ch = base[i];
        if ch == '.' {
            sanitized.push(ch);
        } else if is_control(ch) || ch == '/' || ch == '\\' || ch == '\0' {
            sanitized.push('_');
        } else {
            sanitized.push(ch);
        }
        assert(sanitized@ =~= sanitize_chars(base@).take(i + 1));
        i = i + 1;
    }
    assert(sanitize_chars(base@).take(base@.len() as int) =~= sanitize_chars(base@));
    let replaced = replace_dotdot_vec(&sanitized);
    let mut k: usize = 0;
    assert(replaced@.subrange(0, replaced@.len() as int) =~= replaced@);
    while k < replaced.len() && (replaced[k] == '.' || replaced[k] == '_')
        invariant
            k <= replaced@.len(),
            strip_leading_dots(replaced@) == strip_leading_dots(
                replaced@.subrange(k as int, replaced@.len() as int),
            ),
        decreases replaced@.len() - k,
    {
        assert(replaced@.subrange(k as int, replaced@.len() as int).drop_first()
            =~= replaced@.subrange(k + 1, replaced@.len() as int));
        k = k + 1;
    }
    let mut rest: Vec<char> = Vec::new();
    let mut j = k;
    while j < replaced.len()
        invariant
            k <= j <= replaced@.len(),
            rest@ == replaced@.subrange(k as int, j as int),
        decreases replaced@.len() - j,
    {
        rest.push(replaced[j]);
        assert(rest@ =~= replaced@.subrange(k as int, j + 1));
        j = j + 1;
    }
    if rest.len() == 0 {
        let u = chars_of("unnamed");
        string_from_chars(u.as_slice())
    } else {
        string_from_chars(rest.as_slice())
    }
}

/// The path of the stored upload `safe_name` inside `books_dir`
/// (`Path::join`): `safe_name` itself when it is absolute or when
/// `books_dir` is empty, else `books_dir`, a `/` unless it already ends in
/// one, and `safe_name`.
pub open spec fn joined_path(books_dir: Seq<char>, safe_name: Seq<char>) -> Seq<char> {
    if (safe_name.len() > 0 && safe_name[0] == '/') || books_dir.len() == 0 {
        safe_name
    } else if books_dir.last() == '/' {
        books_dir + safe_name
    } else {
        books_dir + seq!['/'] + safe_name
    }
}

/// Resolve the on-disk path of the stored upload `safe_name` inside
/// `books_dir`.
pub fn path_for_safe_name(books_dir: &str, safe_name: &str) -> (r: String)
    ensures
        r@ == joined_path(books_dir@, safe_name@),
{
    let mut d = chars_of(books_dir);
    let mut n = chars_of(safe_name);
    if (n.len() > 0 && n[0] == '/') || d.len() == 0 {
        return string_from_chars(n.as_slice());
    }
    if d[d.len() - 1] != '/' {
        d.push('/');
    }
    d.append(&mut n);
    string_from_chars(d.as_slice())
}


proof fn lemma_replace_dotdot(s: Seq<char>)
    ensures
        (forall|i: int| 0 <= i < s.len() ==> !is_path_sep(#[trigger] s[i])) ==> (forall|i: int|
            0 <= i < replace_dotdot(s).len() ==> !is_path_sep(#[trigger] replace_dotdot(s)[i])),
        forall|i: int|
            0 <= i < replace_dotdot(s).len() - 1 ==> !(#[trigger] replace_dotdot(s)[i] == '.'
                && replace_dotdot(s)[i + 1] == '.'),
        replace_dotdot(s).len() > 0 && replace_dotdot(s)[0] == '.' ==> s.len() > 0 && s[0]
            == '.' && !(s.len() >= 2 && s[1] == '.'),
        replace_dotdot(s).len() == 0 <==> s.len() == 0,
    decreases s.len(),
{
    if s.len() >= 2 && s[0] == '.' && s[1] == '.' {
        let t = s.subrange(2, s.len() as int);
        lemma_replace_dotdot(t);
        let r = replace_dotdot(s);
        assert(r == seq!['_'] + replace_dotdot(t));
        if forall|i: int| 0 <= i < s.len() ==> !is_path_sep(#[trigger] s[i]) {
            assert forall|i: int| 0 <= i < t.len() implies !is_path_sep(#[trigger] t[i]) by {
                assert(t[i] == s[i + 2]);
            }
            assert forall|i: int| 0 <= i < r.len() implies !is_path_sep(#[trigger] r[i]) by {
                if i > 0 {
                    assert(r[i] == replace_dotdot(t)[i - 1]);
                }
            }
        }
        assert forall|i: int| 0 <= i < r.len() - 1 implies !(#[trigger] r[i] == '.' && r[i + 1]
            == '.') by {
            if i > 0 {
                assert(r[i] == replace_dotdot(t)[i - 1]);
                assert(r[i + 1] == replace_dotdot(t)[i]);
            }
        }
    } else if s.len() == 0 {
    } else {
        let t = s.drop_first();
        lemma_replace_dotdot(t);
        let r = replace_dotdot(s);
        assert(r == seq![s[0]] + replace_dotdot(t));
        if forall|i: int| 0 <= i < s.len() ==> !is_path_sep(#[trigger] s[i]) {
            assert forall|i: int| 0 <= i < t.len() implies !is_path_sep(#[trigger] t[i]) by {
                assert(t[i] == s[i + 1]);
            }
            assert forall|i: int| 0 <= i < r.len() implies !is_path_sep(#[trigger] r[i]) by {
                if i > 0 {
                    assert(r[i] == replace_dotdot(t)[i - 1]);
                } else {
                    assert(r[0] == s[0]);
                }
            }
        }
        assert forall|i: int| 0 <= i < r.len() - 1 implies !(#[trigger] r[i] == '.' && r[i + 1]
            == '.') by {
            if i > 0 {
                assert(r[i] == replace_dotdot(t)[i - 1]);
                assert(r[i + 1] == replace_dotdot(t)[i]);
            } else {
                assert(r[1] == replace_dotdot(t)[0]);
                if r[0] == '.' && r[1] == '.' {
                    assert(t[0] == s[1]);
                }
            }
        }
    }
}

proof fn lemma_strip_leading_dots(s: Seq<char>)
    ensures
        exists|k: int|
            0 <= k <= s.len() && #[trigger] strip_leading_dots(s) == s.subrange(k, s.len() as int),
        strip_leading_dots(s).len() > 0 ==> strip_leading_dots(s)[0] != '.'
            && strip_leading_dots(s)[0] != '_',
    decreases s.len(),
{
    if s.len() > 0 && (s[0] == '.' || s[0] == '_') {
        lemma_strip_leading_dots(s.drop_first());
        let k = choose|k: int|
            0 <= k <= s.drop_first().len() && #[trigger] strip_leading_dots(s.drop_first())
                == s.drop_first().subrange(k, s.drop_first().len() as int);
        assert(s.drop_first().subrange(k, s.drop_first().len() as int) =~= s.subrange(
            k + 1,
            s.len() as int,
        ));
    } else {
        assert(s.subrange(0, s.len() as int) =~= s);
    }
}

/// A safe name is never empty, holds no path separator and no `..`, and
/// starts with neither `.` nor `_`.
pub proof fn law_safe_name_is_safe(file_name: Seq<char>)
    ensures
        safe_name(file_name).len() > 0,
        forall|i: int|
            0 <= i < safe_name(file_name).len() ==> !is_path_sep(#[trigger] safe_name(file_name)[i]),
        forall|i: int|
            0 <= i < safe_name(file_name).len() - 1 ==> !(#[trigger] safe_name(file_name)[i] == '.'
                && safe_name(file_name)[i + 1] == '.'),
        safe_name(file_name)[0] != '.',
        safe_name(file_name)[0] != '_',
{
    reveal_strlit("unnamed");
    let z = sanitize_chars(basename(file_name));
    assert forall|i: int| 0 <= i < z.len() implies !is_path_sep(#[trigger] z[i]) by {}
    lemma_replace_dotdot(z);
    let r = replace_dotdot(z);
    lemma_strip_leading_dots(r);
    let k = choose|k: int| 0 <= k <= r.len() && #[trigger] strip_leading_dots(r) == r.subrange(
        k,
        r.len() as int,
    );
    let st = strip_leading_dots(r);
    if st.len() > 0 {
        assert forall|i: int| 0 <= i < st.len() implies !is_path_sep(#[trigger] st[i]) by {
            assert(st[i] == r[i + k]);
        }
        assert forall|i: int| 0 <= i < st.len() - 1 implies !(#[trigger] st[i] == '.' && st[i + 1]
            == '.') by {
            assert(st[i] == r[i + k]);
            assert(st[i + 1] == r[i + 1 + k]);
        }
    }
}


/// A character that sanitising keeps as it is.
pub open spec fn plain_char(c: char) -> bool {
    !control_char(c) && !is_path_sep(c)
}

proof fn lemma_replace_dotdot_plain(s: Seq<char>)
    requires
        forall|i: int| 0 <= i < s.len() ==> plain_char(#[trigger] s[i]),
    ensures
        forall|i: int| 0 <= i < replace_dotdot(s).len() ==> plain_char(#[trigger] replace_dotdot(s)[i]),
    decreases s.len(),
{
    if s.len() >= 2 && s[0] == '.' && s[1] == '.' {
        let t = s.subrange(2, s.len() as int);
        assert forall|i: int| 0 <= i < t.len() implies plain_char(#[trigger] t[i]) by {
            assert(t[i] == s[i + 2]);
        }
        lemma_replace_dotdot_plain(t);
        let r = replace_dotdot(s);
        assert forall|i: int| 0 <= i < r.len() implies plain_char(#[trigger] r[i]) by {
            if i > 0 {
                assert(r[i] == replace_dotdot(t)[i - 1]);
            }
        }
    } else if s.len() > 0 {
        let t = s.drop_first();
        assert forall|i: int| 0 <= i < t.len() implies plain_char(#[trigger] t[i]) by {
            assert(t[i] == s[i + 1]);
        }
        lemma_replace_dotdot_plain(t);
        let r = replace_dotdot(s);
        assert forall|i: int| 0 <= i < r.len() implies plain_char(#[trigger] r[i]) by {
            if i > 0 {
                assert(r[i] == replace_dotdot(t)[i - 1]);
            }
        }
    }
}

proof fn lemma_replace_dotdot_none(s: Seq<char>)
    requires
        forall|i: int| 0 <= i < s.len() - 1 ==> !(#[trigger] s[i] == '.' && s[i + 1] == '.'),
    ensures
        replace_dotdot(s) == s,
    decreases s.len(),
{
    if s.len() > 0 {
        assert(!(s.len() >= 2 && s[0] == '.' && s[1] == '.'));
        let t = s.drop_first();
        assert forall|i: int| 0 <= i < t.len() - 1 implies !(#[trigger] t[i] == '.' && t[i + 1] == '.') by {
            assert(t[i] == s[i + 1] && t[i + 1] == s[i + 2]);
        }
        lemma_replace_dotdot_none(t);
        assert(seq![s[0]] + t =~= s);
    }
}

proof fn lemma_no_sep(s: Seq<char>)
    requires
        forall|i: int| 0 <= i < s.len() ==> !is_path_sep(#[trigger] s[i]),
    ensures
        last_sep(s) == -1,
    decreases s.len(),
{
    if s.len() > 0 {
        let t = s.drop_last();
        assert forall|i: int| 0 <= i < t.len() implies !is_path_sep(#[trigger] t[i]) by {
            assert(t[i] == s[i]);
        }
        lemma_no_sep(t);
    }
}

/// Sanitising a safe name gives it back: `safe_name` is idempotent.
pub proof fn law_safe_name_idempotent(file_name: Seq<char>)
    ensures
        safe_name(safe_name(file_name)) == safe_name(file_name),
{
    law_safe_name_is_safe(file_name);
    reveal_strlit("unnamed");
    let sn = safe_name(file_name);
    let z = sanitize_chars(basename(file_name));
    assert forall|i: int| 0 <= i < z.len() implies plain_char(#[trigger] z[i]) by {}
    lemma_replace_dotdot_plain(z);
    let r = replace_dotdot(z);
    lemma_strip_leading_dots(r);
    let k = choose|k: int| 0 <= k <= r.len() && #[trigger] strip_leading_dots(r) == r.subrange(
        k,
        r.len() as int,
    );
    let st = strip_leading_dots(r);
    assert forall|i: int| 0 <= i < sn.len() implies plain_char(#[trigger] sn[i]) by {
        if st.len() > 0 {
            assert(st[i] == r[i + k]);
        }
    }
    lemma_no_sep(sn);
    assert(sn.subrange(0, sn.len() as int) =~= sn);
    assert(!empty_component(sn));
    assert(basename(sn) == sn);
    assert(sanitize_chars(sn) =~= sn);
    lemma_replace_dotdot_none(sn);
    assert(strip_leading_dots(sn) == sn);
}

} // verus!
