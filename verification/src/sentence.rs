//! Sentence splitting with explicit Chinese / English / auto-detect modes.
//!
//! Chinese mode cuts after every CJK or ASCII terminator. English mode cuts
//! after a terminator that is followed by whitespace and then an uppercase
//! ASCII letter or a digit, then re-joins pieces that were cut after a
//! known abbreviation. Detect mode picks the Chinese rules when more than a
//! tenth of the characters are CJK.

use vstd::prelude::*;
use crate::chars::{
    chars_of, is_alphanumeric, is_whitespace, string_from_chars, sub_chars, trim,
    trim_bounds, trim_end, trim_start, trimmed_string, unicode_alphanumeric,
    unicode_white_space, views,
};

verus! {

/// Language classification hint for the sentence splitter.
#[derive(Debug, Copy, Clone, PartialEq, Eq, Structural)]
pub enum LanguageHint {
    /// Chinese (CJK) terminator rules.
    Zh,
    /// English terminator rules with abbreviation merging.
    En,
    /// Pick Zh or En from the share of CJK characters.
    Detect,
}

/// CJK unified ideographs (and extension A), CJK punctuation and
/// half/full-width forms.
pub open spec fn cjk(c: char) -> bool {
    let v = c as u32;
    ||| (0x4E00 <= v && v <= 0x9FFF)
    ||| (0x3400 <= v && v <= 0x4DBF)
    ||| (0x3000 <= v && v <= 0x303F)
    ||| (0xFF00 <= v && v <= 0xFFEF)
}

/// Whether `ch` is a CJK character in the sense of `cjk`.
pub fn is_cjk(ch: char) -> (r: bool)
    ensures
        r == cjk(ch),
{
    let v = ch as u32;
    (0x4E00 <= v && v <= 0x9FFF) || (0x3400 <= v && v <= 0x4DBF) || (0x3000 <= v && v <= 0x303F)
        || (0xFF00 <= v && v <= 0xFFEF)
}

/// Characters that end a sentence under the Chinese rules.
pub open spec fn zh_terminator(c: char) -> bool {
    c == '。' || c == '！' || c == '？' || c == '；' || c == '…' || c == '.' || c == '?' || c
        == '!'
}

/// `out` with `s` appended when `s` is not empty.
pub open spec fn push_nonempty(out: Seq<Seq<char>>, s: Seq<char>) -> Seq<Seq<char>> {
    if s.len() > 0 {
        out.push(s)
    } else {
        out
    }
}

/// `rest` with `s` put in front when `s` is not empty.
pub open spec fn prepend_nonempty(s: Seq<char>, rest: Seq<Seq<char>>) -> Seq<Seq<char>> {
    if s.len() > 0 {
        seq![s] + rest
    } else {
        rest
    }
}

/// Chinese scan of `cs`: the sentences closed so far and the open buffer.
/// A terminator closes the buffer (itself included); the trimmed buffer is
/// kept when not empty.
pub open spec fn zh_scan(cs: Seq<char>) -> (Seq<Seq<char>>, Seq<char>)
    decreases cs.len(),
{
    if cs.len() == 0 {
        (seq![], seq![])
    } else {
        let prev = zh_scan(cs.drop_last());
        let buf = prev.1.push(cs.last());
        if zh_terminator(cs.last()) {
            (push_nonempty(prev.0, trim(buf)), seq![])
        } else {
            (prev.0, buf)
        }
    }
}

/// Sentences of `cs` under the Chinese rules: the closed sentences, then
/// the trimmed remainder when it is not empty.
pub open spec fn zh_sentences(cs: Seq<char>) -> Seq<Seq<char>> {
    push_nonempty(zh_scan(cs).0, trim(zh_scan(cs).1))
}

/// Chinese split of `text`.
pub fn zh_split(text: &str) -> (out: Vec<String>)
    ensures
        views(out@) == zh_sentences(text@),
{
    let cs = chars_of(text);
    let n = cs.len();
    let mut out: Vec<String> = Vec::new();
    let mut seg: usize = 0;
    let mut i: usize = 0;
    while i < n
        invariant
            n == cs@.len(),
            seg <= i <= n,
            zh_scan(cs@.take(i as int)) == (views(out@), cs@.subrange(seg as int, i as int)),
        decreases n - i,
    {
        let ghost prev = cs@.take(i as int);
        assert(cs@.take(i + 1).drop_last() =~= prev);
        assert(cs@.subrange(seg as int, i as int).push(cs@[i as int]) =~= cs@.subrange(
            seg as int,
            i + 1,
        ));
        let ch = cs[i];
        if ch == '。' || ch == '！' || ch == '？' || ch == '；' || ch == '…' || ch == '.' || ch
            == '?' || ch == '!' {
            let s = trimmed_string(&cs, seg, i + 1);
            if !s.as_str().is_empty() {
                out.push(s);
            }
            proof {
                assert(views(out@) =~= push_nonempty(zh_scan(prev).0, s@));
                assert(cs@.subrange(i + 1, i + 1) =~= Seq::<char>::empty());
            }
            seg = i + 1;
        }
        i = i + 1;
    }
    assert(cs@.take(n as int) =~= cs@);
    let tail = trimmed_string(&cs, seg, n);
    if !tail.as_str().is_empty() {
        out.push(tail);
    }
    assert(views(out@) =~= zh_sentences(text@));
    out
}


/// Characters that may end a sentence under the English rules.
pub open spec fn en_terminator(c: char) -> bool {
    c == '.' || c == '!' || c == '?'
}

/// The first index at or after `j` that does not hold whitespace (or
/// `cs.len()`).
pub open spec fn skip_ws(cs: Seq<char>, j: int) -> int
    decreases cs.len() - j,
{
    if 0 <= j < cs.len() && unicode_white_space(cs[j]) {
        skip_ws(cs, j + 1)
    } else {
        j
    }
}

/// An uppercase ASCII letter or an ASCII digit.
pub open spec fn upper_or_digit(c: char) -> bool {
    ('A' <= c && c <= 'Z') || ('0' <= c && c <= '9')
}

/// The terminator at `i` ends an English sentence: it is followed by at
/// least one whitespace character and then an uppercase letter or digit.
pub open spec fn en_boundary(cs: Seq<char>, i: int) -> bool {
    &&& 0 <= i < cs.len()
    &&& en_terminator(cs[i])
    &&& skip_ws(cs, i + 1) > i + 1
    &&& skip_ws(cs, i + 1) < cs.len()
    &&& upper_or_digit(cs[skip_ws(cs, i + 1)])
}

/// Raw English pieces of `cs` from position `i` on, the current piece
/// having started at `start`: each piece runs up to a boundary terminator
/// and the next one starts after the whitespace that follows it. Pieces
/// are trimmed and empty ones dropped.
pub open spec fn en_pieces_from(cs: Seq<char>, start: int, i: int) -> Seq<Seq<char>>
    decreases cs.len() - i,
{
    if i < 0 || i >= cs.len() {
        if 0 <= start < cs.len() {
            push_nonempty(seq![], trim(cs.subrange(start, cs.len() as int)))
        } else {
            seq![]
        }
    } else if en_boundary(cs, i) {
        prepend_nonempty(
            trim(cs.subrange(start, i + 1)),
            en_pieces_from(cs, skip_ws(cs, i + 1), skip_ws(cs, i + 1)),
        )
    } else {
        en_pieces_from(cs, start, i + 1)
    }
}

/// Raw English pieces of `cs`.
pub open spec fn en_pieces(cs: Seq<char>) -> Seq<Seq<char>> {
    en_pieces_from(cs, 0, 0)
}

/// `s` without trailing whitespace and periods.
pub open spec fn trim_end_ws_dots(s: Seq<char>) -> Seq<char>
    decreases s.len(),
{
    if s.len() > 0 && (unicode_white_space(s.last()) || s.last() == '.') {
        trim_end_ws_dots(s.drop_last())
    } else {
        s
    }
}

/// Characters that separate tokens when looking for an abbreviation.
pub open spec fn token_separator(c: char) -> bool {
    !unicode_alphanumeric(c) && c != '.'
}

/// The part of `s` after its last token separator.
pub open spec fn last_token(s: Seq<char>) -> Seq<char>
    decreases s.len(),
{
    if s.len() == 0 {
        s
    } else if token_separator(s.last()) {
        Seq::empty()
    } else {
        last_token(s.drop_last()).push(s.last())
    }
}

/// The code of `c` with ASCII uppercase letters mapped to lowercase.
pub open spec fn ascii_lower_code(c: char) -> u32 {
    if 'A' <= c && c <= 'Z' {
        (c as u32 + 32) as u32
    } else {
        c as u32
    }
}

/// `a` and `b` are equal up to ASCII case.
pub open spec fn eq_ignore_ascii_case(a: Seq<char>, b: Seq<char>) -> bool {
    a.len() == b.len() && forall|k: int|
        0 <= k < a.len() ==> #[trigger] ascii_lower_code(a[k]) == ascii_lower_code(b[k])
}

/// Abbreviations after which a period does not end an English sentence.
pub open spec fn en_abbreviations() -> Seq<Seq<char>> {
    seq![
        "U.S.A"@,
        "U.S"@,
        "Dr"@,
        "Mr"@,
        "Mrs"@,
        "Ms"@,
        "vs"@,
        "etc"@,
        "Jr"@,
        "Sr"@,
        "e.g"@,
        "i.e"@,
    ]
}

/// The last token of `s` (ignoring trailing whitespace and periods) is a
/// known abbreviation, up to ASCII case.
pub open spec fn ends_with_abbreviation(s: Seq<char>) -> bool {
    exists|k: int|
        0 <= k < en_abbreviations().len() && #[trigger] eq_ignore_ascii_case(
            last_token(trim_end_ws_dots(s)),
            en_abbreviations()[k],
        )
}

/// Merged English sentences from piece `i` on, `cur` being the sentence
/// under construction (which already holds piece `i`): the next piece is
/// joined with a space while the sentence ends with a known abbreviation.
pub open spec fn en_merge_from(raw: Seq<Seq<char>>, i: int, cur: Seq<char>) -> Seq<Seq<char>>
    decreases raw.len() - i,
{
    if i < 0 || i >= raw.len() {
        seq![cur]
    } else if i + 1 < raw.len() && ends_with_abbreviation(cur) {
        en_merge_from(raw, i + 1, cur + seq![' '] + raw[i + 1])
    } else if i + 1 < raw.len() {
        seq![cur] + en_merge_from(raw, i + 1, raw[i + 1])
    } else {
        seq![cur]
    }
}

/// Merged English sentences built from the pieces `raw`.
pub open spec fn en_merge(raw: Seq<Seq<char>>) -> Seq<Seq<char>> {
    if raw.len() == 0 {
        seq![]
    } else {
        en_merge_from(raw, 0, raw[0])
    }
}

/// Sentences of `cs` under the English rules.
pub open spec fn en_sentences(cs: Seq<char>) -> Seq<Seq<char>> {
    en_merge(en_pieces(cs))
}

proof fn lemma_skip_ws_bounds(cs: Seq<char>, j: int)
    requires
        0 <= j <= cs.len(),
    ensures
        j <= skip_ws(cs, j) <= cs.len(),
    decreases cs.len() - j,
{
    if j < cs.len() && unicode_white_space(cs[j]) {
        lemma_skip_ws_bounds(cs, j + 1);
    }
}

/// Whether `c` is an uppercase ASCII letter or an ASCII digit.
fn is_upper_or_digit(c: char) -> (r: bool)
    ensures
        r == upper_or_digit(c),
{
    ('A' <= c && c <= 'Z') || ('0' <= c && c <= '9')
}

/// Raw English pieces of the characters `cs`.
fn en_raw_pieces(cs: &Vec<char>) -> (raw: Vec<Vec<char>>)
    ensures
        raw@.map_values(|v: Vec<char>| v@) == en_pieces(cs@),
{
    let n = cs.len();
    let mut raw: Vec<Vec<char>> = Vec::new();
    let mut start: usize = 0;
    let mut i: usize = 0;
    while i < n
        invariant
            n == cs@.len(),
            start <= i <= n,
            raw@.map_values(|v: Vec<char>| v@) + en_pieces_from(cs@, start as int, i as int)
                == en_pieces(cs@),
        decreases n - i,
    {
        let c = cs[i];
        if c == '.' || c == '!' || c == '?' {
            let mut j = i + 1;
            while j < n && is_whitespace(cs[j])
                invariant
                    n == cs@.len(),
                    i < j <= n,
                    skip_ws(cs@, i + 1) == skip_ws(cs@, j as int),
                decreases n - j,
            {
                j = j + 1;
            }
            proof {
                lemma_skip_ws_bounds(cs@, j as int);
            }
            if j > i + 1 && j < n && is_upper_or_digit(cs[j]) {
                let (a, b) = trim_bounds(cs, start, i + 1);
                let piece = sub_chars(cs, a, b);
                let ghost before = raw@.map_values(|v: Vec<char>| v@);
                let ghost rest = en_pieces_from(cs@, j as int, j as int);
                if piece.len() > 0 {
                    raw.push(piece);
                    assert(raw@.map_values(|v: Vec<char>| v@) =~= before.push(piece@));
                    assert(before.push(piece@) + rest =~= before + (seq![piece@] + rest));
                }
                start = j;
                i = j;
                continue;
            }
        }
        i = i + 1;
    }
    if start < n {
        let (a, b) = trim_bounds(cs, start, n);
        let piece = sub_chars(cs, a, b);
        let ghost before = raw@.map_values(|v: Vec<char>| v@);
        if piece.len() > 0 {
            raw.push(piece);
            assert(raw@.map_values(|v: Vec<char>| v@) =~= before.push(piece@));
        }
        assert(push_nonempty(seq![], piece@) =~= (if piece@.len() > 0 { seq![piece@] } else { seq![] }));
        assert(raw@.map_values(|v: Vec<char>| v@) =~= before + push_nonempty(seq![], piece@));
    } else {
        assert(raw@.map_values(|v: Vec<char>| v@) =~= raw@.map_values(|v: Vec<char>| v@) + Seq::<Seq<char>>::empty());
    }
    raw
}


/// Length of the prefix of `s` that remains after removing trailing
/// whitespace and periods.
fn trim_end_ws_dots_len(s: &Vec<char>) -> (t: usize)
    ensures
        t <= s@.len(),
        s@.take(t as int) == trim_end_ws_dots(s@),
{
    let mut t = s.len();
    assert(s@.take(t as int) =~= s@);
    while t > 0 && (is_whitespace(s[t - 1]) || s[t - 1] == '.')
        invariant
            t <= s@.len(),
            trim_end_ws_dots(s@) == trim_end_ws_dots(s@.take(t as int)),
        decreases t,
    {
        assert(s@.take(t as int).drop_last() =~= s@.take(t - 1));
        t = t - 1;
    }
    t
}

/// Start index `k` of the last token of `s[..t]`, so that `s[k..t]` is
/// that token.
fn last_token_start(s: &Vec<char>, t: usize) -> (k: usize)
    requires
        t <= s@.len(),
    ensures
        k <= t,
        s@.subrange(k as int, t as int) == last_token(s@.take(t as int)),
{
    let mut k = t;
    assert(s@.subrange(k as int, t as int) =~= Seq::<char>::empty());
    while k > 0 && (is_alphanumeric(s[k - 1]) || s[k - 1] == '.')
        invariant
            k <= t <= s@.len(),
            last_token(s@.take(t as int)) == last_token(s@.take(k as int)) + s@.subrange(
                k as int,
                t as int,
            ),
        decreases k,
    {
        assert(s@.take(k as int).drop_last() =~= s@.take(k - 1));
        assert(s@.take(k as int).last() == s@[k - 1]);
        assert(last_token(s@.take(k - 1)).push(s@[k - 1]) + s@.subrange(k as int, t as int)
            =~= last_token(s@.take(k - 1)) + s@.subrange(k - 1, t as int));
        k = k - 1;
    }
    assert(last_token(s@.take(k as int)) =~= Seq::<char>::empty());
    assert(Seq::<char>::empty() + s@.subrange(k as int, t as int) =~= s@.subrange(
        k as int,
        t as int,
    ));
    k
}

/// Whether `a[lo..hi]` equals `b` up to ASCII case.
pub(crate) fn eq_ignore_ascii_case_at(a: &Vec<char>, lo: usize, hi: usize, b: &Vec<char>) -> (r: bool)
    requires
        lo <= hi <= a@.len(),
    ensures
        r == eq_ignore_ascii_case(a@.subrange(lo as int, hi as int), b@),
{
    if hi - lo != b.len() {
        return false;
    }
    let mut k: usize = 0;
    while k < b.len()
        invariant
            lo <= hi <= a@.len(),
            hi - lo == b@.len(),
            k <= b@.len(),
            forall|m: int|
                0 <= m < k ==> #[trigger] ascii_lower_code(a@[lo + m]) == ascii_lower_code(
                    b@[m],
                ),
        decreases b@.len() - k,
    {
        let x = a[lo + k];
        let y = b[k];
        let xc: u32 = if 'A' <= x && x <= 'Z' { (x as u32) + 32 } else { x as u32 };
        let yc: u32 = if 'A' <= y && y <= 'Z' { (y as u32) + 32 } else { y as u32 };
        assert(xc == ascii_lower_code(x));
        assert(yc == ascii_lower_code(y));
        if xc != yc {
            assert(a@.subrange(lo as int, hi as int)[k as int] == x);
            assert(ascii_lower_code(a@.subrange(lo as int, hi as int)[k as int])
                != ascii_lower_code(b@[k as int]));
            return false;
        }
        k = k + 1;
    }
    assert forall|m: int| 0 <= m < hi - lo implies #[trigger] ascii_lower_code(
        a@.subrange(lo as int, hi as int)[m],
    ) == ascii_lower_code(b@[m]) by {
        assert(a@.subrange(lo as int, hi as int)[m] == a@[lo + m]);
    }
    true
}

/// The known abbreviations as character vectors.
fn abbreviation_list() -> (v: Vec<Vec<char>>)
    ensures
        v@.map_values(|x: Vec<char>| x@) == en_abbreviations(),
{
    let mut v: Vec<Vec<char>> = Vec::new();
    v.push(chars_of("U.S.A"));
    v.push(chars_of("U.S"));
    v.push(chars_of("Dr"));
    v.push(chars_of("Mr"));
    v.push(chars_of("Mrs"));
    v.push(chars_of("Ms"));
    v.push(chars_of("vs"));
    v.push(chars_of("etc"));
    v.push(chars_of("Jr"));
    v.push(chars_of("Sr"));
    v.push(chars_of("e.g"));
    v.push(chars_of("i.e"));
    assert(v@.map_values(|x: Vec<char>| x@) =~= en_abbreviations());
    v
}

/// Whether the last token of `s` (ignoring trailing whitespace and
/// periods) is a known abbreviation.
fn ends_with_abbrev(s: &Vec<char>) -> (r: bool)
    ensures
        r == ends_with_abbreviation(s@),
{
    let t = trim_end_ws_dots_len(s);
    let k = last_token_start(s, t);
    let ghost tok = last_token(trim_end_ws_dots(s@));
    assert(s@.subrange(k as int, t as int) == tok);
    let abbrevs = abbreviation_list();
    let ghost av = abbrevs@.map_values(|x: Vec<char>| x@);
    let mut m: usize = 0;
    while m < abbrevs.len()
        invariant
            k <= t <= s@.len(),
            s@.subrange(k as int, t as int) == tok,
            tok == last_token(trim_end_ws_dots(s@)),
            av == en_abbreviations(),
            av == abbrevs@.map_values(|x: Vec<char>| x@),
            m <= abbrevs@.len(),
            forall|q: int| 0 <= q < m ==> !eq_ignore_ascii_case(tok, #[trigger] av[q]),
        decreases abbrevs@.len() - m,
    {
        if eq_ignore_ascii_case_at(s, k, t, &abbrevs[m]) {
            assert(av[m as int] == abbrevs@[m as int]@);
            assert(eq_ignore_ascii_case(tok, en_abbreviations()[m as int]));
            assert(0 <= m < en_abbreviations().len());
            assert(ends_with_abbreviation(s@));
            return true;
        }
        assert(av[m as int] == abbrevs@[m as int]@);
        m = m + 1;
    }
    assert forall|q: int| 0 <= q < en_abbreviations().len() implies !#[trigger] eq_ignore_ascii_case(
        last_token(trim_end_ws_dots(s@)),
        en_abbreviations()[q],
    ) by {
        assert(!eq_ignore_ascii_case(tok, av[q]));
    }
    false
}

/// The merge still to do from piece `i` on.
pub open spec fn en_merge_rest(raw: Seq<Seq<char>>, i: int) -> Seq<Seq<char>> {
    if 0 <= i < raw.len() {
        en_merge_from(raw, i, raw[i])
    } else {
        seq![]
    }
}

/// Merges pieces cut after an abbreviation back into one sentence.
fn en_merge_pieces(raw: &Vec<Vec<char>>) -> (out: Vec<String>)
    ensures
        views(out@) == en_merge(raw@.map_values(|v: Vec<char>| v@)),
{
    let ghost rv = raw@.map_values(|v: Vec<char>| v@);
    let n = raw.len();
    let mut out: Vec<String> = Vec::new();
    let mut i: usize = 0;
    assert(views(out@) + en_merge_rest(rv, 0) =~= en_merge(rv));
    while i < n
        invariant
            n == raw@.len(),
            rv == raw@.map_values(|v: Vec<char>| v@),
            i <= n,
            views(out@) + en_merge_rest(rv, i as int) == en_merge(rv),
        decreases n - i,
    {
        let mut cur = sub_chars(&raw[i], 0, raw[i].len());
        assert(raw@[i as int]@.subrange(0, raw@[i as int]@.len() as int) =~= raw@[i as int]@);
        let ghost i0 = i;
        while i + 1 < n && ends_with_abbrev(&cur)
            invariant
                n == raw@.len(),
                rv == raw@.map_values(|v: Vec<char>| v@),
                i0 <= i < n,
                en_merge_rest(rv, i0 as int) == en_merge_from(rv, i as int, cur@),
            decreases n - i,
        {
            let ghost old_cur = cur@;
            assert(rv[i + 1] == raw@[i + 1]@);
            cur.push(' ');
            let mut next = sub_chars(&raw[i + 1], 0, raw[i + 1].len());
            assert(raw@[i + 1]@.subrange(0, raw@[i + 1]@.len() as int) =~= raw@[i + 1]@);
            let ghost before = cur@;
            cur.append(&mut next);
            assert(cur@ =~= old_cur + seq![' '] + rv[i + 1]);
            i = i + 1;
        }
        let ghost done = views(out@);
        let s = string_from_chars(cur.as_slice());
        out.push(s);
        assert(views(out@) =~= done.push(cur@));
        i = i + 1;
        assert(done + en_merge_rest(rv, i0 as int) =~= views(out@) + en_merge_rest(rv, i as int));
    }
    out
}

/// English split of `text`: terminator scan, then abbreviation merging.
pub fn en_split(text: &str) -> (out: Vec<String>)
    ensures
        views(out@) == en_sentences(text@),
{
    let cs = chars_of(text);
    let raw = en_raw_pieces(&cs);
    en_merge_pieces(&raw)
}


/// Number of CJK characters in `s`.
pub open spec fn cjk_count(s: Seq<char>) -> nat
    decreases s.len(),
{
    if s.len() == 0 {
        0
    } else {
        cjk_count(s.drop_last()) + if cjk(s.last()) {
            1nat
        } else {
            0nat
        }
    }
}

/// Detect mode picks the Chinese rules when more than a tenth of the
/// characters of `s` (at least one counted) are CJK.
pub open spec fn detect_prefers_zh(s: Seq<char>) -> bool {
    let total = if s.len() == 0 {
        1
    } else {
        s.len()
    };
    10 * cjk_count(s) > total
}

/// Sentences of `text` under the rules chosen by `hint`.
pub open spec fn sentences_of(text: Seq<char>, hint: LanguageHint) -> Seq<Seq<char>> {
    match hint {
        LanguageHint::Zh => zh_sentences(text),
        LanguageHint::En => en_sentences(text),
        LanguageHint::Detect => if detect_prefers_zh(text) {
            zh_sentences(text)
        } else {
            en_sentences(text)
        },
    }
}

/// Split `text` into sentences according to `hint`.
pub fn split_sentences(text: &str, hint: LanguageHint) -> (r: Vec<String>)
    ensures
        views(r@) == sentences_of(text@, hint),
{
    match hint {
        LanguageHint::Zh => zh_split(text),
        LanguageHint::En => en_split(text),
        LanguageHint::Detect => {
            let cs = chars_of(text);
            let total: usize = if cs.len() == 0 {
                1
            } else {
                cs.len()
            };
            let mut count: usize = 0;
            let mut i: usize = 0;
            while i < cs.len()
                invariant
                    i <= cs@.len(),
                    count == cjk_count(cs@.take(i as int)),
                    count <= i,
                decreases cs@.len() - i,
            {
                assert(cs@.take(i + 1).drop_last() =~= cs@.take(i as int));
                if is_cjk(cs[i]) {
                    count = count + 1;
                }
                i = i + 1;
            }
            assert(cs@.take(cs@.len() as int) =~= cs@);
            let zh = count > total / 10;
            assert(zh == (10 * count > total)) by (nonlinear_arith)
                requires
                    zh == (count > total / 10),
            ;
            if zh {
                zh_split(text)
            } else {
                en_split(text)
            }
        },
    }
}


/// `s` is non-empty and has no whitespace at either end.
pub open spec fn clean_sentence(s: Seq<char>) -> bool {
    s.len() > 0 && !unicode_white_space(s[0]) && !unicode_white_space(s.last())
}

proof fn lemma_trim_start_first(s: Seq<char>)
    ensures
        trim_start(s).len() > 0 ==> !unicode_white_space(trim_start(s)[0]),
    decreases s.len(),
{
    if s.len() > 0 && unicode_white_space(s[0]) {
        lemma_trim_start_first(s.drop_first());
    }
}

proof fn lemma_trim_end_prefix(s: Seq<char>)
    ensures
        trim_end(s).len() <= s.len(),
        trim_end(s) == s.take(trim_end(s).len() as int),
        trim_end(s).len() > 0 ==> !unicode_white_space(trim_end(s).last()),
    decreases s.len(),
{
    if s.len() > 0 && unicode_white_space(s.last()) {
        lemma_trim_end_prefix(s.drop_last());
        assert(s.drop_last().take(trim_end(s).len() as int) =~= s.take(trim_end(s).len() as int));
    } else {
        assert(s.take(s.len() as int) =~= s);
    }
}

/// A non-empty trimmed text is a clean sentence.
proof fn lemma_trim_clean(s: Seq<char>)
    ensures
        trim(s).len() > 0 ==> clean_sentence(trim(s)),
{
    lemma_trim_start_first(s);
    lemma_trim_end_prefix(trim_start(s));
    if trim(s).len() > 0 {
        assert(trim(s)[0] == trim_start(s).take(trim(s).len() as int)[0]);
    }
}

/// All sentences of `ss` are clean.
pub open spec fn all_clean(ss: Seq<Seq<char>>) -> bool {
    forall|k: int| 0 <= k < ss.len() ==> clean_sentence(#[trigger] ss[k])
}

proof fn lemma_push_trim_clean(ss: Seq<Seq<char>>, buf: Seq<char>)
    requires
        all_clean(ss),
    ensures
        all_clean(push_nonempty(ss, trim(buf))),
{
    lemma_trim_clean(buf);
    let r = push_nonempty(ss, trim(buf));
    assert forall|k: int| 0 <= k < r.len() implies clean_sentence(#[trigger] r[k]) by {
        if k < ss.len() {
            assert(r[k] == ss[k]);
        }
    }
}

proof fn lemma_zh_scan_clean(cs: Seq<char>)
    ensures
        all_clean(zh_scan(cs).0),
    decreases cs.len(),
{
    if cs.len() > 0 {
        lemma_zh_scan_clean(cs.drop_last());
        let prev = zh_scan(cs.drop_last());
        lemma_push_trim_clean(prev.0, prev.1.push(cs.last()));
    }
}

proof fn lemma_en_pieces_clean(cs: Seq<char>, start: int, i: int)
    ensures
        all_clean(en_pieces_from(cs, start, i)),
    decreases cs.len() - i,
{
    if i < 0 || i >= cs.len() {
        if 0 <= start < cs.len() {
            lemma_push_trim_clean(seq![], cs.subrange(start, cs.len() as int));
        }
    } else if en_boundary(cs, i) {
        let j = skip_ws(cs, i + 1);
        lemma_skip_ws_bounds(cs, i + 1);
        lemma_en_pieces_clean(cs, j, j);
        let rest = en_pieces_from(cs, j, j);
        let t = trim(cs.subrange(start, i + 1));
        lemma_trim_clean(cs.subrange(start, i + 1));
        let r = prepend_nonempty(t, rest);
        assert forall|k: int| 0 <= k < r.len() implies clean_sentence(#[trigger] r[k]) by {
            if t.len() > 0 && k > 0 {
                assert(r[k] == rest[k - 1]);
            }
        }
    } else {
        lemma_en_pieces_clean(cs, start, i + 1);
    }
}

proof fn lemma_en_merge_clean(raw: Seq<Seq<char>>, i: int, cur: Seq<char>)
    requires
        all_clean(raw),
        clean_sentence(cur),
    ensures
        all_clean(en_merge_from(raw, i, cur)),
    decreases raw.len() - i,
{
    if i < 0 || i >= raw.len() {
    } else if i + 1 < raw.len() && ends_with_abbreviation(cur) {
        let next = cur + seq![' '] + raw[i + 1];
        assert(clean_sentence(raw[i + 1]));
        assert(next[0] == cur[0]);
        assert(next.last() == raw[i + 1].last());
        lemma_en_merge_clean(raw, i + 1, next);
    } else if i + 1 < raw.len() {
        assert(clean_sentence(raw[i + 1]));
        lemma_en_merge_clean(raw, i + 1, raw[i + 1]);
        let rest = en_merge_from(raw, i + 1, raw[i + 1]);
        let r = seq![cur] + rest;
        assert forall|k: int| 0 <= k < r.len() implies clean_sentence(#[trigger] r[k]) by {
            if k > 0 {
                assert(r[k] == rest[k - 1]);
            }
        }
    }
}

/// Every sentence the splitter returns, whatever the language rules, is
/// non-empty and has no whitespace at either end.
pub proof fn law_sentences_are_clean(text: Seq<char>, hint: LanguageHint)
    ensures
        forall|k: int|
            0 <= k < sentences_of(text, hint).len() ==> clean_sentence(
                #[trigger] sentences_of(text, hint)[k],
            ),
{
    lemma_zh_scan_clean(text);
    lemma_push_trim_clean(zh_scan(text).0, zh_scan(text).1);
    lemma_en_pieces_clean(text, 0, 0);
    let raw = en_pieces(text);
    if raw.len() > 0 {
        assert(clean_sentence(raw[0]));
        lemma_en_merge_clean(raw, 0, raw[0]);
    }
    assert(all_clean(sentences_of(text, hint)));
}


/// No character of `s` but possibly its last is a Chinese-rules
/// terminator.
pub open spec fn inner_free(s: Seq<char>) -> bool {
    forall|i: int| 0 <= i < s.len() - 1 ==> !zh_terminator(#[trigger] s[i])
}

proof fn lemma_trim_start_suffix(s: Seq<char>)
    ensures
        exists|k: int| 0 <= k <= s.len() && #[trigger] trim_start(s) == s.subrange(k, s.len() as int),
    decreases s.len(),
{
    if s.len() > 0 && unicode_white_space(s[0]) {
        lemma_trim_start_suffix(s.drop_first());
        let k = choose|k: int|
            0 <= k <= s.drop_first().len() && #[trigger] trim_start(s.drop_first())
                == s.drop_first().subrange(k, s.drop_first().len() as int);
        assert(s.drop_first().subrange(k, s.drop_first().len() as int) =~= s.subrange(k + 1, s.len() as int));
    } else {
        assert(s.subrange(0, s.len() as int) =~= s);
    }
}

/// Trimming keeps the characters of `s` in a contiguous range of it.
proof fn lemma_trim_range(s: Seq<char>)
    ensures
        exists|a: int, b: int| 0 <= a <= b <= s.len() && #[trigger] trim(s) == s.subrange(a, b),
{
    lemma_trim_start_suffix(s);
    let k = choose|k: int| 0 <= k <= s.len() && #[trigger] trim_start(s) == s.subrange(k, s.len() as int);
    let t = trim_start(s);
    lemma_trim_end_prefix(t);
    let m = trim_end(t).len() as int;
    assert(t.take(m) =~= s.subrange(k, k + m));
    assert(trim(s) == s.subrange(k, k + m));
}

/// A clean sentence is its own trim.
proof fn lemma_trim_clean_id(s: Seq<char>)
    requires
        clean_sentence(s),
    ensures
        trim(s) == s,
{
    assert(trim_start(s) == s);
    assert(trim_end(s) == s);
}

proof fn lemma_zh_scan_free(cs: Seq<char>)
    requires
        forall|i: int| 0 <= i < cs.len() ==> !zh_terminator(#[trigger] cs[i]),
    ensures
        zh_scan(cs) == (Seq::<Seq<char>>::empty(), cs),
    decreases cs.len(),
{
    if cs.len() > 0 {
        let p = cs.drop_last();
        assert forall|i: int| 0 <= i < p.len() implies !zh_terminator(#[trigger] p[i]) by {
            assert(p[i] == cs[i]);
        }
        lemma_zh_scan_free(p);
        assert(p.push(cs.last()) =~= cs);
    }
}

/// The open buffer of a Chinese scan holds no terminator, and every
/// sentence closed so far has one at most at its end.
proof fn lemma_zh_scan_inner(cs: Seq<char>)
    ensures
        forall|i: int| 0 <= i < zh_scan(cs).1.len() ==> !zh_terminator(#[trigger] zh_scan(cs).1[i]),
        forall|k: int| 0 <= k < zh_scan(cs).0.len() ==> inner_free(#[trigger] zh_scan(cs).0[k]),
    decreases cs.len(),
{
    if cs.len() > 0 {
        lemma_zh_scan_inner(cs.drop_last());
        let prev = zh_scan(cs.drop_last());
        let buf = prev.1.push(cs.last());
        if zh_terminator(cs.last()) {
            lemma_trim_range(buf);
            let (a, b) = choose|a: int, b: int| 0 <= a <= b <= buf.len() && #[trigger] trim(buf) == buf.subrange(a, b);
            let t = trim(buf);
            assert forall|i: int| 0 <= i < t.len() - 1 implies !zh_terminator(#[trigger] t[i]) by {
                assert(t[i] == buf[a + i]);
                assert(buf[a + i] == prev.1[a + i]);
            }
            let r = zh_scan(cs).0;
            assert forall|k: int| 0 <= k < r.len() implies inner_free(#[trigger] r[k]) by {
                if k < prev.0.len() {
                    assert(r[k] == prev.0[k]);
                }
            }
        } else {
            assert forall|i: int| 0 <= i < buf.len() implies !zh_terminator(#[trigger] buf[i]) by {
                if i < prev.1.len() {
                    assert(buf[i] == prev.1[i]);
                }
            }
        }
    }
}

/// A clean sentence with no terminator before its end splits into itself.
proof fn lemma_zh_single(s: Seq<char>)
    requires
        clean_sentence(s),
        inner_free(s),
    ensures
        zh_sentences(s) == seq![s],
{
    lemma_trim_clean_id(s);
    let p = s.drop_last();
    assert forall|i: int| 0 <= i < p.len() implies !zh_terminator(#[trigger] p[i]) by {
        assert(p[i] == s[i]);
    }
    lemma_zh_scan_free(p);
    assert(p.push(s.last()) =~= s);
    if zh_terminator(s.last()) {
        assert(zh_scan(s) == (seq![s], Seq::<char>::empty()));
        assert(trim(Seq::<char>::empty()) =~= Seq::<char>::empty());
    } else {
        assert(zh_scan(s) == (Seq::<Seq<char>>::empty(), s));
    }
}

/// Under the Chinese rules every sentence is a fixed point of the
/// splitter: splitting it again gives just that sentence.
pub proof fn law_zh_sentences_fixed(text: Seq<char>)
    ensures
        forall|k: int|
            0 <= k < sentences_of(text, LanguageHint::Zh).len() ==> sentences_of(
                #[trigger] sentences_of(text, LanguageHint::Zh)[k],
                LanguageHint::Zh,
            ) == seq![sentences_of(text, LanguageHint::Zh)[k]],
{
    law_sentences_are_clean(text, LanguageHint::Zh);
    lemma_zh_scan_inner(text);
    let ss = sentences_of(text, LanguageHint::Zh);
    let sc = zh_scan(text);
    lemma_trim_range(sc.1);
    let (a, b) = choose|a: int, b: int| 0 <= a <= b <= sc.1.len() && #[trigger] trim(sc.1) == sc.1.subrange(a, b);
    assert forall|k: int| 0 <= k < ss.len() implies sentences_of(#[trigger] ss[k], LanguageHint::Zh)
        == seq![ss[k]] by {
        if k < sc.0.len() {
            assert(ss[k] == sc.0[k]);
        } else {
            let t = trim(sc.1);
            assert(ss[k] == t);
            assert forall|i: int| 0 <= i < t.len() - 1 implies !zh_terminator(#[trigger] t[i]) by {
                assert(t[i] == sc.1[a + i]);
            }
        }
        assert(clean_sentence(ss[k]));
        lemma_zh_single(ss[k]);
    }
}


/// The characters that end a sentence under the Chinese rules: the CJK
/// terminators 。！？；… and the ASCII `.`, `?`, `!`.
pub open spec fn chinese_stop(c: char) -> bool {
    ||| c == '。'
    ||| c == '！'
    ||| c == '？'
    ||| c == '；'
    ||| c == '…'
    ||| c == '.'
    ||| c == '?'
    ||| c == '!'
}

/// How many characters of `s` end a sentence under the Chinese rules.
pub open spec fn chinese_stop_count(s: Seq<char>) -> nat
    decreases s.len(),
{
    if s.len() == 0 {
        0
    } else {
        chinese_stop_count(s.drop_last()) + if chinese_stop(s.last()) {
            1nat
        } else {
            0nat
        }
    }
}

/// The Chinese scan closes one sentence per terminator, each ending with
/// it.
proof fn lemma_zh_scan_count(cs: Seq<char>)
    ensures
        zh_scan(cs).0.len() == chinese_stop_count(cs),
        forall|k: int|
            0 <= k < zh_scan(cs).0.len() ==> (#[trigger] zh_scan(cs).0[k]).len() > 0
                && chinese_stop(zh_scan(cs).0[k].last()),
    decreases cs.len(),
{
    if cs.len() > 0 {
        lemma_zh_scan_count(cs.drop_last());
        let prev = zh_scan(cs.drop_last());
        let buf = prev.1.push(cs.last());
        let r = zh_scan(cs).0;
        if zh_terminator(cs.last()) {
            lemma_trim_last(buf);
            assert(r == prev.0.push(trim(buf)));
            assert forall|k: int| 0 <= k < r.len() implies (#[trigger] r[k]).len() > 0
                && chinese_stop(r[k].last()) by {
                if k < prev.0.len() {
                    assert(r[k] == prev.0[k]);
                }
            }
        }
    }
}

/// Under the Chinese rules each of 。！？；… and `.`, `?`, `!` closes a
/// sentence. No sentence holds one before its last character; the first
/// sentences, as many as the text holds such characters, each end with
/// one; at most one sentence follows them, and it holds none.
pub proof fn law_zh_stops_close_sentences(text: Seq<char>)
    ensures
        forall|k: int, i: int|
            0 <= k < zh_sentences(text).len() && 0 <= i < zh_sentences(text)[k].len() - 1
                ==> !chinese_stop(#[trigger] zh_sentences(text)[k][i]),
        chinese_stop_count(text) <= zh_sentences(text).len() <= chinese_stop_count(text) + 1,
        forall|k: int|
            0 <= k < chinese_stop_count(text) ==> chinese_stop(
                (#[trigger] zh_sentences(text)[k]).last(),
            ),
        forall|k: int, i: int|
            chinese_stop_count(text) <= k < zh_sentences(text).len() && 0 <= i < zh_sentences(
                text,
            )[k].len() ==> !chinese_stop(#[trigger] zh_sentences(text)[k][i]),
{
    lemma_zh_scan_inner(text);
    lemma_zh_scan_count(text);
    let ss = zh_sentences(text);
    let sc = zh_scan(text);
    let n = chinese_stop_count(text);
    lemma_trim_range(sc.1);
    let (a, b) = choose|a: int, b: int| 0 <= a <= b <= sc.1.len() && #[trigger] trim(sc.1) == sc.1.subrange(a, b);
    let t = trim(sc.1);
    assert forall|i: int| 0 <= i < t.len() implies !chinese_stop(#[trigger] t[i]) by {
        assert(t[i] == sc.1[a + i]);
    }
    assert forall|k: int, i: int| 0 <= k < ss.len() && 0 <= i < ss[k].len() - 1 implies !chinese_stop(
        #[trigger] ss[k][i],
    ) by {
        if k < sc.0.len() {
            assert(ss[k] == sc.0[k]);
            assert(inner_free(sc.0[k]));
            assert(!zh_terminator(sc.0[k][i]));
        } else {
            assert(ss[k] == t);
        }
    }
    assert forall|k: int| 0 <= k < n implies chinese_stop((#[trigger] ss[k]).last()) by {
        assert(ss[k] == sc.0[k]);
    }
    assert forall|k: int, i: int| n <= k < ss.len() && 0 <= i < ss[k].len() implies !chinese_stop(
        #[trigger] ss[k][i],
    ) by {
        assert(ss[k] == t);
    }
}

/// Skipping whitespace commutes with dropping a prefix.
proof fn lemma_skip_ws_shift(cs: Seq<char>, k: int, j: int)
    requires
        0 <= k <= cs.len(),
        0 <= j,
    ensures
        skip_ws(cs, k + j) == k + skip_ws(cs.subrange(k, cs.len() as int), j),
    decreases cs.len() - (k + j),
{
    let t = cs.subrange(k, cs.len() as int);
    if k + j < cs.len() && unicode_white_space(cs[k + j]) {
        assert(t[j] == cs[k + j]);
        lemma_skip_ws_shift(cs, k, j + 1);
    } else if k + j < cs.len() {
        assert(t[j] == cs[k + j]);
    }
}

/// Skipping whitespace inside a prefix that ends with a non-whitespace
/// character stays inside it.
proof fn lemma_skip_ws_prefix(cs: Seq<char>, n: int, j: int)
    requires
        0 <= j < n <= cs.len(),
        !unicode_white_space(cs[n - 1]),
    ensures
        skip_ws(cs, j) == skip_ws(cs.take(n), j),
        skip_ws(cs, j) < n,
    decreases n - j,
{
    assert(cs.take(n)[j] == cs[j]);
    if unicode_white_space(cs[j]) {
        lemma_skip_ws_prefix(cs, n, j + 1);
    }
}

/// No position but possibly the last of `p` is an English boundary.
pub open spec fn no_inner_boundary(p: Seq<char>) -> bool {
    forall|q: int| 0 <= q < p.len() - 1 ==> !en_boundary(p, q)
}

/// Inside a range of `cs` that ends with a non-whitespace character, a
/// position before the last is a boundary exactly when it is one in `cs`.
proof fn lemma_boundary_sub(cs: Seq<char>, a: int, b: int, q: int)
    requires
        0 <= a < b <= cs.len(),
        !unicode_white_space(cs[b - 1]),
        0 <= q < b - a - 1,
    ensures
        en_boundary(cs.subrange(a, b), q) == en_boundary(cs, a + q),
{
    let t = cs.subrange(a, b);
    let u = cs.subrange(a, cs.len() as int);
    lemma_skip_ws_shift(cs, a, q + 1);
    assert(u[b - a - 1] == cs[b - 1]);
    lemma_skip_ws_prefix(u, b - a, q + 1);
    assert(u.take(b - a) =~= t);
    let j = skip_ws(t, q + 1);
    lemma_skip_ws_bounds(t, q + 1);
    assert(t[q] == cs[a + q]);
    assert(j < t.len());
    assert(t[j] == cs[a + j]);
}


/// Trimming a text that starts with a non-whitespace character keeps it
/// first.
proof fn lemma_trim_first(x: Seq<char>)
    requires
        x.len() > 0,
        !unicode_white_space(x[0]),
    ensures
        trim(x).len() > 0,
        trim(x)[0] == x[0],
{
    assert(trim_start(x) == x);
    lemma_trim_end_prefix(x);
    if trim_end(x).len() == 0 {
        lemma_trim_end_empty(x);
        assert(unicode_white_space(x[0]));
    }
    assert(trim(x)[0] == x.take(trim(x).len() as int)[0]);
}

proof fn lemma_trim_end_empty(x: Seq<char>)
    requires
        trim_end(x).len() == 0,
    ensures
        forall|i: int| 0 <= i < x.len() ==> unicode_white_space(#[trigger] x[i]),
    decreases x.len(),
{
    if x.len() > 0 {
        lemma_trim_end_empty(x.drop_last());
        assert forall|i: int| 0 <= i < x.len() implies unicode_white_space(#[trigger] x[i]) by {
            if i < x.len() - 1 {
                assert(x[i] == x.drop_last()[i]);
            }
        }
    }
}

/// Trimming a text that ends with a non-whitespace character keeps it
/// last.
proof fn lemma_trim_last(x: Seq<char>)
    requires
        x.len() > 0,
        !unicode_white_space(x.last()),
    ensures
        trim(x).len() > 0,
        trim(x).last() == x.last(),
{
    lemma_trim_start_suffix(x);
    let k = choose|k: int| 0 <= k <= x.len() && #[trigger] trim_start(x) == x.subrange(k, x.len() as int);
    let y = trim_start(x);
    if y.len() == 0 {
        lemma_trim_start_empty(x);
    }
    assert(y.last() == x.last());
    assert(trim_end(y) == y);
}

proof fn lemma_trim_start_empty(x: Seq<char>)
    requires
        trim_start(x).len() == 0,
    ensures
        forall|i: int| 0 <= i < x.len() ==> unicode_white_space(#[trigger] x[i]),
    decreases x.len(),
{
    if x.len() > 0 {
        lemma_trim_start_empty(x.drop_first());
        assert forall|i: int| 0 <= i < x.len() implies unicode_white_space(#[trigger] x[i]) by {
            if i > 0 {
                assert(x[i] == x.drop_first()[i - 1]);
            }
        }
    }
}

/// The piece at `k` ends with a terminator and the next one starts with
/// an uppercase letter or a digit.
pub open spec fn pair_link(ps: Seq<Seq<char>>, k: int) -> bool {
    en_terminator(ps[k].last()) && upper_or_digit(ps[k + 1][0])
}

/// Consecutive pieces are linked as the English scan cuts them.
pub open spec fn chained(ps: Seq<Seq<char>>) -> bool {
    forall|k: int| 0 <= k < ps.len() - 1 ==> #[trigger] pair_link(ps, k)
}

/// Pieces as the English scan makes them: clean, without a boundary
/// before their last character, and chained.
pub open spec fn good_pieces(ps: Seq<Seq<char>>) -> bool {
    &&& all_clean(ps)
    &&& forall|k: int| 0 <= k < ps.len() ==> no_inner_boundary(#[trigger] ps[k])
    &&& chained(ps)
}

/// A piece trimmed out of `cs[start..end]`, where no position of
/// `[start, end - 1)` is a boundary, has no inner boundary.
proof fn lemma_piece_inner(cs: Seq<char>, start: int, end: int)
    requires
        0 <= start <= end <= cs.len(),
        forall|q: int| start <= q < end - 1 ==> !en_boundary(cs, q),
    ensures
        no_inner_boundary(trim(cs.subrange(start, end))),
{
    let x = cs.subrange(start, end);
    let t = trim(x);
    lemma_trim_range(x);
    lemma_trim_clean(x);
    let (a, b) = choose|a: int, b: int| 0 <= a <= b <= x.len() && #[trigger] trim(x) == x.subrange(a, b);
    if t.len() > 0 {
        assert(t =~= cs.subrange(start + a, start + b));
        assert(cs[start + b - 1] == t.last());
        assert forall|q: int| 0 <= q < t.len() - 1 implies !en_boundary(t, q) by {
            lemma_boundary_sub(cs, start + a, start + b, q);
        }
    }
}

proof fn lemma_en_pieces_good(cs: Seq<char>, start: int, i: int)
    requires
        0 <= start <= i,
        forall|q: int| start <= q < i ==> !en_boundary(cs, q),
    ensures
        good_pieces(en_pieces_from(cs, start, i)),
        start < cs.len() && !unicode_white_space(cs[start]) ==> en_pieces_from(cs, start, i).len() > 0
            && en_pieces_from(cs, start, i)[0][0] == cs[start],
    decreases cs.len() - i,
{
    lemma_en_pieces_clean(cs, start, i);
    let r = en_pieces_from(cs, start, i);
    if i >= cs.len() {
        if start < cs.len() {
            let x = cs.subrange(start, cs.len() as int);
            lemma_piece_inner(cs, start, cs.len() as int);
            if !unicode_white_space(cs[start]) {
                lemma_trim_first(x);
            }
            assert(r.len() <= 1);
            assert forall|k: int| 0 <= k < r.len() implies no_inner_boundary(#[trigger] r[k]) by {
                assert(r[k] == trim(x));
            }
            assert(all_clean(r));
            assert(chained(r));
            assert(good_pieces(r));
        } else {
            assert(r.len() == 0);
        }
    } else if en_boundary(cs, i) {
        let j = skip_ws(cs, i + 1);
        lemma_skip_ws_bounds(cs, i + 1);
        lemma_en_pieces_good(cs, j, j);
        let rest = en_pieces_from(cs, j, j);
        let x = cs.subrange(start, i + 1);
        let t = trim(x);
        lemma_piece_inner(cs, start, i + 1);
        lemma_trim_last(x);
        if !unicode_white_space(cs[start]) {
            lemma_trim_first(x);
        }
        assert(rest.len() > 0 && rest[0][0] == cs[j]);
        assert(r == seq![t] + rest);
        assert(x.last() == cs[i]);
        assert(t.last() == cs[i]);
        assert(en_terminator(cs[i]));
        assert(upper_or_digit(cs[j]));
        assert forall|k: int| 0 <= k < r.len() implies no_inner_boundary(#[trigger] r[k]) by {
            if k > 0 {
                assert(r[k] == rest[k - 1]);
            }
        }
        assert(chained(r)) by {
            assert forall|k: int| 0 <= k < r.len() - 1 implies #[trigger] pair_link(r, k) by {
                if k > 0 {
                    assert(r[k] == rest[k - 1] && r[k + 1] == rest[k]);
                    assert(pair_link(rest, k - 1));
                } else {
                    assert(r[0] == t);
                    assert(r[1] == rest[0]);
                }
            }
        }
        assert(all_clean(r));
        assert(chained(r));
        assert(forall|k: int| 0 <= k < r.len() ==> no_inner_boundary(#[trigger] r[k]));
        assert(good_pieces(r));
    } else {
        lemma_en_pieces_good(cs, start, i + 1);
        assert(good_pieces(r));
    }
}


/// English pieces are computed the same way in a suffix of the text.
proof fn lemma_pieces_shift(cs: Seq<char>, k: int, a: int, b: int)
    requires
        0 <= k <= cs.len(),
        0 <= a <= b,
    ensures
        en_pieces_from(cs, k + a, k + b) == en_pieces_from(cs.subrange(k, cs.len() as int), a, b),
    decreases cs.len() - (k + b),
{
    let t = cs.subrange(k, cs.len() as int);
    if k + b >= cs.len() {
        if k + a < cs.len() {
            assert(cs.subrange(k + a, cs.len() as int) =~= t.subrange(a, t.len() as int));
        }
    } else {
        lemma_skip_ws_shift(cs, k, b + 1);
        lemma_skip_ws_bounds(t, b + 1);
        let j = skip_ws(t, b + 1);
        assert(cs[k + b] == t[b]);
        if j < t.len() {
            assert(cs[k + j] == t[j]);
        }
        assert(en_boundary(cs, k + b) == en_boundary(t, b));
        if en_boundary(t, b) {
            assert(cs.subrange(k + a, k + b + 1) =~= t.subrange(a, b + 1));
            lemma_pieces_shift(cs, k, j, j);
        } else {
            lemma_pieces_shift(cs, k, a, b + 1);
        }
    }
}

/// Positions that are not boundaries are passed over.
proof fn lemma_walk(cs: Seq<char>, start: int, i: int, e: int)
    requires
        i <= e <= cs.len(),
        0 <= i,
        forall|q: int| i <= q < e ==> !en_boundary(cs, q),
    ensures
        en_pieces_from(cs, start, i) == en_pieces_from(cs, start, e),
    decreases e - i,
{
    if i < e {
        lemma_walk(cs, start, i + 1, e);
    }
}

/// Pieces joined with single spaces.
pub open spec fn join_pieces(ps: Seq<Seq<char>>) -> Seq<char>
    decreases ps.len(),
{
    if ps.len() == 0 {
        Seq::empty()
    } else if ps.len() == 1 {
        ps[0]
    } else {
        join_pieces(ps.drop_last()) + seq![' '] + ps.last()
    }
}

proof fn lemma_join_front(ps: Seq<Seq<char>>)
    requires
        ps.len() >= 2,
    ensures
        join_pieces(ps) == ps[0] + seq![' '] + join_pieces(ps.drop_first()),
    decreases ps.len(),
{
    let dl = ps.drop_last();
    let df = ps.drop_first();
    if ps.len() > 2 {
        lemma_join_front(dl);
        assert(df.drop_last() =~= dl.drop_first());
        assert(dl[0] == ps[0]);
        assert(df.last() == ps.last());
        assert(join_pieces(df) == join_pieces(df.drop_last()) + seq![' '] + df.last());
        assert(join_pieces(ps) =~= ps[0] + seq![' '] + join_pieces(df));
    } else {
        assert(dl.len() == 1 && dl[0] == ps[0]);
        assert(df.len() == 1 && df[0] == ps[1]);
        assert(join_pieces(dl) == ps[0]);
        assert(join_pieces(df) == ps[1]);
        assert(join_pieces(ps) =~= ps[0] + seq![' '] + join_pieces(df));
    }
}

proof fn lemma_join_first(ps: Seq<Seq<char>>)
    requires
        ps.len() >= 1,
        ps[0].len() > 0,
    ensures
        join_pieces(ps).len() >= ps[0].len(),
        join_pieces(ps).take(ps[0].len() as int) == ps[0],
    decreases ps.len(),
{
    if ps.len() >= 2 {
        lemma_join_front(ps);
        assert(join_pieces(ps).take(ps[0].len() as int) =~= ps[0]);
    }
}

/// Joined good pieces split back into the same pieces.
proof fn lemma_pieces_of_join(ps: Seq<Seq<char>>)
    requires
        ps.len() >= 1,
        good_pieces(ps),
    ensures
        en_pieces(join_pieces(ps)) == ps,
    decreases ps.len(),
{
    let s = join_pieces(ps);
    let p0 = ps[0];
    let n0 = p0.len() as int;
    assert(clean_sentence(p0));
    lemma_join_first(ps);
    assert(s.subrange(0, n0) =~= p0);
    assert(no_inner_boundary(p0));
    assert forall|q: int| 0 <= q < n0 - 1 implies !en_boundary(s, q) by {
        lemma_boundary_sub(s, 0, n0, q);
    }
    lemma_walk(s, 0, 0, n0 - 1);
    lemma_trim_clean_id(p0);
    if ps.len() == 1 {
        assert(s == p0);
        assert(!en_boundary(s, n0 - 1));
        lemma_walk(s, 0, n0 - 1, n0);
        assert(s.subrange(0, s.len() as int) =~= s);
        assert(en_pieces(s) =~= ps);
    } else {
        let rest = ps.drop_first();
        lemma_join_front(ps);
        let s2 = join_pieces(rest);
        assert(pair_link(ps, 0));
        assert(clean_sentence(rest[0]));
        lemma_join_first(rest);
        assert(s[n0] == ' ');
        assert(s[n0 + 1] == s2[0]);
        assert(s2[0] == rest[0][0]);
        assert(skip_ws(s, n0 + 1) == n0 + 1);
        assert(skip_ws(s, n0) == n0 + 1);
        assert(en_boundary(s, n0 - 1));
        assert(s.subrange(0, n0) =~= p0);
        assert forall|k: int| 0 <= k < rest.len() implies no_inner_boundary(#[trigger] rest[k]) by {
            assert(rest[k] == ps[k + 1]);
        }
        assert forall|k: int| 0 <= k < rest.len() implies clean_sentence(#[trigger] rest[k]) by {
            assert(rest[k] == ps[k + 1]);
        }
        assert forall|k: int| 0 <= k < rest.len() - 1 implies #[trigger] pair_link(rest, k) by {
            assert(pair_link(ps, k + 1));
            assert(rest[k] == ps[k + 1] && rest[k + 1] == ps[k + 2]);
        }
        lemma_pieces_of_join(rest);
        lemma_pieces_shift(s, n0 + 1, 0, 0);
        assert(s.subrange(n0 + 1, s.len() as int) =~= s2);
        assert(en_pieces(s) =~= seq![p0] + rest);
        assert(seq![p0] + rest =~= ps);
    }
}


/// The first `m + 1` of the pieces `ps`, joined, end with a known
/// abbreviation.
pub open spec fn abbrev_at(ps: Seq<Seq<char>>, m: int) -> bool {
    ends_with_abbreviation(join_pieces(ps.take(m + 1)))
}

/// `raw[g..=h]` is one merged group: each of its pieces but the last ends
/// (with those before it) in a known abbreviation.
pub open spec fn is_group(raw: Seq<Seq<char>>, g: int, h: int) -> bool {
    &&& 0 <= g <= h < raw.len()
    &&& forall|m: int| 0 <= m < h - g ==> #[trigger] abbrev_at(raw.subrange(g, h + 1), m)
}

/// `s` is the join of one merged group of `raw`.
pub open spec fn group_sentence(raw: Seq<Seq<char>>, s: Seq<char>) -> bool {
    exists|g: int, h: int| #[trigger] is_group(raw, g, h) && s == join_pieces(raw.subrange(g, h + 1))
}

proof fn lemma_join_push(ps: Seq<Seq<char>>, n: int)
    requires
        1 <= n < ps.len(),
    ensures
        join_pieces(ps.take(n + 1)) == join_pieces(ps.take(n)) + seq![' '] + ps[n],
{
    assert(ps.take(n + 1).drop_last() =~= ps.take(n));
}

/// Every merged sentence is the join of one group.
proof fn lemma_merge_groups(raw: Seq<Seq<char>>, g: int, i: int, cur: Seq<char>)
    requires
        0 <= g <= i < raw.len(),
        cur == join_pieces(raw.subrange(g, i + 1)),
        forall|m: int| 0 <= m < i - g ==> #[trigger] abbrev_at(raw.subrange(g, i + 1), m),
    ensures
        forall|k: int|
            0 <= k < en_merge_from(raw, i, cur).len() ==> group_sentence(
                raw,
                #[trigger] en_merge_from(raw, i, cur)[k],
            ),
    decreases raw.len() - i,
{
    let out = en_merge_from(raw, i, cur);
    assert(is_group(raw, g, i));
    if i + 1 < raw.len() && ends_with_abbreviation(cur) {
        let ps = raw.subrange(g, i + 2);
        lemma_join_push(ps, i + 1 - g);
        assert(ps.take(i + 1 - g) =~= raw.subrange(g, i + 1));
        assert(ps.take(i + 2 - g) =~= ps);
        assert forall|m: int| 0 <= m < i + 1 - g implies #[trigger] abbrev_at(ps, m) by {
            if m < i - g {
                assert(ps.take(m + 1) =~= raw.subrange(g, i + 1).take(m + 1));
                assert(abbrev_at(raw.subrange(g, i + 1), m));
            }
        }
        lemma_merge_groups(raw, g, i + 1, cur + seq![' '] + raw[i + 1]);
        let rest = en_merge_from(raw, i + 1, cur + seq![' '] + raw[i + 1]);
        assert(out == rest);
        assert forall|k: int| 0 <= k < out.len() implies group_sentence(raw, #[trigger] out[k]) by {
            assert(out[k] == rest[k]);
        }
    } else if i + 1 < raw.len() {
        let next = raw[i + 1];
        assert(raw.subrange(i + 1, i + 2) =~= seq![next]);
        lemma_merge_groups(raw, i + 1, i + 1, next);
        let rest = en_merge_from(raw, i + 1, next);
        assert forall|k: int| 0 <= k < out.len() implies group_sentence(raw, #[trigger] out[k]) by {
            if k > 0 {
                assert(out[k] == rest[k - 1]);
            } else {
                assert(out[0] == cur);
            }
        }
    } else {
        assert(out[0] == cur);
    }
}

/// A group merges into the join of its pieces.
proof fn lemma_merge_group(ps: Seq<Seq<char>>, i: int)
    requires
        0 <= i < ps.len(),
        forall|m: int| 0 <= m < ps.len() - 1 ==> #[trigger] abbrev_at(ps, m),
    ensures
        en_merge_from(ps, i, join_pieces(ps.take(i + 1))) == seq![join_pieces(ps)],
    decreases ps.len() - i,
{
    if i + 1 < ps.len() {
        assert(abbrev_at(ps, i));
        lemma_join_push(ps, i + 1);
        lemma_merge_group(ps, i + 1);
    } else {
        assert(ps.take(i + 1) =~= ps);
    }
}

/// Under the English rules every sentence is a fixed point of the
/// splitter: splitting it again gives just that sentence.
pub proof fn law_en_sentences_fixed(text: Seq<char>)
    ensures
        forall|k: int|
            0 <= k < en_sentences(text).len() ==> en_sentences(#[trigger] en_sentences(text)[k])
                == seq![en_sentences(text)[k]],
{
    let raw = en_pieces(text);
    lemma_en_pieces_good(text, 0, 0);
    if raw.len() > 0 {
        assert(raw.subrange(0, 1) =~= seq![raw[0]]);
        lemma_merge_groups(raw, 0, 0, raw[0]);
        let out = en_sentences(text);
        assert forall|k: int| 0 <= k < out.len() implies en_sentences(#[trigger] out[k]) == seq![
            out[k],
        ] by {
            assert(group_sentence(raw, out[k]));
            let (g, h) = choose|g: int, h: int|
                #[trigger] is_group(raw, g, h) && out[k] == join_pieces(raw.subrange(g, h + 1));
            let ps = raw.subrange(g, h + 1);
            assert forall|q: int| 0 <= q < ps.len() implies no_inner_boundary(#[trigger] ps[q])
                && clean_sentence(ps[q]) by {
                assert(ps[q] == raw[g + q]);
            }
            assert forall|q: int| 0 <= q < ps.len() - 1 implies #[trigger] pair_link(ps, q) by {
                assert(pair_link(raw, g + q));
                assert(ps[q] == raw[g + q] && ps[q + 1] == raw[g + q + 1]);
            }
            lemma_pieces_of_join(ps);
            assert(ps.take(1) =~= seq![ps[0]]);
            lemma_merge_group(ps, 0);
        }
    }
}


/// A run of whitespace from `a` up to a non-whitespace character at `b` is
/// skipped to `b`.
proof fn lemma_skip_ws_run(cs: Seq<char>, a: int, b: int)
    requires
        0 <= a <= b < cs.len(),
        forall|m: int| a <= m < b ==> unicode_white_space(#[trigger] cs[m]),
        !unicode_white_space(cs[b]),
    ensures
        skip_ws(cs, a) == b,
    decreases b - a,
{
    if a < b {
        lemma_skip_ws_run(cs, a + 1, b);
    }
}

/// Up to a boundary at `i`, the English pieces of the text are those of
/// its prefix through `i` (the last of which ends with the terminator at
/// `i`), followed by the pieces that start after the whitespace.
proof fn lemma_pieces_prefix(cs: Seq<char>, i: int, s: int, p: int)
    requires
        en_boundary(cs, i),
        0 <= s <= p <= i,
    ensures
        en_pieces_from(cs, s, p) == en_pieces_from(cs.take(i + 1), s, p) + en_pieces_from(
            cs,
            skip_ws(cs, i + 1),
            skip_ws(cs, i + 1),
        ),
        en_pieces_from(cs.take(i + 1), s, p).len() > 0,
        en_pieces_from(cs.take(i + 1), s, p).last().len() > 0,
        en_pieces_from(cs.take(i + 1), s, p).last().last() == cs[i],
        s < i && !unicode_white_space(cs[i - 1]) ==> {
            let last = en_pieces_from(cs.take(i + 1), s, p).last();
            last.len() >= 2 && last[last.len() - 2] == cs[i - 1]
        },
    decreases i - p,
{
    let l = cs.take(i + 1);
    let j = skip_ws(cs, i + 1);
    let rest = en_pieces_from(cs, j, j);
    assert(!unicode_white_space(cs[i]));
    if p == i {
        let x = cs.subrange(s, i + 1);
        assert(l.subrange(s, i + 1) =~= x);
        lemma_trim_last(x);
        if s < i && !unicode_white_space(cs[i - 1]) {
            lemma_trim_last2(x);
        }
        assert(!en_boundary(l, i));
        assert(en_pieces_from(l, s, i) == en_pieces_from(l, s, i + 1));
        assert(en_pieces_from(l, s, i + 1) == seq![trim(x)]);
        assert(en_pieces_from(cs, s, i) == seq![trim(x)] + rest);
    } else {
        lemma_boundary_sub(cs, 0, i + 1, p);
        assert(cs.subrange(0, i + 1) =~= l);
        if en_boundary(cs, p) {
            lemma_skip_ws_prefix(cs, i + 1, p + 1);
            lemma_skip_ws_bounds(cs, p + 1);
            let k = skip_ws(cs, p + 1);
            assert(skip_ws(l, p + 1) == k);
            assert(k != i);
            lemma_pieces_prefix(cs, i, k, k);
            let x = trim(cs.subrange(s, p + 1));
            assert(l.subrange(s, p + 1) =~= cs.subrange(s, p + 1));
            let a = en_pieces_from(l, k, k);
            if x.len() > 0 {
                assert(seq![x] + (a + rest) =~= (seq![x] + a) + rest);
                assert((seq![x] + a).last() == a.last());
            }
        } else {
            lemma_pieces_prefix(cs, i, s, p + 1);
        }
    }
}

/// Trimming the front stops at or before the non-whitespace character at
/// `m`.
proof fn lemma_trim_start_keeps(x: Seq<char>, m: int)
    requires
        0 <= m < x.len(),
        !unicode_white_space(x[m]),
    ensures
        exists|k: int| 0 <= k <= m && #[trigger] trim_start(x) == x.subrange(k, x.len() as int),
    decreases m,
{
    if unicode_white_space(x[0]) {
        let y = x.drop_first();
        assert(y[m - 1] == x[m]);
        lemma_trim_start_keeps(y, m - 1);
        let k = choose|k: int| 0 <= k <= m - 1 && #[trigger] trim_start(y) == y.subrange(k, y.len() as int);
        assert(y.subrange(k, y.len() as int) =~= x.subrange(k + 1, x.len() as int));
        assert(trim_start(x) == x.subrange(k + 1, x.len() as int));
    } else {
        assert(x.subrange(0, x.len() as int) =~= x);
        assert(trim_start(x) == x.subrange(0, x.len() as int));
    }
}

/// Trimming a text whose last two characters are not whitespace keeps
/// both.
proof fn lemma_trim_last2(x: Seq<char>)
    requires
        x.len() >= 2,
        !unicode_white_space(x[x.len() - 1]),
        !unicode_white_space(x[x.len() - 2]),
    ensures
        trim(x).len() >= 2,
        trim(x)[trim(x).len() - 2] == x[x.len() - 2],
{
    lemma_trim_start_keeps(x, x.len() - 2);
    let k = choose|k: int| 0 <= k <= x.len() - 2 && #[trigger] trim_start(x) == x.subrange(k, x.len() as int);
    let y = trim_start(x);
    assert(y.last() == x.last());
    assert(trim_end(y) == y);
    assert(y[y.len() - 2] == x[x.len() - 2]);
}

/// Trimming ignores a run of whitespace at the front.
proof fn lemma_trim_drop_ws(x: Seq<char>, d: int)
    requires
        0 <= d <= x.len(),
        forall|m: int| 0 <= m < d ==> unicode_white_space(#[trigger] x[m]),
    ensures
        trim(x) == trim(x.subrange(d, x.len() as int)),
    decreases d,
{
    if d == 0 {
        assert(x.subrange(0, x.len() as int) =~= x);
    } else {
        let y = x.drop_first();
        assert forall|m: int| 0 <= m < d - 1 implies unicode_white_space(#[trigger] y[m]) by {
            assert(y[m] == x[m + 1]);
        }
        lemma_trim_drop_ws(y, d - 1);
        assert(y.subrange(d - 1, y.len() as int) =~= x.subrange(d, x.len() as int));
        assert(unicode_white_space(x[0]));
        assert(trim_start(x) == trim_start(y));
    }
}

/// English pieces do not depend on where, in a leading run of whitespace,
/// the first piece starts.
proof fn lemma_pieces_ws_start(cs: Seq<char>, d: int, p: int)
    requires
        0 <= d <= p,
        d < cs.len(),
        forall|m: int| 0 <= m < d ==> unicode_white_space(#[trigger] cs[m]),
    ensures
        en_pieces_from(cs, 0, p) == en_pieces_from(cs, d, p),
    decreases cs.len() - p,
{
    if p >= cs.len() {
        let x = cs.subrange(0, cs.len() as int);
        assert forall|m: int| 0 <= m < d implies unicode_white_space(#[trigger] x[m]) by {
            assert(x[m] == cs[m]);
        }
        lemma_trim_drop_ws(x, d);
        assert(x.subrange(d, x.len() as int) =~= cs.subrange(d, cs.len() as int));
    } else if en_boundary(cs, p) {
        let x = cs.subrange(0, p + 1);
        assert forall|m: int| 0 <= m < d implies unicode_white_space(#[trigger] x[m]) by {
            assert(x[m] == cs[m]);
        }
        lemma_trim_drop_ws(x, d);
        assert(x.subrange(d, p + 1) =~= cs.subrange(d, p + 1));
    } else {
        lemma_pieces_ws_start(cs, d, p + 1);
    }
}

/// A character after which a period cannot close a known abbreviation:
/// neither whitespace, a period nor an ASCII letter.
pub open spec fn plain_word_end(c: char) -> bool {
    &&& !unicode_white_space(c)
    &&& c != '.'
    &&& !(0x41 <= c as u32 && c as u32 <= 0x5A)
    &&& !(0x61 <= c as u32 && c as u32 <= 0x7A)
}

/// `x` ends with `?` or `!`, or with a period that follows a character
/// after which no known abbreviation ends.
pub open spec fn plain_end(x: Seq<char>) -> bool {
    &&& x.len() > 0
    &&& (x.last() == '?' || x.last() == '!' || (x.last() == '.' && x.len() >= 2 && plain_word_end(
        x[x.len() - 2],
    )))
}

/// A text with a plain end does not end with an abbreviation.
proof fn lemma_no_abbrev_at_plain_end(s: Seq<char>)
    requires
        plain_end(s),
    ensures
        !ends_with_abbreviation(s),
{
    reveal_strlit("U.S.A");
    reveal_strlit("U.S");
    reveal_strlit("Dr");
    reveal_strlit("Mr");
    reveal_strlit("Mrs");
    reveal_strlit("Ms");
    reveal_strlit("vs");
    reveal_strlit("etc");
    reveal_strlit("Jr");
    reveal_strlit("Sr");
    reveal_strlit("e.g");
    reveal_strlit("i.e");
    let e = if s.last() == '.' {
        s.drop_last()
    } else {
        s
    };
    if s.last() == '.' {
        assert(e.last() == s[s.len() - 2]);
        assert(trim_end_ws_dots(e) == e);
    }
    assert(trim_end_ws_dots(s) == e);
    assert(e.len() > 0);
    let c = e.last();
    assert(!('A' <= c && c <= 'Z'));
    assert(ascii_lower_code(c) == c as u32);
    assert('a' as u32 == 97);
    assert(!(97 <= ascii_lower_code(c) <= 122));
    let tok = last_token(e);
    if !token_separator(c) {
        assert(tok == last_token(e.drop_last()).push(c));
    }
    assert forall|k: int| 0 <= k < en_abbreviations().len() implies !#[trigger] eq_ignore_ascii_case(
        tok,
        en_abbreviations()[k],
    ) by {
        let ab = en_abbreviations()[k];
        assert(ab.len() > 0);
        assert('a' <= ab.last() <= 'z' || 'A' <= ab.last() <= 'Z');
        if eq_ignore_ascii_case(tok, ab) {
            assert(ascii_lower_code(tok[tok.len() - 1]) == ascii_lower_code(ab[ab.len() - 1]));
        }
    }
}

/// Merging the pieces `a + b` from position `a.len() + m` on is merging
/// `b` from `m` on.
proof fn lemma_merge_shift(a: Seq<Seq<char>>, b: Seq<Seq<char>>, m: int, cur: Seq<char>)
    requires
        0 <= m,
    ensures
        en_merge_from(a + b, a.len() + m, cur) == en_merge_from(b, m, cur),
    decreases b.len() - m,
{
    let ab = a + b;
    if m + 1 < b.len() {
        assert(ab[a.len() + m + 1] == b[m + 1]);
        if ends_with_abbreviation(cur) {
            lemma_merge_shift(a, b, m + 1, cur + seq![' '] + b[m + 1]);
        } else {
            lemma_merge_shift(a, b, m + 1, b[m + 1]);
        }
    }
}

/// Pieces whose last one has a plain end merge apart from the pieces that
/// follow them.
proof fn lemma_merge_split(a: Seq<Seq<char>>, b: Seq<Seq<char>>, idx: int, cur: Seq<char>)
    requires
        0 <= idx < a.len(),
        plain_end(a.last()),
        idx == a.len() - 1 ==> plain_end(cur),
    ensures
        en_merge_from(a + b, idx, cur) == en_merge_from(a, idx, cur) + en_merge(b),
    decreases a.len() - idx,
{
    let ab = a + b;
    if idx == a.len() - 1 {
        lemma_no_abbrev_at_plain_end(cur);
        if b.len() > 0 {
            assert(ab[idx + 1] == b[0]);
            lemma_merge_shift(a, b, 0, b[0]);
            assert(en_merge_from(ab, idx, cur) == seq![cur] + en_merge_from(ab, idx + 1, b[0]));
        } else {
            assert(ab =~= a);
            assert(seq![cur] + Seq::<Seq<char>>::empty() =~= seq![cur]);
        }
    } else {
        assert(ab[idx + 1] == a[idx + 1]);
        if ends_with_abbreviation(cur) {
            let next = cur + seq![' '] + a[idx + 1];
            if idx + 1 == a.len() - 1 {
                assert(next.last() == a[idx + 1].last());
                if a.last().len() >= 2 {
                    assert(next[next.len() - 2] == a.last()[a.last().len() - 2]);
                }
            }
            lemma_merge_split(a, b, idx + 1, next);
        } else {
            lemma_merge_split(a, b, idx + 1, a[idx + 1]);
            assert(seq![cur] + (en_merge_from(a, idx + 1, a[idx + 1]) + en_merge(b)) =~= (seq![cur]
                + en_merge_from(a, idx + 1, a[idx + 1])) + en_merge(b));
        }
    }
}

/// The last merged sentence ends as the last piece does.
proof fn lemma_merge_last(a: Seq<Seq<char>>, idx: int, cur: Seq<char>)
    requires
        0 <= idx < a.len(),
        a.last().len() > 0,
        idx == a.len() - 1 ==> cur.len() > 0 && cur.last() == a.last().last(),
    ensures
        en_merge_from(a, idx, cur).len() > 0,
        en_merge_from(a, idx, cur).last().len() > 0,
        en_merge_from(a, idx, cur).last().last() == a.last().last(),
    decreases a.len() - idx,
{
    if idx + 1 < a.len() {
        if ends_with_abbreviation(cur) {
            let next = cur + seq![' '] + a[idx + 1];
            if idx + 1 == a.len() - 1 {
                assert(next.last() == a[idx + 1].last());
            }
            lemma_merge_last(a, idx + 1, next);
        } else {
            lemma_merge_last(a, idx + 1, a[idx + 1]);
            let rest = en_merge_from(a, idx + 1, a[idx + 1]);
            assert((seq![cur] + rest).last() == rest.last());
        }
    }
}

/// Under the English rules a terminator followed by whitespace and then
/// an uppercase ASCII letter or an ASCII digit ends a sentence when it is
/// `?` or `!`, or a period after a character that is neither whitespace,
/// a period nor an ASCII letter (so that no known abbreviation ends
/// there): the sentences of the text through that terminator, whose last
/// one ends with it, followed by those of the rest of the text, are the
/// sentences of the whole text.
pub proof fn law_en_terminator_ends_sentence(text: Seq<char>, i: int, j: int)
    requires
        0 <= i,
        i + 1 < j < text.len(),
        text[i] == '?' || text[i] == '!' || (text[i] == '.' && i >= 1 && plain_word_end(
            text[i - 1],
        )),
        forall|m: int| i < m < j ==> unicode_white_space(#[trigger] text[m]),
        ('A' <= text[j] && text[j] <= 'Z') || ('0' <= text[j] && text[j] <= '9'),
    ensures
        en_sentences(text.take(i + 1)).len() > 0,
        en_sentences(text.take(i + 1)).last().last() == text[i],
        en_sentences(text) == en_sentences(text.take(i + 1)) + en_sentences(
            text.subrange(i + 1, text.len() as int),
        ),
{
    lemma_skip_ws_run(text, i + 1, j);
    assert(en_boundary(text, i));
    lemma_pieces_prefix(text, i, 0, 0);
    let l = text.take(i + 1);
    let r = text.subrange(i + 1, text.len() as int);
    let pl = en_pieces(l);
    assert(plain_end(pl.last()));
    let d = j - (i + 1);
    lemma_pieces_shift(text, i + 1, d, d);
    assert forall|m: int| 0 <= m < d implies unicode_white_space(#[trigger] r[m]) by {
        assert(r[m] == text[i + 1 + m]);
    }
    assert forall|q: int| 0 <= q < d implies !en_boundary(r, q) by {
        assert(unicode_white_space(r[q]));
    }
    lemma_walk(r, 0, 0, d);
    lemma_pieces_ws_start(r, d, d);
    let pr = en_pieces(r);
    assert(en_pieces(text) == pl + pr);
    assert((pl + pr)[0] == pl[0]);
    lemma_merge_split(pl, pr, 0, pl[0]);
    lemma_merge_last(pl, 0, pl[0]);
}
} // verus!
