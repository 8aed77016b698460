//! HTML post-processing for proxied pages: removal of Content-Security-
//! Policy `<meta>` tags, injection of the client script before `</body>`,
//! pairing of sentences with their translations, and replacement of
//! article bodies by their bilingual rendering.

use vstd::prelude::*;
use crate::bilingual::{bilingual_html, render_bilingual_div, zh_style, BilingualSentence};
use crate::sentence::{eq_ignore_ascii_case, eq_ignore_ascii_case_at, sentences_of, split_sentences, LanguageHint};
use crate::chars::{chars_of, string_from_chars, sub_chars, views};
use crate::search::{
    contains_ci, contains_ci_in, find, find_ci, find_ci_from, find_from, lemma_find_ci_from_ge,
    lemma_find_from_some, occurs_at,
};

verus! {

/// Number of bytes in the UTF-8 encoding of `s` (`str::len`).
pub open spec fn utf8_len(s: Seq<char>) -> nat {
    vstd::utf8::encode_utf8(s).len()
}

/// Total UTF-8 length of the strings `ss`.
pub open spec fn utf8_total(ss: Seq<Seq<char>>) -> nat
    decreases ss.len(),
{
    if ss.len() == 0 {
        0
    } else {
        utf8_total(ss.drop_last()) + utf8_len(ss.last())
    }
}

/// Pair `src` and `zh` into sentence pairs (as many as the shorter list
/// holds), each carrying the byte range of its source sentence in the
/// concatenation of the source sentences.
pub fn pair_bilingual(src: Vec<String>, zh: Vec<String>) -> (out: Vec<BilingualSentence>)
    requires
        utf8_total(views(src@).take(if src@.len() <= zh@.len() {
            src@.len() as int
        } else {
            zh@.len() as int
        })) <= usize::MAX,
    ensures
        out@.len() == if src@.len() <= zh@.len() {
            src@.len()
        } else {
            zh@.len()
        },
        forall|k: int|
            0 <= k < out@.len() ==> {
                &&& (#[trigger] out@[k]).src@ == src@[k]@
                &&& out@[k].zh@ == zh@[k]@
                &&& out@[k].src_start == utf8_total(views(src@).take(k))
                &&& out@[k].src_end == utf8_total(views(src@).take(k + 1))
            },
{
    let n = if src.len() <= zh.len() {
        src.len()
    } else {
        zh.len()
    };
    let ghost sv = views(src@);
    let mut out: Vec<BilingualSentence> = Vec::new();
    let mut offset: usize = 0;
    let mut i: usize = 0;
    while i < n
        invariant
            n <= src@.len(),
            n <= zh@.len(),
            sv == views(src@),
            utf8_total(sv.take(n as int)) <= usize::MAX,
            i <= n,
            out@.len() == i,
            offset == utf8_total(sv.take(i as int)),
            forall|k: int|
                0 <= k < i ==> {
                    &&& (#[trigger] out@[k]).src@ == src@[k]@
                    &&& out@[k].zh@ == zh@[k]@
                    &&& out@[k].src_start == utf8_total(sv.take(k))
                    &&& out@[k].src_end == utf8_total(sv.take(k + 1))
                },
        decreases n - i,
    {
        let s = src[i].clone();
        let z = zh[i].clone();
        let start = offset;
        proof {
            assert(sv.take(i + 1).drop_last() =~= sv.take(i as int));
            assert(sv.take(i + 1).last() == s@);
            lemma_utf8_total_prefix(sv, i + 1, n as int);
        }
        offset = offset + s.as_str().len();
        out.push(BilingualSentence { src: s, zh: z, src_start: start, src_end: offset });
        i = i + 1;
    }
    out
}

/// The pairs' byte ranges tile the concatenated source text: the first
/// starts at 0, each ends where the next starts, and each spans its
/// sentence's UTF-8 length.
pub proof fn law_pair_offsets_contiguous(src: Seq<Seq<char>>, k: int)
    requires
        0 <= k < src.len(),
    ensures
        utf8_total(src.take(0)) == 0,
        utf8_total(src.take(k + 1)) == utf8_total(src.take(k)) + utf8_len(src[k]),
{
    assert(src.take(k + 1).drop_last() =~= src.take(k));
}

proof fn lemma_utf8_total_prefix(ss: Seq<Seq<char>>, i: int, n: int)
    requires
        0 <= i <= n <= ss.len(),
    ensures
        utf8_total(ss.take(i)) <= utf8_total(ss.take(n)),
    decreases n - i,
{
    if i < n {
        lemma_utf8_total_prefix(ss, i, n - 1);
        assert(ss.take(n).drop_last() =~= ss.take(n - 1));
    }
}

/// A `<meta>` tag (lowercased) that sets a Content-Security-Policy.
pub open spec fn is_csp_meta(tag: Seq<char>) -> bool {
    contains_ci(tag, "http-equiv"@) && contains_ci(tag, "content-security-policy"@)
}

/// `html[p..]` with every Content-Security-Policy `<meta ...>` tag
/// removed; `<meta` is matched ignoring ASCII case, a tag runs to the
/// first `>` after it, and scanning stops at a `<meta` with no `>`.
pub open spec fn strip_csp_from(html: Seq<char>, p: int) -> Seq<char>
    decreases html.len() + 1 - p,
{
    if p < 0 || p > html.len() {
        Seq::empty()
    } else {
        match find_ci_from(html, "<meta"@, p) {
            None => html.subrange(p, html.len() as int),
            Some(a) => match find_from(html, ">"@, a) {
                None => html.subrange(p, html.len() as int),
                Some(e) => {
                    proof {
                        lemma_find_ci_from_ge(html, "<meta"@, p);
                        lemma_find_from_some(html, ">"@, a);
                    }
                    if is_csp_meta(html.subrange(a, e + 1)) {
                        html.subrange(p, a) + strip_csp_from(html, e + 1)
                    } else {
                        html.subrange(p, e + 1) + strip_csp_from(html, e + 1)
                    }
                },
            },
        }
    }
}

/// Remove every `<meta http-equiv="Content-Security-Policy" ...>` tag from
/// `html` (case-insensitive); other tags are kept verbatim.
pub fn strip_csp_meta_tags(html: &str) -> (out: String)
    ensures
        out@ == strip_csp_from(html@, 0),
{
    let cs = chars_of(html);
    let n = cs.len();
    let meta = chars_of("<meta");
    let gt = chars_of(">");
    let equiv = chars_of("http-equiv");
    let csp = chars_of("content-security-policy");
    proof {
        reveal_strlit(">");
        reveal_strlit("<meta");
    }
    let mut out: Vec<char> = Vec::new();
    let mut last_end: usize = 0;
    let mut search_from: usize = 0;
    loop
        invariant
            n == cs@.len(),
            meta@ == "<meta"@,
            gt@ == ">"@,
            equiv@ == "http-equiv"@,
            csp@ == "content-security-policy"@,
            last_end <= search_from <= n,
            out@ + cs@.subrange(last_end as int, search_from as int) + strip_csp_from(
                cs@,
                search_from as int,
            ) == strip_csp_from(cs@, 0),
        ensures
            last_end <= search_from <= n,
            out@ + cs@.subrange(last_end as int, search_from as int) + cs@.subrange(
                search_from as int,
                n as int,
            ) == strip_csp_from(cs@, 0),
        decreases n - search_from,
    {
        let ghost pending = cs@.subrange(last_end as int, search_from as int);
        let a = match find_ci(&cs, &meta, search_from) {
            Some(a) => a,
            None => break,
        };
        proof {
            lemma_find_ci_from_ge(cs@, meta@, search_from as int);
        }
        let e = match find(&cs, &gt, a) {
            Some(e) => e,
            None => break,
        };
        proof {
            lemma_find_from_some(cs@, gt@, a as int);
            reveal_strlit(">");
        }
        let is_csp = contains_ci_in(&cs, a, e + 1, &equiv) && contains_ci_in(&cs, a, e + 1, &csp);
        let ghost rest = strip_csp_from(cs@, e + 1);
        if is_csp {
            let seg = sub_chars(&cs, last_end, a);
            let mut seg = seg;
            out.append(&mut seg);
            assert(cs@.subrange(last_end as int, a as int) =~= pending + cs@.subrange(
                search_from as int,
                a as int,
            ));
            assert(cs@.subrange(e + 1, e + 1) =~= Seq::<char>::empty());
            assert(out@ + cs@.subrange(e + 1, e + 1) + rest =~= out@ + rest);
            last_end = e + 1;
        } else {
            assert(pending + cs@.subrange(search_from as int, e + 1) =~= cs@.subrange(
                last_end as int,
                e + 1,
            ));
        }
        search_from = e + 1;
    }
    let ghost kept = out@;
    let mut tail = sub_chars(&cs, last_end, n);
    out.append(&mut tail);
    assert(cs@.subrange(last_end as int, search_from as int) + cs@.subrange(
        search_from as int,
        n as int,
    ) =~= cs@.subrange(last_end as int, n as int));
    assert(out@ =~= kept + cs@.subrange(last_end as int, n as int));
    assert(out@ =~= strip_csp_from(cs@, 0));
    string_from_chars(out.as_slice())
}

/// The client script tag injected into proxied pages.
pub open spec fn inject_script() -> Seq<char> {
    "<script src=\"/_inject_rs.js\"></script>"@
}

/// `html` with the script tag inserted before the first `</body>`, or
/// appended when there is none.
pub open spec fn with_script(html: Seq<char>) -> Seq<char> {
    match find_from(html, "</body>"@, 0) {
        None => html + inject_script(),
        Some(p) => html.subrange(0, p) + inject_script() + html.subrange(p, html.len() as int),
    }
}

/// Insert the client script tag immediately before the first `</body>`;
/// append it when `html` has no `</body>`.
pub fn inject_script_tag(html: &str) -> (out: String)
    ensures
        out@ == with_script(html@),
{
    let cs = chars_of(html);
    let body = chars_of("</body>");
    let mut tag = chars_of("<script src=\"/_inject_rs.js\"></script>");
    match find(&cs, &body, 0) {
        None => {
            let mut out = sub_chars(&cs, 0, cs.len());
            out.append(&mut tag);
            assert(cs@.subrange(0, cs@.len() as int) =~= cs@);
            string_from_chars(out.as_slice())
        },
        Some(p) => {
            proof {
                lemma_find_from_some(cs@, body@, 0);
            }
            let mut out = sub_chars(&cs, 0, p);
            out.append(&mut tag);
            let mut rest = sub_chars(&cs, p, cs.len());
            out.append(&mut rest);
            string_from_chars(out.as_slice())
        },
    }
}


/// `s` with the first occurrence of `pat` replaced by `with`; `s` itself
/// when `pat` does not occur (`str::replacen` with a count of one).
pub open spec fn replace_first(s: Seq<char>, pat: Seq<char>, with: Seq<char>) -> Seq<char> {
    match find_from(s, pat, 0) {
        None => s,
        Some(p) => s.subrange(0, p) + with + s.subrange(p + pat.len(), s.len() as int),
    }
}

/// Replace the first occurrence of `pat` in `s` by `with`.
pub fn replace_once(s: &str, pat: &str, with: &str) -> (r: String)
    ensures
        r@ == replace_first(s@, pat@, with@),
{
    let cs = chars_of(s);
    let pc = chars_of(pat);
    match find(&cs, &pc, 0) {
        None => string_from_chars(cs.as_slice()),
        Some(p) => {
            let n = cs.len();
            proof {
                lemma_find_from_some(cs@, pc@, 0);
            }
            let mut out = sub_chars(&cs, 0, p);
            let mut w = chars_of(with);
            out.append(&mut w);
            let mut rest = sub_chars(&cs, p + pc.len(), n);
            out.append(&mut rest);
            string_from_chars(out.as_slice())
        },
    }
}

/// HTML of one (source, translation) pair, as `render_bilingual_div`
/// renders it.
pub open spec fn pair_html(src: Seq<char>, zh: Seq<char>) -> Seq<char> {
    "<div class=\"sentence\">"@ + "<p>"@ + src + "</p>"@ + "<p class=\"sentence--zh\" style=\""@
        + zh_style() + "\">"@ + zh + "</p>"@ + "</div>"@
}

/// HTML of the first `n` pairs of `src` and `zh`.
pub open spec fn pairs_html(src: Seq<Seq<char>>, zh: Seq<Seq<char>>, n: nat) -> Seq<char>
    decreases n,
{
    if n == 0 {
        Seq::empty()
    } else {
        pairs_html(src, zh, (n - 1) as nat) + pair_html(src[n - 1], zh[n - 1])
    }
}

/// The smaller of two lengths.
pub open spec fn min_len(a: nat, b: nat) -> nat {
    if a <= b {
        a
    } else {
        b
    }
}

/// `html` after the bilingual rendering of one article element: with
/// sentences and their translations, the element's inner HTML is replaced
/// by the rendered pairs and the element is replaced in the page. Without
/// sentences, without a translation, with no pair, or when the inner HTML
/// does not occur in the element's HTML, the page stays as it is.
pub open spec fn bilingual_injected(
    html: Seq<char>,
    outer: Seq<char>,
    inner: Seq<char>,
    src: Seq<Seq<char>>,
    zh: Option<Seq<Seq<char>>>,
) -> Seq<char> {
    if src.len() == 0 {
        html
    } else {
        match zh {
            None => html,
            Some(z) => {
                let n = min_len(src.len(), z.len());
                let new_outer = replace_first(outer, inner, pairs_html(src, z, n));
                if n == 0 || new_outer == outer {
                    html
                } else {
                    replace_first(html, outer, new_outer)
                }
            },
        }
    }
}

/// The rendering of paired sentences depends on their texts only.
proof fn lemma_rendered_pairs(out: Seq<BilingualSentence>, src: Seq<Seq<char>>, zh: Seq<Seq<char>>, n: nat)
    requires
        n <= out.len(),
        n <= src.len(),
        n <= zh.len(),
        forall|k: int| 0 <= k < n ==> (#[trigger] out[k]).src@ == src[k] && out[k].zh@ == zh[k],
    ensures
        bilingual_html(out.take(n as int)) == pairs_html(src, zh, n),
    decreases n,
{
    if n > 0 {
        lemma_rendered_pairs(out, src, zh, (n - 1) as nat);
        assert(out.take(n as int).drop_last() =~= out.take(n - 1));
        assert(out[n - 1].src@ == src[n - 1]);
    }
}

/// Apply the bilingual rendering of one article element to `html`:
/// `outer` and `inner` are the element's HTML and inner HTML, `sentences`
/// the sentences of its text, and `zh` their translations (`None` when
/// translation failed).
pub fn inject_translation(
    html: String,
    outer: &str,
    inner: &str,
    sentences: Vec<String>,
    zh: Option<Vec<String>>,
) -> (r: String)
    requires
        zh matches Some(z) ==> utf8_total(views(sentences@).take(
            min_len(sentences@.len(), z@.len()) as int,
        )) <= usize::MAX,
    ensures
        r@ == bilingual_injected(
            html@,
            outer@,
            inner@,
            views(sentences@),
            match zh {
                Some(z) => Some(views(z@)),
                None => None,
            },
        ),
{
    if sentences.len() == 0 {
        return html;
    }
    let zh = match zh {
        None => return html,
        Some(z) => z,
    };
    let ghost sv = views(sentences@);
    let ghost zv = views(zh@);
    let ghost n = min_len(sentences@.len(), zh@.len());
    let pairs = pair_bilingual(sentences, zh);
    if pairs.len() == 0 {
        return html;
    }
    let rendered = render_bilingual_div(pairs.as_slice());
    proof {
        lemma_rendered_pairs(pairs@, sv, zv, n);
        assert(pairs@.take(n as int) =~= pairs@);
    }
    let new_outer = replace_once(outer, inner, rendered.as_str());
    if new_outer == String::from_str(outer) {
        return html;
    }
    replace_once(html.as_str(), outer, new_outer.as_str())
}

/// The texts of the elements of `html` that `selector` matches, in
/// document order; nothing when the selector does not parse.
pub uninterp spec fn html_select_texts(html: Seq<char>, selector: Seq<char>) -> Seq<Seq<char>>;

/// `scraper::Html::parse_document` of `html`, `scraper::Selector::parse`
/// of `selector`, and `select`: for each matching element its HTML, inner
/// HTML and concatenated text. An unparsable selector gives no element.
/// The elements' texts, and so their number, are what `html_select_texts`
/// names; nothing is stated of the HTML, in which `scraper` writes the
/// attributes of an element in an order that can change from one parse to
/// the next.
#[verifier::external_body]
fn select_elements(html: &str, selector: &str) -> (r: Vec<(String, String, String)>)
    ensures
        r@.map_values(|e: (String, String, String)| e.2@) == html_select_texts(html@, selector@),
{
    let document = scraper::Html::parse_document(html);
    let Ok(sel) = scraper::Selector::parse(selector) else {
        return Vec::new();
    };
    document.select(&sel).map(|el| (el.html(), el.inner_html(), el.text().collect::<Vec<_>>().join(""))).collect()
}

/// The selector of the article bodies that get a bilingual rendering.
pub open spec fn article_selector() -> Seq<char> {
    ".entry-content, .article-content"@
}

/// The article elements of `html` as (HTML, inner HTML, sentences of the
/// text split with language detection), in document order. The HTML of an
/// element is as `scraper` writes it, its attributes in no fixed order.
pub fn bilingual_targets(html: &str) -> (r: Vec<(String, String, Vec<String>)>)
    ensures
        r@.len() == html_select_texts(html@, article_selector()).len(),
        forall|k: int|
            0 <= k < r@.len() ==> views((#[trigger] r@[k]).2@) == sentences_of(
                html_select_texts(html@, article_selector())[k],
                LanguageHint::Detect,
            ),
{
    let els = select_elements(html, ".entry-content, .article-content");
    let ghost tv = els@.map_values(|e: (String, String, String)| e.2@);
    let mut out: Vec<(String, String, Vec<String>)> = Vec::new();
    let mut i: usize = 0;
    while i < els.len()
        invariant
            i <= els@.len(),
            tv == els@.map_values(|e: (String, String, String)| e.2@),
            tv == html_select_texts(html@, article_selector()),
            out@.len() == i,
            forall|k: int|
                0 <= k < i ==> views((#[trigger] out@[k]).2@) == sentences_of(tv[k], LanguageHint::Detect),
        decreases els@.len() - i,
    {
        let sentences = split_sentences(els[i].2.as_str(), LanguageHint::Detect);
        out.push((els[i].0.clone(), els[i].1.clone(), sentences));
        i = i + 1;
    }
    out
}


/// The views of a list of (name, value) headers.
pub open spec fn headers_view(hs: Seq<(String, String)>) -> Seq<(Seq<char>, Seq<char>)> {
    hs.map_values(|h: (String, String)| (h.0@, h.1@))
}

/// The value of the first header whose name is `name` up to ASCII case.
pub open spec fn header_value(hs: Seq<(Seq<char>, Seq<char>)>, name: Seq<char>) -> Option<Seq<char>>
    decreases hs.len(),
{
    if hs.len() == 0 {
        None
    } else if eq_ignore_ascii_case(hs[0].0, name) {
        Some(hs[0].1)
    } else {
        header_value(hs.drop_first(), name)
    }
}

/// A proxied response is post-processed when its status is 200 and its
/// first `content-type` header, lowercased, contains `text/html`.
pub open spec fn proxy_post_processes(status: u16, hs: Seq<(Seq<char>, Seq<char>)>) -> bool {
    status == 200 && match header_value(hs, "content-type"@) {
        Some(v) => contains_ci(v, "text/html"@),
        None => false,
    }
}

/// The headers passed on, in order: when the body is rewritten, all but
/// `content-security-policy` and `content-length` (names compared up to
/// ASCII case); otherwise all of them.
pub open spec fn kept_headers(hs: Seq<(Seq<char>, Seq<char>)>, rewritten: bool) -> Seq<(Seq<char>, Seq<char>)>
    decreases hs.len(),
{
    if hs.len() == 0 {
        Seq::empty()
    } else {
        let prev = kept_headers(hs.drop_last(), rewritten);
        let name = hs.last().0;
        if rewritten && (eq_ignore_ascii_case(name, "content-security-policy"@) || eq_ignore_ascii_case(
            name,
            "content-length"@,
        )) {
            prev
        } else {
            prev.push(hs.last())
        }
    }
}

/// A response that is not rewritten keeps every header.
proof fn lemma_kept_all(hs: Seq<(Seq<char>, Seq<char>)>)
    ensures
        kept_headers(hs, false) == hs,
    decreases hs.len(),
{
    if hs.len() > 0 {
        lemma_kept_all(hs.drop_last());
        assert(hs.drop_last().push(hs.last()) =~= hs);
    }
}

/// Whether `name` equals `lit` up to ASCII case.
fn name_is(name: &String, lit: &str) -> (r: bool)
    ensures
        r == eq_ignore_ascii_case(name@, lit@),
{
    let n = chars_of(name.as_str());
    let l = chars_of(lit);
    assert(n@.subrange(0, n@.len() as int) =~= n@);
    eq_ignore_ascii_case_at(&n, 0, n.len(), &l)
}

/// Decide how a proxied response is passed on: whether its body is
/// post-processed (status 200 with a `text/html` content type), and the
/// headers to send: a post-processed response drops
/// `content-security-policy` and `content-length`, any other keeps all
/// its headers unchanged.
pub fn plan_proxy_response(status: u16, headers: Vec<(String, String)>) -> (r: (bool, Vec<(String, String)>))
    ensures
        r.0 == proxy_post_processes(status, headers_view(headers@)),
        headers_view(r.1@) == kept_headers(headers_view(headers@), r.0),
        !r.0 ==> headers_view(r.1@) == headers_view(headers@),
{
    let ghost hv = headers_view(headers@);
    let mut i: usize = 0;
    assert(hv.subrange(0, hv.len() as int) =~= hv);
    while i < headers.len() && !name_is(&headers[i].0, "content-type")
        invariant
            i <= headers@.len(),
            hv == headers_view(headers@),
            header_value(hv, "content-type"@) == header_value(
                hv.subrange(i as int, hv.len() as int),
                "content-type"@,
            ),
        decreases headers@.len() - i,
    {
        let ghost rest = hv.subrange(i as int, hv.len() as int);
        assert(rest[0] == (headers@[i as int].0@, headers@[i as int].1@));
        assert(rest.drop_first() =~= hv.subrange(i + 1, hv.len() as int));
        i = i + 1;
    }
    let html = if i < headers.len() {
        let ghost rest = hv.subrange(i as int, hv.len() as int);
        assert(rest[0] == (headers@[i as int].0@, headers@[i as int].1@));
        let v = chars_of(headers[i].1.as_str());
        let pat = chars_of("text/html");
        assert(v@.subrange(0, v@.len() as int) =~= v@);
        status == 200 && contains_ci_in(&v, 0, v.len(), &pat)
    } else {
        assert(hv.subrange(i as int, hv.len() as int) =~= Seq::<(Seq<char>, Seq<char>)>::empty());
        false
    };
    let mut kept: Vec<(String, String)> = Vec::new();
    let mut j: usize = 0;
    assert(hv.take(0) =~= Seq::<(Seq<char>, Seq<char>)>::empty());
    assert(headers_view(kept@) =~= Seq::<(Seq<char>, Seq<char>)>::empty());
    while j < headers.len()
        invariant
            j <= headers@.len(),
            hv == headers_view(headers@),
            headers_view(kept@) == kept_headers(hv.take(j as int), html),
        decreases headers@.len() - j,
    {
        assert(hv.take(j + 1).drop_last() =~= hv.take(j as int));
        assert(hv.take(j + 1).last() == (headers@[j as int].0@, headers@[j as int].1@));
        let drop = html && (name_is(&headers[j].0, "content-security-policy") || name_is(
            &headers[j].0,
            "content-length",
        ));
        if !drop {
            let ghost before = headers_view(kept@);
            kept.push((headers[j].0.clone(), headers[j].1.clone()));
            assert(headers_view(kept@) =~= before.push((headers@[j as int].0@, headers@[j as int].1@)));
        }
        j = j + 1;
    }
    assert(hv.take(headers@.len() as int) =~= hv);
    proof {
        lemma_kept_all(hv);
    }
    (html, kept)
}

} // verus!
