//! Bilingual (source / Chinese translation) sentence pairs and their HTML
//! rendering: one `<div class="sentence">` per pair, with the translation
//! in a blue-accented `sentence--zh` paragraph.

use vstd::prelude::*;
use vstd::string::StringExecFns;

verus! {

/// A source sentence, its Chinese translation, and the byte range of the
/// source sentence in the concatenated source text (start inclusive, end
/// exclusive).
#[derive(Debug, Clone, PartialEq, Eq)]
pub struct BilingualSentence {
    /// Original-language sentence.
    pub src: String,
    /// Chinese translation.
    pub zh: String,
    /// Inclusive byte start offset into the concatenated source text.
    pub src_start: usize,
    /// Exclusive byte end offset into the concatenated source text.
    pub src_end: usize,
}

/// Inline style of the translation paragraph.
pub open spec fn zh_style() -> Seq<char> {
    "border-left:3px solid #3f87ff;padding-left:8px;color:#0066cc;"@
}

/// HTML of one pair:
/// `<div class="sentence"><p>SRC</p><p class="sentence--zh" style="STYLE">ZH</p></div>`.
pub open spec fn sentence_html(s: BilingualSentence) -> Seq<char> {
    "<div class=\"sentence\">"@ + "<p>"@ + s.src@ + "</p>"@ + "<p class=\"sentence--zh\" style=\""@
        + zh_style() + "\">"@ + s.zh@ + "</p>"@ + "</div>"@
}

/// HTML of all pairs, concatenated in order with no separator.
pub open spec fn bilingual_html(ss: Seq<BilingualSentence>) -> Seq<char>
    decreases ss.len(),
{
    if ss.len() == 0 {
        Seq::empty()
    } else {
        bilingual_html(ss.drop_last()) + sentence_html(ss.last())
    }
}

/// Render `sentences` as HTML. Empty input gives the empty string.
pub fn render_bilingual_div(sentences: &[BilingualSentence]) -> (out: String)
    ensures
        out@ == bilingual_html(sentences@),
{
    let mut out = String::new();
    let mut i: usize = 0;
    while i < sentences.len()
        invariant
            i <= sentences@.len(),
            out@ == bilingual_html(sentences@.take(i as int)),
        decreases sentences@.len() - i,
    {
        let s = &sentences[i];
        let ghost before = out@;
        out.append("<div class=\"sentence\">");
        out.append("<p>");
        out.append(s.src.as_str());
        out.append("</p>");
        out.append("<p class=\"sentence--zh\" style=\"");
        out.append("border-left:3px solid #3f87ff;padding-left:8px;color:#0066cc;");
        out.append("\">");
        out.append(s.zh.as_str());
        out.append("</p>");
        out.append("</div>");
        assert(sentences@.take(i + 1).drop_last() =~= sentences@.take(i as int));
        assert(out@ =~= before + sentence_html(sentences@[i as int]));
        i = i + 1;
    }
    assert(sentences@.take(sentences@.len() as int) =~= sentences@);
    out
}

/// Rendering a concatenation of pair lists gives the concatenation of
/// their renderings.
pub proof fn law_bilingual_html_concat(a: Seq<BilingualSentence>, b: Seq<BilingualSentence>)
    ensures
        bilingual_html(a + b) == bilingual_html(a) + bilingual_html(b),
    decreases b.len(),
{
    if b.len() == 0 {
        assert(a + b =~= a);
        assert(bilingual_html(a) + Seq::<char>::empty() =~= bilingual_html(a));
    } else {
        law_bilingual_html_concat(a, b.drop_last());
        assert((a + b).drop_last() =~= a + b.drop_last());
        assert(bilingual_html(a) + bilingual_html(b.drop_last()) + sentence_html(b.last())
            =~= bilingual_html(a) + (bilingual_html(b.drop_last()) + sentence_html(b.last())));
    }
}

} // verus!
