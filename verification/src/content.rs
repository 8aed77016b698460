//! Full-article extraction with `readability`, for feeds that only ship
//! summaries.

use vstd::prelude::*;
use vstd::string::StringExecFns;
use crate::feed::{FeedEngineError, FeedEngineErrorView};

verus! {

/// What extracting the readable content of a page gave.
pub enum Extracted {
    /// The article body's HTML.
    Content(String),
    /// The page URL did not parse; the `url` error message.
    BadUrl(String),
    /// Extraction failed; the `readability` error message.
    Failed(String),
}

/// The view of an [`Extracted`].
pub enum ExtractedView {
    /// Article body.
    Content(Seq<char>),
    /// Unparsable URL, with the message.
    BadUrl(Seq<char>),
    /// Failed extraction, with the message.
    Failed(Seq<char>),
}

impl View for Extracted {
    type V = ExtractedView;

    open spec fn view(&self) -> ExtractedView {
        match self {
            Extracted::Content(s) => ExtractedView::Content(s@),
            Extracted::BadUrl(s) => ExtractedView::BadUrl(s@),
            Extracted::Failed(s) => ExtractedView::Failed(s@),
        }
    }
}

/// What `readability` extracts from the page `html` fetched from `url`.
pub uninterp spec fn readable_extract(html: Seq<u8>, url: Seq<char>) -> ExtractedView;

/// `reqwest::Url::parse` of `url`, then `readability::extractor::extract`
/// on the page bytes with that URL: the article body's HTML, or the
/// display text of the error of either call. The result is what
/// `readable_extract` names for the bytes and the URL text.
#[verifier::external_body]
fn extract_readable(html: &[u8], url: &str) -> (r: Extracted)
    ensures
        r@ == readable_extract(html@, url@),
{
    let parsed = match reqwest::Url::parse(url) {
        Ok(u) => u,
        Err(e) => return Extracted::BadUrl(e.to_string()),
    };
    match readability::extractor::extract(&mut std::io::Cursor::new(html), &parsed) {
        Ok(doc) => Extracted::Content(doc.content),
        Err(e) => Extracted::Failed(e.to_string()),
    }
}

/// The result an extraction comes to: an unparsable URL is a `Network`
/// error "invalid url: <message>", a failed extraction a `Parse` error.
pub open spec fn extraction_result(ex: ExtractedView) -> Result<Seq<char>, FeedEngineErrorView> {
    match ex {
        ExtractedView::Content(c) => Ok(c),
        ExtractedView::BadUrl(m) => Err(FeedEngineErrorView::Network("invalid url: "@ + m)),
        ExtractedView::Failed(m) => Err(FeedEngineErrorView::Parse(m)),
    }
}

/// The view of a text result of the feed engine.
pub open spec fn text_result(r: Result<String, FeedEngineError>) -> Result<Seq<char>, FeedEngineErrorView> {
    match r {
        Ok(s) => Ok(s@),
        Err(e) => Err(e@),
    }
}

/// The result of an extraction that gave `ex`.
pub fn content_of(ex: Extracted) -> (r: Result<String, FeedEngineError>)
    ensures
        text_result(r) == extraction_result(ex@),
{
    match ex {
        Extracted::Content(c) => Ok(c),
        Extracted::BadUrl(m) => {
            let mut msg = String::from_str("invalid url: ");
            msg.append(m.as_str());
            Err(FeedEngineError::Network(msg))
        },
        Extracted::Failed(m) => Err(FeedEngineError::Parse(m)),
    }
}

/// Extract the sanitized article body from the page `html` fetched from
/// `url`.
pub fn extract_from_html(html: &[u8], url: &str) -> (r: Result<String, FeedEngineError>)
    ensures
        text_result(r) == extraction_result(readable_extract(html@, url@)),
{
    let ex = extract_readable(html, url);
    content_of(ex)
}

} // verus!
