//! RSS / Atom feed documents: parsing with `feed-rs`, and turning the
//! parsed document into the feed and articles that the store keeps.

use vstd::prelude::*;
use vstd::string::StringExecFns;
use crate::chars::decimal;
use crate::epub::or_empty;
use feed_rs::model::Feed as RssFeed;

verus! {

/// Errors of the feed engine.
#[derive(Debug, Clone, PartialEq, Eq)]
pub enum FeedEngineError {
    /// The HTTP request failed.
    Network(String),
    /// The upstream answered with a non-success HTTP status.
    UpstreamStatus(u16),
    /// The document could not be parsed.
    Parse(String),
    /// The feed store failed.
    Store(String),
}

/// The view of a [`FeedEngineError`].
pub enum FeedEngineErrorView {
    /// Network failure.
    Network(Seq<char>),
    /// Non-success status.
    UpstreamStatus(u16),
    /// Parse failure.
    Parse(Seq<char>),
    /// Store failure.
    Store(Seq<char>),
}

impl View for FeedEngineError {
    type V = FeedEngineErrorView;

    open spec fn view(&self) -> FeedEngineErrorView {
        match self {
            FeedEngineError::Network(m) => FeedEngineErrorView::Network(m@),
            FeedEngineError::UpstreamStatus(c) => FeedEngineErrorView::UpstreamStatus(*c),
            FeedEngineError::Parse(m) => FeedEngineErrorView::Parse(m@),
            FeedEngineError::Store(m) => FeedEngineErrorView::Store(m@),
        }
    }
}

/// The display text of a feed engine error.
pub open spec fn feed_error_text(e: FeedEngineErrorView) -> Seq<char> {
    match e {
        FeedEngineErrorView::Network(m) => "network error: "@ + m,
        FeedEngineErrorView::UpstreamStatus(c) => "upstream returned HTTP "@ + decimal(c as nat),
        FeedEngineErrorView::Parse(m) => "feed parse error: "@ + m,
        FeedEngineErrorView::Store(m) => "store error: "@ + m,
    }
}

impl FeedEngineError {
    /// The human-readable message of this error.
    pub fn message(&self) -> (r: String)
        ensures
            r@ == feed_error_text(self@),
    {
        match self {
            FeedEngineError::Network(m) => {
                let mut r = String::from_str("network error: ");
                r.append(m.as_str());
                r
            },
            FeedEngineError::UpstreamStatus(c) => {
                let mut v: Vec<char> = Vec::new();
                crate::chars::push_decimal(&mut v, *c as usize);
                assert(v@ =~= decimal(*c as nat));
                let d = crate::chars::string_from_chars(v.as_slice());
                let mut r = String::from_str("upstream returned HTTP ");
                r.append(d.as_str());
                r
            },
            FeedEngineError::Parse(m) => {
                let mut r = String::from_str("feed parse error: ");
                r.append(m.as_str());
                r
            },
            FeedEngineError::Store(m) => {
                let mut r = String::from_str("store error: ");
                r.append(m.as_str());
                r
            },
        }
    }
}

/// A link of a feed or entry.
#[derive(Debug, Clone, PartialEq, Eq)]
pub struct FeedLink {
    /// Target URL.
    pub href: String,
    /// Relation (`alternate`, `self`, ...), if given.
    pub rel: Option<String>,
}

/// An entry of a parsed feed document, with the fields the engine reads.
#[derive(Debug, Clone, PartialEq, Eq)]
pub struct FeedEntryDoc {
    /// Entry id (RSS guid or Atom id).
    pub id: String,
    /// Title text, if any.
    pub title: Option<String>,
    /// Links, in document order.
    pub links: Vec<FeedLink>,
    /// Author names, in document order.
    pub authors: Vec<String>,
    /// Summary text, if any.
    pub summary: Option<String>,
    /// Body of the entry's content, if any.
    pub content_body: Option<String>,
    /// Publication time (RFC 3339, UTC), if given.
    pub published: Option<String>,
    /// Last update time (RFC 3339, UTC), if given.
    pub updated: Option<String>,
}

/// A parsed feed document, with the fields the engine reads.
#[derive(Debug, Clone, PartialEq, Eq)]
pub struct FeedDoc {
    /// Feed title text, if any.
    pub title: Option<String>,
    /// Feed links, in document order.
    pub links: Vec<FeedLink>,
    /// Entries, in document order.
    pub entries: Vec<FeedEntryDoc>,
}

/// Output of a successful feed parse.
#[derive(Debug, Clone, PartialEq, Eq)]
pub struct ParsedFeed {
    /// Feed title.
    pub title: String,
    /// Site URL from the feed's links.
    pub site_url: String,
    /// The articles found in the feed.
    pub articles: Vec<ParsedArticle>,
}

/// A single parsed feed entry.
#[derive(Debug, Clone, PartialEq, Eq)]
pub struct ParsedArticle {
    /// Feed-scoped unique identifier (RSS `<guid>` or Atom `<id>`).
    pub guid: String,
    /// Entry title.
    pub title: String,
    /// Original article URL.
    pub url: String,
    /// Author, if available.
    pub author: Option<String>,
    /// Short summary text.
    pub summary: String,
    /// Full HTML body, if the feed has it.
    pub content_html: Option<String>,
    /// Publication time, RFC 3339 in UTC.
    pub published_at: String,
}

/// The view of a [`FeedLink`]: (href, rel).
pub open spec fn link_view(l: FeedLink) -> (Seq<char>, Option<Seq<char>>) {
    (l.href@, opt_str(l.rel))
}

/// The view of an optional string.
pub open spec fn opt_str(o: Option<String>) -> Option<Seq<char>> {
    match o {
        Some(s) => Some(s@),
        None => None,
    }
}

/// The views of a list of links.
pub open spec fn links_view(ls: Seq<FeedLink>) -> Seq<(Seq<char>, Option<Seq<char>>)> {
    ls.map_values(|l: FeedLink| link_view(l))
}

/// The href of the first link whose rel is absent or `alternate`; empty
/// when there is none.
pub open spec fn link_choice(ls: Seq<(Seq<char>, Option<Seq<char>>)>) -> Seq<char>
    decreases ls.len(),
{
    if ls.len() == 0 {
        Seq::empty()
    } else if ls[0].1 is None || ls[0].1 == Some("alternate"@) {
        ls[0].0
    } else {
        link_choice(ls.drop_first())
    }
}

/// The view of an article: (guid, title, url, author, summary, content
/// html, published at).
pub type ArticleView = (
    Seq<char>,
    Seq<char>,
    Seq<char>,
    Option<Seq<char>>,
    Seq<char>,
    Option<Seq<char>>,
    Seq<char>,
);

/// The view of a [`ParsedArticle`].
pub open spec fn article_view(a: ParsedArticle) -> ArticleView {
    (
        a.guid@,
        a.title@,
        a.url@,
        opt_str(a.author),
        a.summary@,
        opt_str(a.content_html),
        a.published_at@,
    )
}

/// The article an entry gives, `now` standing in for a missing date: the
/// first author, the first link whose rel is absent or `alternate`, and
/// the publication date, else the update date, else `now`.
pub open spec fn entry_article(e: FeedEntryDoc, now: Seq<char>) -> ArticleView {
    (
        e.id@,
        or_empty(opt_str(e.title)),
        link_choice(links_view(e.links@)),
        if e.authors@.len() > 0 {
            Some(e.authors@[0]@)
        } else {
            None
        },
        or_empty(opt_str(e.summary)),
        opt_str(e.content_body),
        match e.published {
            Some(p) => p@,
            None => match e.updated {
                Some(u) => u@,
                None => now,
            },
        },
    )
}

/// The articles of a list of entries: entries with an empty id are
/// skipped.
pub open spec fn entry_articles(es: Seq<FeedEntryDoc>, now: Seq<char>) -> Seq<ArticleView>
    decreases es.len(),
{
    if es.len() == 0 {
        Seq::empty()
    } else if es.last().id@.len() == 0 {
        entry_articles(es.drop_last(), now)
    } else {
        entry_articles(es.drop_last(), now).push(entry_article(es.last(), now))
    }
}

/// The feed a document gives: (title, site url, articles).
pub open spec fn doc_feed(d: FeedDoc, now: Seq<char>) -> (Seq<char>, Seq<char>, Seq<ArticleView>) {
    (
        or_empty(opt_str(d.title)),
        link_choice(links_view(d.links@)),
        entry_articles(d.entries@, now),
    )
}

/// The view of a [`ParsedFeed`]: (title, site url, articles).
pub open spec fn parsed_view(f: ParsedFeed) -> (Seq<char>, Seq<char>, Seq<ArticleView>) {
    (f.title@, f.site_url@, f.articles@.map_values(|a: ParsedArticle| article_view(a)))
}

/// A copy of an optional string.
fn clone_opt(o: &Option<String>) -> (r: Option<String>)
    ensures
        opt_str(r) == opt_str(*o),
{
    match o {
        Some(s) => Some(s.clone()),
        None => None,
    }
}

/// The optional string's text, or an empty string.
fn text_or_empty(o: &Option<String>) -> (r: String)
    ensures
        r@ == or_empty(opt_str(*o)),
{
    match o {
        Some(s) => s.clone(),
        None => String::new(),
    }
}

/// The href of the first link whose rel is absent or `alternate`, or an
/// empty string.
pub fn choose_link(links: &Vec<FeedLink>) -> (r: String)
    ensures
        r@ == link_choice(links_view(links@)),
{
    let ghost lv = links_view(links@);
    let mut i: usize = 0;
    assert(lv.subrange(0, lv.len() as int) =~= lv);
    proof {
        reveal_strlit("alternate");
    }
    while i < links.len()
        invariant
            i <= links@.len(),
            lv == links_view(links@),
            link_choice(lv) == link_choice(lv.subrange(i as int, lv.len() as int)),
        decreases links@.len() - i,
    {
        let ghost rest = lv.subrange(i as int, lv.len() as int);
        assert(rest[0] == link_view(links@[i as int]));
        let take = match &links[i].rel {
            None => true,
            Some(r) => *r == String::from_str("alternate"),
        };
        if take {
            return links[i].href.clone();
        }
        assert(rest.drop_first() =~= lv.subrange(i + 1, lv.len() as int));
        i = i + 1;
    }
    assert(lv.subrange(i as int, lv.len() as int) =~= Seq::<(Seq<char>, Option<Seq<char>>)>::empty());
    String::new()
}

/// The article an entry gives, `now` (RFC 3339) standing in for a missing
/// date.
pub fn article_from_entry(e: &FeedEntryDoc, now: &String) -> (r: ParsedArticle)
    ensures
        article_view(r) == entry_article(*e, now@),
{
    let published_at = match &e.published {
        Some(p) => p.clone(),
        None => match &e.updated {
            Some(u) => u.clone(),
            None => now.clone(),
        },
    };
    let author = if e.authors.len() > 0 {
        Some(e.authors[0].clone())
    } else {
        None
    };
    ParsedArticle {
        guid: e.id.clone(),
        title: text_or_empty(&e.title),
        url: choose_link(&e.links),
        author,
        summary: text_or_empty(&e.summary),
        content_html: clone_opt(&e.content_body),
        published_at,
    }
}

/// The feed a parsed document gives, `now` (RFC 3339) standing in for
/// missing entry dates: the title, the site URL from the feed's links,
/// and one article per entry with a non-empty id, in order.
pub fn feed_from_doc(doc: &FeedDoc, now: &String) -> (r: ParsedFeed)
    ensures
        parsed_view(r) == doc_feed(*doc, now@),
{
    let mut articles: Vec<ParsedArticle> = Vec::new();
    let mut i: usize = 0;
    assert(doc.entries@.take(0) =~= Seq::<FeedEntryDoc>::empty());
    assert(articles@.map_values(|a: ParsedArticle| article_view(a)) =~= Seq::<ArticleView>::empty());
    while i < doc.entries.len()
        invariant
            i <= doc.entries@.len(),
            articles@.map_values(|a: ParsedArticle| article_view(a)) == entry_articles(
                doc.entries@.take(i as int),
                now@,
            ),
        decreases doc.entries@.len() - i,
    {
        let e = &doc.entries[i];
        assert(doc.entries@.take(i + 1).drop_last() =~= doc.entries@.take(i as int));
        assert(doc.entries@.take(i + 1).last() == *e);
        if !e.id.as_str().is_empty() {
            let a = article_from_entry(e, now);
            let ghost before = articles@.map_values(|a: ParsedArticle| article_view(a));
            articles.push(a);
            assert(articles@.map_values(|a: ParsedArticle| article_view(a)) =~= before.push(
                article_view(a),
            ));
        }
        i = i + 1;
    }
    assert(doc.entries@.take(doc.entries@.len() as int) =~= doc.entries@);
    ParsedFeed { title: text_or_empty(&doc.title), site_url: choose_link(&doc.links), articles }
}


#[verifier::external_type_specification]
#[verifier::external_body]
pub struct ExRssFeed(RssFeed);

/// What `feed-rs` reads of one entry: the id written in the document
/// (empty when it has none, before `feed-rs` makes one up), the `content`
/// of its title, its links as (href, rel), its authors' names, the
/// `content` of its summary, the body of its content, and its publication
/// and update times as RFC 3339 text.
pub struct RssEntryView {
    /// Id as written in the document.
    pub source_id: Seq<char>,
    /// Title text.
    pub title: Option<Seq<char>>,
    /// Links as (href, rel).
    pub links: Seq<(Seq<char>, Option<Seq<char>>)>,
    /// Author names.
    pub authors: Seq<Seq<char>>,
    /// Summary text.
    pub summary: Option<Seq<char>>,
    /// Body of the content.
    pub content_body: Option<Seq<char>>,
    /// Publication time.
    pub published: Option<Seq<char>>,
    /// Update time.
    pub updated: Option<Seq<char>>,
}

/// What `feed-rs` reads of a feed document: the `content` of its title,
/// its links as (href, rel), and its entries in order.
pub struct RssDocView {
    /// Title text.
    pub title: Option<Seq<char>>,
    /// Links as (href, rel).
    pub links: Seq<(Seq<char>, Option<Seq<char>>)>,
    /// Entries in document order.
    pub entries: Seq<RssEntryView>,
}

/// The display text of the error `feed_rs::parser::parse` gives for
/// `bytes`, or `None` when it parses them.
pub uninterp spec fn rss_parse_error(bytes: Seq<u8>) -> Option<Seq<char>>;

/// What `feed_rs::parser::parse` reads from `bytes` when it parses them.
pub uninterp spec fn rss_document(bytes: Seq<u8>) -> RssDocView;

/// The bytes a parsed feed was read from.
pub uninterp spec fn rss_source(f: RssFeed) -> Seq<u8>;

/// `feed_rs::parser::parse`: the feed, or the display text of the parse
/// error. Whether parsing fails, and its message, are what
/// `rss_parse_error` names for the bytes; the feed's fields are what
/// `rss_document` names for them, except the ids that `feed-rs` makes up
/// for entries without one (ids are only made up after a successful
/// parse, from a hash of the first link or, without a link, at random).
#[verifier::external_body]
fn parse_rss(bytes: &[u8]) -> (r: Result<RssFeed, String>)
    ensures
        match r {
            Ok(f) => rss_parse_error(bytes@) is None && rss_source(f) == bytes@,
            Err(m) => rss_parse_error(bytes@) == Some(m@),
        },
{
    feed_rs::parser::parse(bytes).map_err(|e| e.to_string())
}

/// The `content` of the feed's `title` text, if it has one.
#[verifier::external_body]
fn rss_title(f: &RssFeed) -> (r: Option<String>)
    ensures
        opt_str(r) == rss_document(rss_source(*f)).title,
{
    f.title.as_ref().map(|t| t.content.clone())
}

/// The feed's links as (href, rel).
#[verifier::external_body]
fn rss_links(f: &RssFeed) -> (r: Vec<FeedLink>)
    ensures
        links_view(r@) == rss_document(rss_source(*f)).links,
{
    f.links.iter().map(|l| FeedLink { href: l.href.clone(), rel: l.rel.clone() }).collect()
}

/// The number of the feed's entries.
#[verifier::external_body]
fn rss_entry_count(f: &RssFeed) -> (r: usize)
    ensures
        r == rss_document(rss_source(*f)).entries.len(),
{
    f.entries.len()
}

/// The parsed entry `e` carries what the document gives for `v`: its id is
/// never empty and is the document's id when it has one, and its other
/// fields are those of `v`.
pub open spec fn entry_doc_matches(e: FeedEntryDoc, v: RssEntryView) -> bool {
    &&& e.id@.len() > 0
    &&& v.source_id.len() > 0 ==> e.id@ == v.source_id
    &&& opt_str(e.title) == v.title
    &&& links_view(e.links@) == v.links
    &&& e.authors@.map_values(|a: String| a@) == v.authors
    &&& opt_str(e.summary) == v.summary
    &&& opt_str(e.content_body) == v.content_body
    &&& opt_str(e.published) == v.published
    &&& opt_str(e.updated) == v.updated
}

/// The fields of the `i`-th entry that the engine reads: its id (as
/// written, or the one `feed-rs` made up when the document gives none),
/// the `content` of its title and summary texts, its links, its authors'
/// names, the body of its content, and its dates as RFC 3339 text.
#[verifier::external_body]
fn rss_entry(f: &RssFeed, i: usize) -> (r: FeedEntryDoc)
    requires
        i < rss_document(rss_source(*f)).entries.len(),
    ensures
        entry_doc_matches(r, rss_document(rss_source(*f)).entries[i as int]),
{
    let e = &f.entries[i];
    FeedEntryDoc {
        id: e.id.clone(),
        title: e.title.clone().map(|t| t.content),
        links: e.links.iter().map(|l| FeedLink { href: l.href.clone(), rel: l.rel.clone() }).collect(),
        authors: e.authors.iter().map(|a| a.name.clone()).collect(),
        summary: e.summary.clone().map(|t| t.content),
        content_body: e.content.clone().and_then(|c| c.body),
        published: e.published.map(|d| d.to_rfc3339()),
        updated: e.updated.map(|d| d.to_rfc3339()),
    }
}

/// The document `d` carries what `feed-rs` read: the title and links of
/// `v`, and one entry per entry of `v`, in order.
pub open spec fn doc_matches(d: FeedDoc, v: RssDocView) -> bool {
    &&& opt_str(d.title) == v.title
    &&& links_view(d.links@) == v.links
    &&& d.entries@.len() == v.entries.len()
    &&& forall|k: int| 0 <= k < v.entries.len() ==> entry_doc_matches(#[trigger] d.entries@[k], v.entries[k])
}

/// The document view of a parsed feed: its title, links and entries in
/// order.
fn feed_doc(f: &RssFeed) -> (r: FeedDoc)
    ensures
        doc_matches(r, rss_document(rss_source(*f))),
{
    let ghost v = rss_document(rss_source(*f));
    let n = rss_entry_count(f);
    let mut entries: Vec<FeedEntryDoc> = Vec::new();
    let mut i: usize = 0;
    while i < n
        invariant
            i <= n == v.entries.len(),
            v == rss_document(rss_source(*f)),
            entries@.len() == i,
            forall|k: int| 0 <= k < i ==> entry_doc_matches(#[trigger] entries@[k], v.entries[k]),
        decreases n - i,
    {
        entries.push(rss_entry(f, i));
        i = i + 1;
    }
    FeedDoc { title: rss_title(f), links: rss_links(f), entries }
}

/// Parse feed bytes with `feed-rs` into the document the engine reads:
/// the error message exactly when `feed-rs` refuses the bytes, otherwise
/// the document `feed-rs` reads from them.
fn parse_feed_doc(bytes: &[u8]) -> (r: Result<FeedDoc, String>)
    ensures
        match r {
            Ok(d) => rss_parse_error(bytes@) is None && doc_matches(d, rss_document(bytes@)),
            Err(m) => rss_parse_error(bytes@) == Some(m@),
        },
{
    match parse_rss(bytes) {
        Ok(f) => Ok(feed_doc(&f)),
        Err(m) => Err(m),
    }
}

/// The article `a` is what the engine makes of the entry `v`: the entry's
/// id (when the document gives one; a made-up non-empty id otherwise), its
/// title, the first alternate or unlabelled link, its first author, its
/// summary and content, and its publication time, else its update time
/// (else the time of parsing).
pub open spec fn article_matches(a: ArticleView, v: RssEntryView) -> bool {
    &&& a.0.len() > 0
    &&& v.source_id.len() > 0 ==> a.0 == v.source_id
    &&& a.1 == or_empty(v.title)
    &&& a.2 == link_choice(v.links)
    &&& a.3 == (if v.authors.len() > 0 {
        Some(v.authors[0])
    } else {
        None
    })
    &&& a.4 == or_empty(v.summary)
    &&& a.5 == v.content_body
    &&& (v.published matches Some(p) ==> a.6 == p)
    &&& (v.published is None && v.updated is Some ==> a.6 == v.updated->0)
}

/// The feed `f` is what the engine makes of the document `v`: its title,
/// the site URL from its links, and one article per entry, in order.
pub open spec fn feed_matches(f: (Seq<char>, Seq<char>, Seq<ArticleView>), v: RssDocView) -> bool {
    &&& f.0 == or_empty(v.title)
    &&& f.1 == link_choice(v.links)
    &&& f.2.len() == v.entries.len()
    &&& forall|k: int| 0 <= k < v.entries.len() ==> article_matches(#[trigger] f.2[k], v.entries[k])
}

/// Entries that all have an id each give their article.
proof fn lemma_entry_articles_all(es: Seq<FeedEntryDoc>, now: Seq<char>)
    requires
        forall|k: int| 0 <= k < es.len() ==> (#[trigger] es[k]).id@.len() > 0,
    ensures
        entry_articles(es, now).len() == es.len(),
        forall|k: int|
            0 <= k < es.len() ==> #[trigger] entry_articles(es, now)[k] == entry_article(es[k], now),
    decreases es.len(),
{
    if es.len() > 0 {
        let pre = es.drop_last();
        assert forall|k: int| 0 <= k < pre.len() implies (#[trigger] pre[k]).id@.len() > 0 by {
            assert(pre[k] == es[k]);
        }
        lemma_entry_articles_all(pre, now);
        assert(es.last().id@.len() > 0);
        assert forall|k: int| 0 <= k < es.len() implies #[trigger] entry_articles(es, now)[k]
            == entry_article(es[k], now) by {
            if k < pre.len() {
                assert(pre[k] == es[k]);
            }
        }
    }
}

/// `chrono::Utc::now`, as RFC 3339 text. Nothing is stated of the result:
/// it is the time of the call.
#[verifier::external_body]
fn utc_now_rfc3339() -> (r: String) {
    chrono::Utc::now().to_rfc3339()
}

/// Parse raw feed bytes (RSS or Atom). A document `feed-rs` refuses gives
/// `Parse` with its message; otherwise the feed is what [`feed_from_doc`]
/// makes of the document `feed-rs` reads: its title, its site URL, and
/// one article per entry, the current time standing in for missing entry
/// dates.
pub fn parse_feed_bytes(bytes: &[u8]) -> (r: Result<ParsedFeed, FeedEngineError>)
    ensures
        match r {
            Ok(f) => rss_parse_error(bytes@) is None && feed_matches(parsed_view(f), rss_document(bytes@)),
            Err(e) => exists|m: Seq<char>|
                rss_parse_error(bytes@) == Some(m) && e@ == FeedEngineErrorView::Parse(m),
        },
{
    match parse_feed_doc(bytes) {
        Err(m) => Err(FeedEngineError::Parse(m)),
        Ok(doc) => {
            let now = utc_now_rfc3339();
            let f = feed_from_doc(&doc, &now);
            proof {
                let v = rss_document(bytes@);
                let es = doc.entries@;
                assert forall|k: int| 0 <= k < es.len() implies (#[trigger] es[k]).id@.len() > 0 by {
                    assert(entry_doc_matches(doc.entries@[k], v.entries[k]));
                }
                lemma_entry_articles_all(es, now@);
                let pv = parsed_view(f);
                assert forall|k: int| 0 <= k < v.entries.len() implies article_matches(
                    #[trigger] pv.2[k],
                    v.entries[k],
                ) by {
                    assert(entry_doc_matches(doc.entries@[k], v.entries[k]));
                    assert(pv.2[k] == entry_article(es[k], now@));
                }
            }
            Ok(f)
        },
    }
}

/// What a sync does when fetching a feed failed: the error text to record
/// on the feed (nothing else is written), and the error to return.
pub fn on_fetch_error(e: FeedEngineError) -> (r: (String, FeedEngineError))
    ensures
        r.0@ == feed_error_text(e@),
        r.1 == e,
{
    let note = e.message();
    (note, e)
}

/// An HTTP status is a success when it lies in 200..=299.
pub open spec fn status_success(code: u16) -> bool {
    200 <= code <= 299
}

/// Accept a successful HTTP status; any other is `UpstreamStatus(code)`.
pub fn check_upstream_status(code: u16) -> (r: Result<(), FeedEngineError>)
    ensures
        status_success(code) <==> r is Ok,
        !status_success(code) ==> r == Err::<(), FeedEngineError>(FeedEngineError::UpstreamStatus(code)),
{
    if 200 <= code && code <= 299 {
        Ok(())
    } else {
        Err(FeedEngineError::UpstreamStatus(code))
    }
}

/// `Clone` of `std::time::Duration`, a `Copy` type: the clone is the same
/// duration.
pub assume_specification[ <std::time::Duration as Clone>::clone ](d: &std::time::Duration) -> (r: std::time::Duration)
    ensures
        r == *d,
;

/// Runtime settings of a sync.
#[derive(Debug, Clone)]
pub struct SyncConfig {
    /// HTTP timeout for feed fetches.
    pub fetch_timeout: std::time::Duration,
    /// User-Agent header.
    pub user_agent: Option<String>,
}

/// The record of one article that a sync writes to the store.
#[derive(Debug, Clone, PartialEq, Eq)]
pub struct ArticleUpsert {
    /// Feed-scoped unique id.
    pub guid: String,
    /// Title.
    pub title: String,
    /// Article URL.
    pub url: String,
    /// Author, if any.
    pub author: Option<String>,
    /// Summary text.
    pub summary: String,
    /// Full HTML body, if any.
    pub content_html: Option<String>,
    /// Publication time, RFC 3339.
    pub published_at: String,
}

/// The view of an [`ArticleUpsert`].
pub open spec fn upsert_view(u: ArticleUpsert) -> ArticleView {
    (u.guid@, u.title@, u.url@, opt_str(u.author), u.summary@, opt_str(u.content_html), u.published_at@)
}

/// What a sync does with a fetched feed: the metadata to store, when the
/// feed has a title or a site URL, and one upsert per article, in order.
pub struct SyncPlan {
    /// (title, site url) to store, if any.
    pub metadata: Option<(String, String)>,
    /// The articles to upsert.
    pub upserts: Vec<ArticleUpsert>,
}

/// Plan the store writes for a fetched feed: its (title, site url) when
/// either is non-empty, and an upsert for each article.
pub fn plan_sync(parsed: ParsedFeed) -> (r: SyncPlan)
    ensures
        match r.metadata {
            Some(m) => (parsed.title@.len() > 0 || parsed.site_url@.len() > 0) && m.0@ == parsed.title@
                && m.1@ == parsed.site_url@,
            None => parsed.title@.len() == 0 && parsed.site_url@.len() == 0,
        },
        r.upserts@.map_values(|u: ArticleUpsert| upsert_view(u)) == parsed.articles@.map_values(
            |a: ParsedArticle| article_view(a),
        ),
{
    let metadata = if !parsed.title.as_str().is_empty() || !parsed.site_url.as_str().is_empty() {
        Some((parsed.title.clone(), parsed.site_url.clone()))
    } else {
        None
    };
    let mut upserts: Vec<ArticleUpsert> = Vec::new();
    let mut i: usize = 0;
    while i < parsed.articles.len()
        invariant
            i <= parsed.articles@.len(),
            upserts@.map_values(|u: ArticleUpsert| upsert_view(u)) == parsed.articles@.take(
                i as int,
            ).map_values(|a: ParsedArticle| article_view(a)),
        decreases parsed.articles@.len() - i,
    {
        let a = &parsed.articles[i];
        let u = ArticleUpsert {
            guid: a.guid.clone(),
            title: a.title.clone(),
            url: a.url.clone(),
            author: clone_opt(&a.author),
            summary: a.summary.clone(),
            content_html: clone_opt(&a.content_html),
            published_at: a.published_at.clone(),
        };
        let ghost before = upserts@.map_values(|u: ArticleUpsert| upsert_view(u));
        upserts.push(u);
        assert(upserts@.map_values(|u: ArticleUpsert| upsert_view(u)) =~= before.push(upsert_view(u)));
        assert(parsed.articles@.take(i + 1).map_values(|a: ParsedArticle| article_view(a))
            =~= parsed.articles@.take(i as int).map_values(|a: ParsedArticle| article_view(a)).push(
            article_view(*a),
        ));
        i = i + 1;
    }
    assert(parsed.articles@.take(parsed.articles@.len() as int) =~= parsed.articles@);
    SyncPlan { metadata, upserts }
}

} // verus!
