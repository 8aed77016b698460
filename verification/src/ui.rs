//! View models of the reader UI, the debounce rule for progress saving,
//! and the deterministic fixture data the pages render before the data
//! layer is wired in.

use vstd::prelude::*;
use vstd::string::StringExecFns;
use crate::bilingual::BilingualSentence;

verus! {

/// Book metadata rendered as a bookshelf card.
#[derive(Debug, Clone)]
pub struct BookInfo {
    /// Sanitized on-disk filename (e.g. `my-book.epub`).
    pub safe_name: String,
    /// Human-readable title from the EPUB metadata.
    pub title: String,
    /// Author from the EPUB metadata, or `""` when absent.
    pub author: String,
}

/// Rendering mode of the article reader.
#[derive(Debug, Clone, Copy, PartialEq, Eq, Structural)]
pub enum ToggleLang {
    /// Show only the original source text.
    Original,
    /// Show both source and Chinese translation.
    Bilingual,
}

/// One row of the article list.
#[derive(Debug, Clone)]
pub struct ArticleSummary {
    /// Article id.
    pub id: i64,
    /// Id of the feed the article belongs to.
    pub feed_id: i64,
    /// Title of that feed.
    pub feed_title: String,
    /// Article title.
    pub title: String,
    /// Article URL.
    pub url: String,
    /// Publication time, ISO 8601 in UTC.
    pub published_at: String,
    /// Whether the article has been read.
    pub read: bool,
}

/// One card of the feed list.
#[derive(Debug, Clone)]
pub struct FeedInfo {
    /// Feed id.
    pub id: i64,
    /// Feed title.
    pub title: String,
    /// Site URL of the feed.
    pub site_url: String,
    /// Number of unread articles.
    pub unread_count: i64,
}

/// `a - b`, or 0 when `b > a` (`u64::saturating_sub`).
pub open spec fn sat_sub(a: u64, b: u64) -> int {
    if a >= b {
        a - b
    } else {
        0
    }
}

/// Number of consecutive calls in `calls` that are at least `window`
/// apart.
pub open spec fn debounce_gaps(calls: Seq<u64>, window: u64) -> nat
    decreases calls.len(),
{
    if calls.len() <= 1 {
        0
    } else {
        debounce_gaps(calls.drop_last(), window) + if sat_sub(
            calls.last(),
            calls[calls.len() - 2],
        ) >= window {
            1nat
        } else {
            0nat
        }
    }
}

/// Number of times a debounced action fires for the call times `calls`:
/// once per group of calls, a new group starting at each call that comes
/// `window` or more after the previous one.
pub open spec fn debounce_fires(calls: Seq<u64>, window: u64) -> nat {
    if calls.len() == 0 {
        0
    } else {
        1 + debounce_gaps(calls, window)
    }
}

proof fn lemma_debounce_gaps_bound(calls: Seq<u64>, window: u64)
    ensures
        calls.len() > 0 ==> debounce_gaps(calls, window) < calls.len(),
        window == 0 && calls.len() > 0 ==> debounce_gaps(calls, window) == calls.len() - 1,
    decreases calls.len(),
{
    if calls.len() > 1 {
        lemma_debounce_gaps_bound(calls.drop_last(), window);
    }
}

/// Calls that all come less than `window` after the previous one form a
/// single group: the debounced action fires once.
pub proof fn law_debounce_single_group(calls: Seq<u64>, window: u64)
    requires
        calls.len() > 0,
        forall|i: int| 1 <= i < calls.len() ==> sat_sub(#[trigger] calls[i], calls[i - 1]) < window,
    ensures
        debounce_fires(calls, window) == 1,
    decreases calls.len(),
{
    if calls.len() > 1 {
        let prefix = calls.drop_last();
        assert forall|i: int| 1 <= i < prefix.len() implies sat_sub(#[trigger] prefix[i], prefix[i - 1])
            < window by {
            assert(prefix[i] == calls[i] && prefix[i - 1] == calls[i - 1]);
        }
        law_debounce_single_group(prefix, window);
        assert(sat_sub(calls[calls.len() - 1], calls[calls.len() - 2]) < window);
    }
}

/// Count how many times a debounced save fires for the call timestamps
/// `calls`: each group of calls less than `window_ms` apart fires once.
pub fn debounce_fire_count(calls: &[u64], window_ms: u64) -> (r: usize)
    ensures
        r == debounce_fires(calls@, window_ms),
        r <= calls@.len(),
        calls@.len() > 0 ==> r >= 1,
        window_ms == 0 ==> r == calls@.len(),
{
    proof {
        lemma_debounce_gaps_bound(calls@, window_ms);
    }
    if calls.len() == 0 {
        return 0;
    }
    let mut count: usize = 1;
    let mut i: usize = 1;
    while i < calls.len()
        invariant
            1 <= i <= calls@.len(),
            count == 1 + debounce_gaps(calls@.take(i as int), window_ms),
            count <= i,
        decreases calls@.len() - i,
    {
        assert(calls@.take(i + 1).drop_last() =~= calls@.take(i as int));
        proof {
            lemma_debounce_gaps_bound(calls@.take(i as int), window_ms);
        }
        if calls[i].saturating_sub(calls[i - 1]) >= window_ms {
            count = count + 1;
        }
        i = i + 1;
    }
    assert(calls@.take(calls@.len() as int) =~= calls@);
    count
}

/// An owned copy of the literal `s`.
fn text(s: &str) -> (r: String)
    ensures
        r@ == s@,
{
    String::from_str(s)
}

/// The fixture article rows: (id, feed id, feed title, title, url,
/// published at, read).
pub open spec fn fixture_article_rows() -> Seq<(i64, i64, Seq<char>, Seq<char>, Seq<char>, Seq<char>, bool)> {
    seq![
        (1i64, 1i64, "Hacker News"@, "Rust 1.92 发布：更紧凑的 DWARF 调试信息与 async 改进"@,
            "https://blog.rust-lang.org/2026/07/25/Rust-1.92.html"@, "2026-07-28T09:15:00Z"@, false),
        (2i64, 2i64, "Lobsters"@, "用 Leptos 构建 SSR 优先的 Web 应用：实战经验"@,
            "https://example.com/leptos-ssr-notes"@, "2026-07-27T14:42:00Z"@, false),
        (3i64, 1i64, "Hacker News"@, "SQLite 3.48.0 新增内置向量搜索功能"@,
            "https://sqlite.org/releaselog/3_48_0.html"@, "2026-07-26T20:05:00Z"@, true),
        (4i64, 3i64, "Planet Rust"@, "从零构建一个 feed-rs 爬虫：RSS/Atom 解析实战"@,
            "https://blog.example.dev/feed-rs-crawler"@, "2026-07-25T11:30:00Z"@, true),
        (5i64, 2i64, "Lobsters"@, "为什么我们把 Python FastAPI 服务整体迁移到了 Rust Axum"@,
            "https://case-study.example/axum-migration"@, "2026-07-24T07:58:00Z"@, false),
    ]
}

/// The view of an article summary as a fixture row.
pub open spec fn article_row(a: ArticleSummary) -> (i64, i64, Seq<char>, Seq<char>, Seq<char>, Seq<char>, bool) {
    (a.id, a.feed_id, a.feed_title@, a.title@, a.url@, a.published_at@, a.read)
}

fn article(
    id: i64,
    feed_id: i64,
    feed_title: &str,
    title: &str,
    url: &str,
    published_at: &str,
    read: bool,
) -> (a: ArticleSummary)
    ensures
        article_row(a) == (id, feed_id, feed_title@, title@, url@, published_at@, read),
{
    ArticleSummary {
        id,
        feed_id,
        feed_title: text(feed_title),
        title: text(title),
        url: text(url),
        published_at: text(published_at),
        read,
    }
}

/// Fixed article summaries for the home-page list.
pub fn fixture_articles() -> (r: Vec<ArticleSummary>)
    ensures
        r@.map_values(|a: ArticleSummary| article_row(a)) == fixture_article_rows(),
{
    let mut v: Vec<ArticleSummary> = Vec::new();
    v.push(article(1, 1, "Hacker News", "Rust 1.92 发布：更紧凑的 DWARF 调试信息与 async 改进",
        "https://blog.rust-lang.org/2026/07/25/Rust-1.92.html", "2026-07-28T09:15:00Z", false));
    v.push(article(2, 2, "Lobsters", "用 Leptos 构建 SSR 优先的 Web 应用：实战经验",
        "https://example.com/leptos-ssr-notes", "2026-07-27T14:42:00Z", false));
    v.push(article(3, 1, "Hacker News", "SQLite 3.48.0 新增内置向量搜索功能",
        "https://sqlite.org/releaselog/3_48_0.html", "2026-07-26T20:05:00Z", true));
    v.push(article(4, 3, "Planet Rust", "从零构建一个 feed-rs 爬虫：RSS/Atom 解析实战",
        "https://blog.example.dev/feed-rs-crawler", "2026-07-25T11:30:00Z", true));
    v.push(article(5, 2, "Lobsters", "为什么我们把 Python FastAPI 服务整体迁移到了 Rust Axum",
        "https://case-study.example/axum-migration", "2026-07-24T07:58:00Z", false));
    assert(v@.map_values(|a: ArticleSummary| article_row(a)) =~= fixture_article_rows());
    v
}

/// The fixture feed rows: (id, title, site url, unread count).
pub open spec fn fixture_feed_rows() -> Seq<(i64, Seq<char>, Seq<char>, i64)> {
    seq![
        (1i64, "Hacker News"@, "https://news.ycombinator.com"@, 42i64),
        (2i64, "Lobsters"@, "https://lobste.rs"@, 7i64),
        (3i64, "Planet Rust"@, "https://planet.rust-lang.org"@, 0i64),
    ]
}

/// The view of a feed card as a fixture row.
pub open spec fn feed_row(f: FeedInfo) -> (i64, Seq<char>, Seq<char>, i64) {
    (f.id, f.title@, f.site_url@, f.unread_count)
}

fn feed(id: i64, title: &str, site_url: &str, unread_count: i64) -> (f: FeedInfo)
    ensures
        feed_row(f) == (id, title@, site_url@, unread_count),
{
    FeedInfo { id, title: text(title), site_url: text(site_url), unread_count }
}

/// Fixed feed cards with unread counts.
pub fn fixture_feeds() -> (r: Vec<FeedInfo>)
    ensures
        r@.map_values(|f: FeedInfo| feed_row(f)) == fixture_feed_rows(),
{
    let mut v: Vec<FeedInfo> = Vec::new();
    v.push(feed(1, "Hacker News", "https://news.ycombinator.com", 42));
    v.push(feed(2, "Lobsters", "https://lobste.rs", 7));
    v.push(feed(3, "Planet Rust", "https://planet.rust-lang.org", 0));
    assert(v@.map_values(|f: FeedInfo| feed_row(f)) =~= fixture_feed_rows());
    v
}

/// The fixture bookshelf rows: (safe name, title, author).
pub open spec fn fixture_book_rows() -> Seq<(Seq<char>, Seq<char>, Seq<char>)> {
    seq![
        ("rust-for-rustaceans.epub"@, "Rust for Rustaceans"@, "Jon Gjengset"@),
        ("the-rustonomicon.epub"@, "The Rustonomicon"@, "The Rust Project"@),
        ("zero-to-production.epub"@, "Zero To Production In Rust"@, "Luca Palmieri"@),
    ]
}

/// The view of a book card as a fixture row.
pub open spec fn book_row(b: BookInfo) -> (Seq<char>, Seq<char>, Seq<char>) {
    (b.safe_name@, b.title@, b.author@)
}

fn book(safe_name: &str, title: &str, author: &str) -> (b: BookInfo)
    ensures
        book_row(b) == (safe_name@, title@, author@),
{
    BookInfo { safe_name: text(safe_name), title: text(title), author: text(author) }
}

/// Fixed bookshelf entries.
pub fn fixture_books() -> (r: Vec<BookInfo>)
    ensures
        r@.map_values(|b: BookInfo| book_row(b)) == fixture_book_rows(),
{
    let mut v: Vec<BookInfo> = Vec::new();
    v.push(book("rust-for-rustaceans.epub", "Rust for Rustaceans", "Jon Gjengset"));
    v.push(book("the-rustonomicon.epub", "The Rustonomicon", "The Rust Project"));
    v.push(book("zero-to-production.epub", "Zero To Production In Rust", "Luca Palmieri"));
    assert(v@.map_values(|b: BookInfo| book_row(b)) =~= fixture_book_rows());
    v
}

/// The fixture sentence pairs: (source, translation, start, end).
pub open spec fn fixture_sentence_rows() -> Seq<(Seq<char>, Seq<char>, usize, usize)> {
    seq![
        ("Rust 1.92 引入了多项关键改进。"@,
            "Rust 1.92 introduces several key improvements."@, 0usize, 40usize),
        ("编译器生成的 DWARF 调试信息现在更加紧凑，\
          二进制体积平均减小 8%。"@,
            "DWARF debug info emitted by the compiler is now more \
             compact, reducing binaries by 8% on average."@, 40usize, 131usize),
        ("此外，异步运行时的调度器优化可以使高并发场景下的 \
          P99 延迟降低约 15%。"@,
            "In addition, scheduler optimisations in the async runtime \
             reduce P99 latency by approximately 15% under high concurrency."@, 131usize, 230usize),
        ("更多细节请参考官方发布公告。"@,
            "See the official release notes for further details."@, 230usize, 272usize),
    ]
}

/// The view of a sentence pair as a fixture row.
pub open spec fn sentence_row(s: BilingualSentence) -> (Seq<char>, Seq<char>, usize, usize) {
    (s.src@, s.zh@, s.src_start, s.src_end)
}

fn sentence(src: &str, zh: &str, src_start: usize, src_end: usize) -> (s: BilingualSentence)
    ensures
        sentence_row(s) == (src@, zh@, src_start, src_end),
{
    BilingualSentence { src: text(src), zh: text(zh), src_start, src_end }
}

/// Fixed article content (sentence pairs) for the article-reader page,
/// shown in bilingual mode; each pair's offsets are the byte range of its
/// source sentence in the concatenated source text.
pub fn fixture_bilingual_sentences() -> (r: (Vec<BilingualSentence>, ToggleLang))
    ensures
        r.0@.map_values(|s: BilingualSentence| sentence_row(s)) == fixture_sentence_rows(),
        r.1 == ToggleLang::Bilingual,
{
    let mut v: Vec<BilingualSentence> = Vec::new();
    v.push(sentence("Rust 1.92 引入了多项关键改进。",
        "Rust 1.92 introduces several key improvements.", 0, 40));
    v.push(sentence("编译器生成的 DWARF 调试信息现在更加紧凑，\
          二进制体积平均减小 8%。",
        "DWARF debug info emitted by the compiler is now more \
             compact, reducing binaries by 8% on average.", 40, 131));
    v.push(sentence("此外，异步运行时的调度器优化可以使高并发场景下的 \
          P99 延迟降低约 15%。",
        "In addition, scheduler optimisations in the async runtime \
             reduce P99 latency by approximately 15% under high concurrency.", 131, 230));
    v.push(sentence("更多细节请参考官方发布公告。",
        "See the official release notes for further details.", 230, 272));
    assert(v@.map_values(|s: BilingualSentence| sentence_row(s)) =~= fixture_sentence_rows());
    (v, ToggleLang::Bilingual)
}


/// The fixtures are fixed data: two calls give the same articles, feeds,
/// books and sentences.
pub proof fn law_fixtures_deterministic(
    a1: Seq<ArticleSummary>,
    a2: Seq<ArticleSummary>,
    f1: Seq<FeedInfo>,
    f2: Seq<FeedInfo>,
)
    requires
        a1.map_values(|a: ArticleSummary| article_row(a)) == fixture_article_rows(),
        a2.map_values(|a: ArticleSummary| article_row(a)) == fixture_article_rows(),
        f1.map_values(|f: FeedInfo| feed_row(f)) == fixture_feed_rows(),
        f2.map_values(|f: FeedInfo| feed_row(f)) == fixture_feed_rows(),
    ensures
        a1.map_values(|a: ArticleSummary| article_row(a)) == a2.map_values(|a: ArticleSummary| article_row(a)),
        f1.map_values(|f: FeedInfo| feed_row(f)) == f2.map_values(|f: FeedInfo| feed_row(f)),
{
}

} // verus!
