use miniflux_reader::content::{content_of, extract_from_html, Extracted};
use miniflux_reader::feed::{
    on_fetch_error, check_upstream_status, choose_link, feed_from_doc, parse_feed_bytes, plan_sync, FeedDoc, FeedEngineError,
    FeedEntryDoc, FeedLink,
};
use miniflux_reader::opml::{export_opml, parse_opml, Feed};

fn rss_fixture() -> &'static [u8] {
    br#"<?xml version="1.0"?>
<rss version="2.0">
  <channel>
    <title>Example RSS</title>
    <link>https://example.com/</link>
    <description>Test</description>
    <item>
      <guid isPermaLink="false">article-1</guid>
      <title>First Post</title>
      <link>https://example.com/1</link>
      <description>summary 1</description>
      <pubDate>Thu, 30 Jul 2026 00:00:00 GMT</pubDate>
    </item>
  </channel>
</rss>"#
}

fn atom_fixture() -> &'static [u8] {
    br#"<?xml version="1.0" encoding="utf-8"?>
<feed xmlns="http://www.w3.org/2005/Atom">
  <title>Example Atom</title>
  <link href="https://example.com/" rel="alternate"/>
  <entry>
    <id>atom-entry-1</id>
    <title>Atom First</title>
    <link href="https://example.com/a1" rel="alternate"/>
    <updated>2026-07-30T00:00:00Z</updated>
    <summary>summary atom</summary>
  </entry>
</feed>"#
}

#[test]
fn t01_rss_parses_title_and_entries() {
    let f = parse_feed_bytes(rss_fixture()).expect("rss parse");
    assert_eq!(f.title, "Example RSS");
    assert_eq!(f.site_url, "https://example.com/");
    assert_eq!(f.articles.len(), 1);
    assert_eq!(f.articles[0].title, "First Post");
    assert_eq!(f.articles[0].guid, "article-1");
}

#[test]
fn t02_atom_parses_title_and_entries() {
    let f = parse_feed_bytes(atom_fixture()).expect("atom parse");
    assert_eq!(f.title, "Example Atom");
    assert_eq!(f.site_url, "https://example.com/");
    assert_eq!(f.articles.len(), 1);
    assert_eq!(f.articles[0].title, "Atom First");
}

#[test]
fn feed_entries_without_id_get_a_made_up_one() {
    let xml = br#"<rss version="2.0"><channel><title>C</title><item><title>No id</title><link>https://e/x</link></item></channel></rss>"#;
    let f = parse_feed_bytes(xml).unwrap();
    assert_eq!(f.articles.len(), 1);
    assert!(!f.articles[0].guid.is_empty());
    assert_eq!(f.articles[0].title, "No id");
    assert_eq!(f.articles[0].url, "https://e/x");
}

#[test]
fn t03_malformed_xml_returns_parse_err() {
    let err = parse_feed_bytes(b"not xml at all <<<").expect_err("should fail");
    assert!(matches!(err, FeedEngineError::Parse(_)));
}

#[test]
fn feed_dates_fall_back_to_update_time() {
    let f = parse_feed_bytes(atom_fixture()).unwrap();
    assert_eq!(f.articles[0].published_at, "2026-07-30T00:00:00+00:00");
    assert_eq!(f.articles[0].summary, "summary atom");
    assert_eq!(f.articles[0].url, "https://example.com/a1");
    assert_eq!(f.articles[0].author, None);
}

fn link(href: &str, rel: Option<&str>) -> FeedLink {
    FeedLink { href: href.into(), rel: rel.map(String::from) }
}

#[test]
fn choose_link_takes_first_alternate_or_unlabelled() {
    assert_eq!(choose_link(&vec![link("self", Some("self")), link("alt", Some("alternate")), link("x", None)]), "alt");
    assert_eq!(choose_link(&vec![link("self", Some("self")), link("plain", None)]), "plain");
    assert_eq!(choose_link(&vec![link("self", Some("self"))]), "");
}

fn entry(id: &str, published: Option<&str>, updated: Option<&str>) -> FeedEntryDoc {
    FeedEntryDoc {
        id: id.into(),
        title: None,
        links: vec![link("u", Some("alternate"))],
        authors: vec!["Ann".into(), "Bob".into()],
        summary: Some("s".into()),
        content_body: Some("<p>b</p>".into()),
        published: published.map(String::from),
        updated: updated.map(String::from),
    }
}

#[test]
fn feed_from_doc_skips_entries_without_id_and_picks_dates() {
    let doc = FeedDoc {
        title: None,
        links: vec![],
        entries: vec![entry("a", Some("P"), Some("U")), entry("", None, None), entry("c", None, Some("U")), entry("d", None, None)],
    };
    let f = feed_from_doc(&doc, &"NOW".to_string());
    assert_eq!(f.title, "");
    assert_eq!(f.site_url, "");
    let got: Vec<(&str, &str)> = f.articles.iter().map(|a| (a.guid.as_str(), a.published_at.as_str())).collect();
    assert_eq!(got, vec![("a", "P"), ("c", "U"), ("d", "NOW")]);
    assert_eq!(f.articles[0].author.as_deref(), Some("Ann"));
    assert_eq!(f.articles[0].title, "");
    assert_eq!(f.articles[0].content_html.as_deref(), Some("<p>b</p>"));
}

#[test]
fn plan_sync_decides_metadata_and_upserts() {
    let f = parse_feed_bytes(rss_fixture()).unwrap();
    let plan = plan_sync(f.clone());
    assert_eq!(plan.metadata, Some(("Example RSS".to_string(), "https://example.com/".to_string())));
    assert_eq!(plan.upserts.len(), 1);
    assert_eq!(plan.upserts[0].guid, "article-1");
    let empty = miniflux_reader::feed::ParsedFeed { title: String::new(), site_url: String::new(), articles: vec![] };
    assert_eq!(plan_sync(empty).metadata, None);
}

#[test]
fn upstream_status_check() {
    assert!(check_upstream_status(200).is_ok());
    assert!(check_upstream_status(299).is_ok());
    assert_eq!(check_upstream_status(500), Err(FeedEngineError::UpstreamStatus(500)));
    assert_eq!(check_upstream_status(199), Err(FeedEngineError::UpstreamStatus(199)));
    assert_eq!(FeedEngineError::UpstreamStatus(503).message(), "upstream returned HTTP 503");
    assert_eq!(FeedEngineError::Parse("x".into()).message(), "feed parse error: x");
}

#[test]
fn extraction_errors_map_to_engine_errors() {
    assert_eq!(content_of(Extracted::Content("c".into())), Ok("c".to_string()));
    assert_eq!(content_of(Extracted::BadUrl("e".into())), Err(FeedEngineError::Network("invalid url: e".into())));
    assert_eq!(content_of(Extracted::Failed("f".into())), Err(FeedEngineError::Parse("f".into())));
    match extract_from_html(b"<html></html>", "not a url") {
        Err(FeedEngineError::Network(m)) => assert!(m.starts_with("invalid url: "), "{m}"),
        other => panic!("unexpected {:?}", other),
    }
}

#[test]
fn extraction_returns_article_body() {
    let page = b"<html><head><title>T</title></head><body><div><p>This is a long enough paragraph of article text, with commas, and more words to score well in readability.</p></div></body></html>";
    let body = extract_from_html(page, "https://example.com/post").expect("extract");
    assert!(body.contains("long enough paragraph"), "{body}");
}

#[test]
fn t01_parse_opml_extracts_xmlurl_attributes() {
    let xml = r#"<?xml version="1.0"?>
<opml version="2.0">
  <head><title>Subs</title></head>
  <body>
    <outline text="HN" xmlUrl="https://hnrss.org/frontpage"/>
    <outline text="LWN" xmlurl="https://lwn.net/headlines/rss"/>
  </body>
</opml>"#;
    let urls = parse_opml(xml);
    assert!(urls.iter().any(|u| u == "https://hnrss.org/frontpage"));
    assert!(urls.iter().any(|u| u == "https://lwn.net/headlines/rss"));
}

fn feed(id: i64, url: &str, title: &str, site: &str) -> Feed {
    Feed { id, url: url.into(), title: title.into(), site_url: site.into(), last_fetched: None, fetch_error: None }
}

#[test]
fn t02_export_opml_roundtrip_through_parse() {
    let feeds = vec![
        feed(1, "https://a.example.com/rss", "A", "https://a.example.com"),
        feed(2, "https://b.example.com/atom", "B", "https://b.example.com"),
    ];
    let out = export_opml(&feeds);
    assert!(out.contains(r#"xmlUrl="https://a.example.com/rss""#));
    assert!(out.contains(r#"xmlUrl="https://b.example.com/atom""#));
    let urls = parse_opml(&out);
    assert_eq!(urls.len(), 2);
    assert!(urls.contains(&"https://a.example.com/rss".to_string()));
}

#[test]
fn export_opml_exact_document() {
    let out = export_opml(&[feed(1, "https://x/?a=1&b=2", "X & \"Y\"", "")]);
    assert_eq!(
        out,
        "<?xml version=\"1.0\" encoding=\"utf-8\"?><opml version=\"2.0\"><head><title>miniflux-reader-rs subscriptions</title></head><body><outline type=\"rss\" text=\"X &amp; &quot;Y&quot;\" xmlUrl=\"https://x/?a=1&amp;b=2\"/></body></opml>"
    );
    assert_eq!(parse_opml(&out), vec!["https://x/?a=1&b=2".to_string()]);
    let empty = export_opml(&[]);
    assert!(empty.ends_with("<body></body></opml>"));
    assert!(parse_opml(&empty).is_empty());
}

#[test]
fn opml_parse_edge_cases() {
    let xml = r#"<opml><body><x:outline XMLURL="https://a"/><outline xmlUrl=""/><other xmlUrl="https://no"/><outline xmlUrl="https://b"><outline xmlUrl="https://c"/></outline></body></opml>"#;
    assert_eq!(parse_opml(xml), vec!["https://a".to_string(), "https://b".to_string(), "https://c".to_string()]);
    let broken = r#"<opml><outline xmlUrl="https://dropped"/></broken>"#;
    assert_eq!(parse_opml(broken), Vec::<String>::new());
    assert!(parse_opml("not xml").is_empty());
}

#[test]
fn fetch_error_is_recorded_and_returned() {
    let (note, e) = on_fetch_error(FeedEngineError::UpstreamStatus(500));
    assert_eq!(note, "upstream returned HTTP 500");
    assert_eq!(e, FeedEngineError::UpstreamStatus(500));
}
