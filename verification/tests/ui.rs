use miniflux_reader::ui::{
    debounce_fire_count, fixture_articles, fixture_bilingual_sentences, fixture_books, fixture_feeds, ToggleLang,
};

#[test]
fn should_return_at_least_one_unread_article() {
    let articles = fixture_articles();
    assert!(articles.iter().any(|a| !a.read));
}

#[test]
fn should_return_a_mix_of_read_and_unread_articles() {
    let articles = fixture_articles();
    let has_unread = articles.iter().any(|a| !a.read);
    let has_read = articles.iter().any(|a| a.read);
    assert!(has_unread && has_read, "must cover both visual states");
}

#[test]
fn should_publish_articles_in_iso_8601_utc_format() {
    let articles = fixture_articles();
    for a in &articles {
        assert!(a.published_at.ends_with('Z') && a.published_at.contains('T'), "non-ISO timestamp: {a:?}");
    }
}

#[test]
fn should_return_distinct_feed_ids_in_articles() {
    let articles = fixture_articles();
    let unique: std::collections::HashSet<_> = articles.iter().map(|a| a.feed_id).collect();
    assert!(unique.len() >= 2, "articles should cover at least 2 distinct feeds");
}

#[test]
fn should_include_zero_unread_feed_in_fixture() {
    let feeds = fixture_feeds();
    assert!(feeds.iter().any(|f| f.unread_count == 0));
}

#[test]
fn should_include_nonzero_unread_feed_in_fixture() {
    let feeds = fixture_feeds();
    assert!(feeds.iter().any(|f| f.unread_count > 0));
}

#[test]
fn should_return_books_with_epub_safe_names() {
    let books = fixture_books();
    assert!(!books.is_empty());
    for b in &books {
        assert!(b.safe_name.ends_with(".epub"), "book safe_name must keep the .epub extension: {b:?}");
        assert!(!b.title.is_empty(), "book title must not be empty");
    }
}

#[test]
fn should_return_bilingual_sentences_with_monotonic_offsets() {
    let (sentences, lang) = fixture_bilingual_sentences();
    assert!(matches!(lang, ToggleLang::Bilingual));
    assert!(!sentences.is_empty());
    let mut prev_end: usize = 0;
    for s in &sentences {
        assert!(s.src_end >= s.src_start, "src_end < src_start: {s:?}");
        assert!(s.src_end > prev_end, "src_end must be strictly increasing");
        prev_end = s.src_end;
    }
}

#[test]
fn fixture_articles_are_deterministic_across_calls() {
    let a = fixture_articles();
    let b = fixture_articles();
    assert_eq!(a.len(), b.len());
    for (x, y) in a.iter().zip(b.iter()) {
        assert_eq!(x.id, y.id);
        assert_eq!(x.url, y.url);
        assert_eq!(x.read, y.read);
    }
}

#[test]
fn fixture_contents_are_exact() {
    let a = fixture_articles();
    assert_eq!(a.len(), 5);
    assert_eq!(a[0].feed_title, "Hacker News");
    assert_eq!(a[2].url, "https://sqlite.org/releaselog/3_48_0.html");
    let f = fixture_feeds();
    assert!(f.iter().all(|x| !x.title.is_empty()));
    let b = fixture_books();
    assert_eq!(b[1].title, "The Rustonomicon");
    let (s, _) = fixture_bilingual_sentences();
    assert_eq!((s[3].src_start, s[3].src_end), (230, 272));
}

#[test]
fn t5_debounce_fires_once_for_rapid_calls() {
    let calls = vec![0u64, 50, 100, 150, 200];
    let fire_count = debounce_fire_count(&calls, 500);
    assert_eq!(fire_count, 1, "5 rapid calls within 500ms window should fire exactly once, got {fire_count}");
}

#[test]
fn t5b_debounce_fires_twice_for_calls_apart() {
    let calls = vec![0u64, 100, 700, 800];
    let fire_count = debounce_fire_count(&calls, 500);
    assert_eq!(fire_count, 2, "calls in two separate 500ms windows should fire twice, got {fire_count}");
}

#[test]
fn debounce_edge_cases() {
    assert_eq!(debounce_fire_count(&[], 500), 0);
    assert_eq!(debounce_fire_count(&[7], 500), 1);
    assert_eq!(debounce_fire_count(&[0, 500, 1000], 500), 3);
    assert_eq!(debounce_fire_count(&[1000, 0, 10], 500), 1);
    assert_eq!(debounce_fire_count(&[1, 1, 1], 0), 3);
}

#[test]
fn fixture_sentence_offsets_are_byte_ranges_of_the_source() {
    let (s, _) = fixture_bilingual_sentences();
    assert_eq!(s[0].src_start, 0);
    for i in 0..s.len() {
        assert_eq!(s[i].src_end - s[i].src_start, s[i].src.len());
        if i + 1 < s.len() {
            assert_eq!(s[i + 1].src_start, s[i].src_end);
        }
    }
}
