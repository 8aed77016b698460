use miniflux_reader::bilingual::{render_bilingual_div, BilingualSentence};
use miniflux_reader::chunk::{chunk_paragraphs, ChunkConfig};
use miniflux_reader::sentence::{is_cjk, split_sentences, LanguageHint};

#[test]
fn single_pair_renders_src_p_and_zh_paragraph_with_blue_border() {
    let pair = BilingualSentence {
        src: "Hello world.".to_string(),
        zh: "你好世界。".to_string(),
        src_start: 0,
        src_end: 12,
    };
    let html = render_bilingual_div(&[pair]);
    assert!(html.contains("<p>Hello world.</p>"), "got: {}", html);
    assert!(html.contains(r#"class="sentence--zh""#), "got: {}", html);
    assert!(html.contains("border-left:3px solid #3f87ff"), "got: {}", html);
    assert!(html.contains("你好世界。"), "got: {}", html);
    assert!(html.contains(r#"<div class="sentence">"#), "got: {}", html);
}

#[test]
fn empty_slice_returns_empty_string() {
    let html = render_bilingual_div(&[]);
    assert_eq!(html, "", "no bilingual pairs → blank HTML, not empty div");
}

#[test]
fn two_sentences_concatenate_two_wrappers() {
    let s1 = BilingualSentence { src: "A.".into(), zh: "甲。".into(), src_start: 0, src_end: 2 };
    let s2 = BilingualSentence { src: "B.".into(), zh: "乙。".into(), src_start: 2, src_end: 4 };
    let html = render_bilingual_div(&[s1, s2]);
    assert_eq!(html.matches(r#"<div class="sentence">"#).count(), 2, "N sentences → N wrapper divs");
}

#[test]
fn rendered_pair_is_exact() {
    let s = BilingualSentence { src: "A.".into(), zh: "甲。".into(), src_start: 0, src_end: 2 };
    assert_eq!(
        render_bilingual_div(&[s]),
        "<div class=\"sentence\"><p>A.</p><p class=\"sentence--zh\" style=\"border-left:3px solid #3f87ff;padding-left:8px;color:#0066cc;\">甲。</p></div>"
    );
}

#[test]
fn rendering_two_slices_concatenates_their_renderings() {
    let a = BilingualSentence { src: "One.".into(), zh: "一。".into(), src_start: 0, src_end: 4 };
    let b = BilingualSentence { src: "Two.".into(), zh: "二。".into(), src_start: 4, src_end: 8 };
    let both = render_bilingual_div(&[a.clone(), b.clone()]);
    let sep = format!("{}{}", render_bilingual_div(&[a]), render_bilingual_div(&[b]));
    assert_eq!(both, sep);
}

#[test]
fn workspace_placeholder_exactly_one_assumption_holds() {
    assert_eq!(2, 1 + 1);
}

#[test]
fn max_chars_smaller_than_first_sentence_keeps_sentence_intact() {
    let sents = vec!["abcd".to_string()];
    let cfg = ChunkConfig { max_chars: 1, overlap_sentences: 0 };
    let chunks = chunk_paragraphs(sents, &cfg);
    assert_eq!(chunks.len(), 1, "overflowing 1-sentence input → 1 chunk");
    assert_eq!(chunks[0], vec!["abcd".to_string()]);
}

#[test]
fn overlap_one_repeats_last_sentence_across_boundary() {
    let s0 = "0123456789".to_string();
    let s1 = "abcdefghij".to_string();
    let sents = vec![s0.clone(), s1.clone()];
    let cfg = ChunkConfig { max_chars: 10, overlap_sentences: 1 };
    let chunks = chunk_paragraphs(sents, &cfg);
    assert!(chunks.len() >= 2, "need at least 2 chunks; got {:?}", chunks);
    assert_eq!(chunks[0], vec![s0.clone()]);
    assert_eq!(chunks[1], vec![s0, s1], "chunk 2 must start with overlap of last 1 sentence from chunk 1");
}

#[test]
fn empty_sentences_returns_zero_chunks() {
    let cfg = ChunkConfig { max_chars: 100, overlap_sentences: 0 };
    let chunks = chunk_paragraphs(vec![], &cfg);
    assert_eq!(chunks.len(), 0, "empty input → empty chunk vec, not [[]]");
}

#[test]
fn single_sentence_always_forms_one_chunk_even_on_overflow() {
    let r = chunk_paragraphs(vec!["xx".to_string()], &ChunkConfig { max_chars: 1, overlap_sentences: 0 });
    assert_eq!(r, vec![vec!["xx".to_string()]]);
}

#[test]
fn chunks_without_overlap_partition_the_sentences() {
    let sents: Vec<String> = vec!["aaa", "bb", "cccc", "d", "eeeee"].into_iter().map(String::from).collect();
    let r = chunk_paragraphs(sents.clone(), &ChunkConfig { max_chars: 5, overlap_sentences: 0 });
    assert_eq!(
        r,
        vec![
            vec!["aaa".to_string(), "bb".to_string()],
            vec!["cccc".to_string(), "d".to_string()],
            vec!["eeeee".to_string()],
        ]
    );
    let flat: Vec<String> = r.iter().flatten().cloned().collect();
    assert_eq!(flat, sents);
    for c in &r {
        assert!(!c.is_empty());
        if c.len() >= 2 {
            assert!(c.iter().map(|s| s.chars().count()).sum::<usize>() <= 5);
        }
    }
}

#[test]
fn chunk_limit_counts_characters_not_bytes() {
    let sents = vec!["你好".to_string(), "世界".to_string()];
    let r = chunk_paragraphs(sents.clone(), &ChunkConfig { max_chars: 4, overlap_sentences: 0 });
    assert_eq!(r, vec![sents]);
}

#[test]
fn overlap_can_push_a_chunk_past_the_limit() {
    let sents = vec!["0123456789".to_string(), "abcdefghij".to_string()];
    let r = chunk_paragraphs(sents.clone(), &ChunkConfig { max_chars: 10, overlap_sentences: 1 });
    assert_eq!(r[1].iter().map(|s| s.chars().count()).sum::<usize>(), 20);
}

#[test]
fn overlap_larger_than_chunk_carries_whole_chunk() {
    let sents: Vec<String> = vec!["ab", "cd", "ef"].into_iter().map(String::from).collect();
    let r = chunk_paragraphs(sents, &ChunkConfig { max_chars: 4, overlap_sentences: 5 });
    assert_eq!(r[0], vec!["ab".to_string(), "cd".to_string()]);
    assert!(r[1].starts_with(&r[0]));
}

#[test]
fn cjk_helper_covers_common_ranges() {
    assert!(is_cjk('中'));
    assert!(is_cjk('。'));
    assert!(!is_cjk('A'));
}

#[test]
fn zh_period_splits_two_clauses() {
    let r = split_sentences("你好。世界。", LanguageHint::Zh);
    assert_eq!(r, vec!["你好。".to_string(), "世界。".to_string()], "两个中文分句应该被句号正确分隔");
}

#[test]
fn en_period_splits_two_sentences() {
    let r = split_sentences("Hello world. Good morning.", LanguageHint::En);
    assert_eq!(r.len(), 2, "英文两句话应该返回 2 个句子");
    assert_eq!(r[0], "Hello world.".to_string());
    assert_eq!(r[1], "Good morning.".to_string());
}

#[test]
fn detect_zh_mixed_en_handles_both() {
    let r = split_sentences("你好世界。Hello world. Good.", LanguageHint::Detect);
    assert!(r.len() >= 3, "Detect 模式下中英混合文本至少切出 3 句，实际 len = {}", r.len());
}

#[test]
fn empty_text_returns_empty_vec() {
    assert_eq!(split_sentences("", LanguageHint::Detect).len(), 0, "空字符串必须返回空 Vec");
}

#[test]
fn abbreviations_without_space_do_not_split() {
    let r = split_sentences("U.S.A is great.", LanguageHint::En);
    assert_eq!(r.len(), 1, "U.S.A 缩写不能被误切为多句，实际 = {:?}", r);
}

#[test]
fn en_split_needs_uppercase_or_digit_after_space() {
    let r = split_sentences("It rains. then it stops. 3 days later! Done?", LanguageHint::En);
    assert_eq!(r, vec!["It rains. then it stops.".to_string(), "3 days later!".to_string(), "Done?".to_string()]);
}

#[test]
fn zh_split_trims_and_drops_empty_pieces() {
    let r = split_sentences("  甲。 。乙！ 丙  ", LanguageHint::Zh);
    assert_eq!(r, vec!["甲。".to_string(), "。".to_string(), "乙！".to_string(), "丙".to_string()]);
}

#[test]
fn split_sentences_are_trimmed_and_nonempty() {
    for hint in [LanguageHint::Zh, LanguageHint::En, LanguageHint::Detect] {
        for s in split_sentences("  One. Two!  三。 \n Four?  ", hint) {
            assert!(!s.is_empty());
            assert_eq!(s.trim(), s);
        }
    }
}

#[test]
fn detect_uses_english_rules_at_one_tenth_cjk() {
    // One CJK character in ten is not more than a tenth: English rules.
    let r = split_sentences("中abcdefg.h", LanguageHint::Detect);
    assert_eq!(r, vec!["中abcdefg.h".to_string()]);
    // Two in nine: Chinese rules cut after the period.
    let r = split_sentences("中文cdefg.h", LanguageHint::Detect);
    assert_eq!(r, vec!["中文cdefg.".to_string(), "h".to_string()]);
}

#[test]
fn abbreviation_before_capital_does_not_split() {
    let r = split_sentences("Dr. Smith is here.", LanguageHint::En);
    assert_eq!(r, vec!["Dr. Smith is here.".to_string()]);
    let r = split_sentences("I met Mr. Brown. He waved.", LanguageHint::En);
    assert_eq!(r, vec!["I met Mr. Brown.".to_string(), "He waved.".to_string()]);
}

#[test]
fn unicode_whitespace_is_trimmed() {
    let r = split_sentences("\u{3000}你好。\u{00A0}世界。\u{2028}", LanguageHint::Zh);
    assert_eq!(r, vec!["你好。".to_string(), "世界。".to_string()]);
}

#[test]
fn zh_sentences_split_into_themselves() {
    for s in split_sentences("  你好。世界！ Hello. 尾巴 ", LanguageHint::Zh) {
        assert_eq!(split_sentences(&s, LanguageHint::Zh), vec![s.clone()]);
    }
}

#[test]
fn en_sentences_split_into_themselves() {
    let r = split_sentences("Dr. Smith is here. Next one! I met Mr. Brown. He waved. 3 more?", LanguageHint::En);
    assert_eq!(r.len(), 5, "got: {:?}", r);
    for s in r {
        assert_eq!(split_sentences(&s, LanguageHint::En), vec![s.clone()]);
    }
}
