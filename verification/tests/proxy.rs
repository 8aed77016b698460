use miniflux_reader::proxy::{
    bilingual_targets, plan_proxy_response, inject_script_tag, inject_translation, pair_bilingual, replace_once, strip_csp_meta_tags,
};
use miniflux_reader::routes::{session_cookie, upload_too_large};

const INJECT_SCRIPT_TAG: &str = r#"<script src="/_inject_rs.js"></script>"#;

#[test]
fn strip_csp_meta_removes_only_csp_metas_case_insensitive() {
    let html = "<html><head>\
        <meta http-equiv=\"Content-Security-Policy\" content=\"default-src 'none'\">\
        <meta name=\"description\" content=\"keep me\">\
        <META HTTP-EQUIV=\"content-security-policy\" CONTENT=\"x\">\
        </head></html>";
    let out = strip_csp_meta_tags(html);
    assert!(!out.to_ascii_lowercase().contains("content-security-policy"));
    assert!(out.contains("keep me"));
}

#[test]
fn strip_csp_keeps_everything_else_verbatim() {
    let html = "<p>a</p><meta name=\"x\"><META http-equiv=\"Content-Security-Policy\" content=\"y\"><b>b</b><meta";
    assert_eq!(strip_csp_meta_tags(html), "<p>a</p><meta name=\"x\"><b>b</b><meta");
}

#[test]
fn inject_script_before_body_close_or_appends() {
    let with_body = "<html><body>x</body></html>";
    let out = inject_script_tag(with_body);
    let script_idx = out.find(INJECT_SCRIPT_TAG).unwrap();
    let body_idx = out.find("</body>").unwrap();
    assert!(script_idx < body_idx);

    let no_body = "<html>no body close";
    let out = inject_script_tag(no_body);
    assert!(out.ends_with(INJECT_SCRIPT_TAG));
}

#[test]
fn inject_script_exact_output() {
    assert_eq!(
        inject_script_tag("<body>x</body></body>"),
        "<body>x<script src=\"/_inject_rs.js\"></script></body></body>"
    );
}

#[test]
fn pair_bilingual_assigns_sequential_offsets() {
    let src = vec!["Hello.".to_string(), "World.".to_string()];
    let zh = vec!["你好。".to_string(), "世界。".to_string()];
    let pairs = pair_bilingual(src, zh);
    assert_eq!(pairs.len(), 2);
    assert_eq!(pairs[0].src_start, 0);
    assert_eq!(pairs[0].src_end, 6);
    assert_eq!(pairs[1].src_start, 6);
    assert_eq!(pairs[1].src_end, 12);
}

#[test]
fn pair_bilingual_counts_bytes_and_stops_at_shorter_list() {
    let pairs = pair_bilingual(vec!["你好".into(), "b".into(), "c".into()], vec!["x".into(), "y".into()]);
    assert_eq!(pairs.len(), 2);
    assert_eq!((pairs[0].src_start, pairs[0].src_end), (0, 6));
    assert_eq!((pairs[1].src_start, pairs[1].src_end), (6, 7));
    assert_eq!(pairs[1].zh, "y");
}

#[test]
fn replace_once_replaces_first_occurrence_only() {
    assert_eq!(replace_once("a-b-c", "-", "+"), "a+b-c");
    assert_eq!(replace_once("abc", "x", "y"), "abc");
    assert_eq!(replace_once("abc", "", "_"), "_abc");
    assert_eq!(replace_once("a-b-c", "-", "+"), "a-b-c".replacen("-", "+", 1));
}

#[test]
fn inject_translation_replaces_article_inner_html() {
    let html = "<html><div class=\"entry-content\"><p>Hi.</p></div></html>".to_string();
    let outer = "<div class=\"entry-content\"><p>Hi.</p></div>";
    let inner = "<p>Hi.</p>";
    let out = inject_translation(html.clone(), outer, inner, vec!["Hi.".into()], Some(vec!["嗨。".into()]));
    assert_eq!(
        out,
        "<html><div class=\"entry-content\"><div class=\"sentence\"><p>Hi.</p><p class=\"sentence--zh\" style=\"border-left:3px solid #3f87ff;padding-left:8px;color:#0066cc;\">嗨。</p></div></div></html>"
    );
    assert_eq!(inject_translation(html.clone(), outer, inner, vec!["Hi.".into()], None), html);
    assert_eq!(inject_translation(html.clone(), outer, inner, vec![], Some(vec!["x".into()])), html);
    assert_eq!(inject_translation(html.clone(), outer, inner, vec!["Hi.".into()], Some(vec![])), html);
    assert_eq!(inject_translation(html.clone(), outer, "<nope/>", vec!["Hi.".into()], Some(vec!["x".into()])), html);
}

#[test]
fn bilingual_targets_finds_article_bodies() {
    let html = "<html><body><div class=\"entry-content\"><p>One. Two.</p></div><div class=\"other\">x</div></body></html>";
    let t = bilingual_targets(html);
    assert_eq!(t.len(), 1);
    assert_eq!(t[0].0, "<div class=\"entry-content\"><p>One. Two.</p></div>");
    assert_eq!(t[0].1, "<p>One. Two.</p>");
    assert_eq!(t[0].2, vec!["One.".to_string(), "Two.".to_string()]);
}

#[test]
fn session_cookie_rewraps_the_value() {
    assert_eq!(session_cookie("session=abc123"), "MF_SESSION_RS=abc123; HttpOnly; Path=/");
    assert_eq!(session_cookie("a=b=c"), "MF_SESSION_RS=b; HttpOnly; Path=/");
    assert_eq!(session_cookie("novalue"), "MF_SESSION_RS=novalue; HttpOnly; Path=/");
    assert_eq!(session_cookie("k="), "MF_SESSION_RS=; HttpOnly; Path=/");
}

#[test]
fn upload_limit_is_fifty_mebibytes() {
    assert!(!upload_too_large(50 * 1024 * 1024));
    assert!(upload_too_large(50 * 1024 * 1024 + 1));
}

fn hs(pairs: &[(&str, &str)]) -> Vec<(String, String)> {
    pairs.iter().map(|(k, v)| (k.to_string(), v.to_string())).collect()
}

#[test]
fn proxy_plan_rewrites_only_html_200() {
    let headers = hs(&[
        ("content-type", "Text/HTML; charset=utf-8"),
        ("content-security-policy", "default-src 'none'"),
        ("content-length", "42"),
        ("x-test", "v"),
    ]);
    let (rewrite, kept) = plan_proxy_response(200, headers.clone());
    assert!(rewrite);
    assert_eq!(kept, hs(&[("content-type", "Text/HTML; charset=utf-8"), ("x-test", "v")]));
    let (rewrite, kept) = plan_proxy_response(404, headers.clone());
    assert!(!rewrite);
    assert_eq!(kept, headers);
    let (rewrite, _) = plan_proxy_response(200, hs(&[("content-type", "application/json")]));
    assert!(!rewrite);
    let (rewrite, kept) = plan_proxy_response(200, hs(&[("Content-Security-Policy", "x")]));
    assert!(!rewrite);
    assert_eq!(kept, hs(&[("Content-Security-Policy", "x")]));
}
