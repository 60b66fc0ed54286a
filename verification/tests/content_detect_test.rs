use ox_browser::content_detect::{needs_js_rendering, visible_text_len};

#[test]
fn detects_cf_challenge() {
    let html = r#"<html><body><script>challenge-platform</script></body></html>"#;
    assert!(needs_js_rendering(html));
}

#[test]
fn detects_react_shell() {
    let html = r#"<html><head><script src="app.js"></script></head><body><div id="root"></div></body></html>"#;
    assert!(needs_js_rendering(html));
}

#[test]
fn accepts_real_content() {
    let content = "a".repeat(250);
    let html = format!(r#"<html><body><h1>Title</h1><p>{content}</p></body></html>"#);
    assert!(!needs_js_rendering(&html));
}

#[test]
fn detects_noscript() {
    let html = r#"<html><body><noscript>You need to enable JavaScript to run this app.</noscript></body></html>"#;
    assert!(needs_js_rendering(html));
}

#[test]
fn detects_nextjs_shell() {
    let html = r#"<html><body><div id="__next"></div><script src="/_next/static/chunks/main.js"></script></body></html>"#;
    assert!(needs_js_rendering(html));
}

#[test]
fn detects_angular_ssr_shell() {
    let filler_tags = "<script>".repeat(1500);
    let html = format!(
        r#"<html ng-version="19.0"><body><app-root>{filler_tags}<p>Short text</p></app-root></body></html>"#
    );
    assert!(html.len() >= 10_000);
    assert!(needs_js_rendering(&html));
}

#[test]
fn accepts_large_page_with_content() {
    let padding = "<div class=\"x\">".repeat(800);
    let content = "word ".repeat(100);
    let html = format!(
        r#"<html ng-version="19.0"><body>{padding}<article>{content}</article></body></html>"#
    );
    assert!(html.len() >= 10_000);
    assert!(!needs_js_rendering(&html));
}

#[test]
fn visible_text_len_counts_cjk_chars_not_bytes() {
    let html = "<p>こんにちは</p>";
    assert_eq!(
        visible_text_len(html),
        5,
        "5 hiragana chars must count as 5, not {} bytes",
        "こんにちは".len()
    );
}

#[test]
fn visible_text_len_counts_cyrillic_chars_not_bytes() {
    let html = "<p>Привет</p>";
    assert_eq!(
        visible_text_len(html),
        6,
        "6 Cyrillic chars must count as 6, not {} bytes",
        "Привет".len()
    );
}

#[test]
fn visible_text_len_cjk_floor_is_char_based() {
    let body = "あ".repeat(500);
    let html = format!("<html><body>{body}</body></html>");
    assert_eq!(
        visible_text_len(&html),
        500,
        "500 CJK chars must count as 500 (char-based floor), not 1500 (bytes)"
    );
}

#[test]
fn visible_text_len_ideographic_space_is_whitespace() {
    let html = "<p>あ\u{3000}い</p>";
    assert_eq!(visible_text_len(html), 2, "U+3000 ideographic space must not count as visible text");
}

#[test]
fn visible_text_len_nbsp_is_whitespace() {
    let html = "<p>a\u{00a0}b</p>";
    assert_eq!(visible_text_len(html), 2, "U+00A0 NBSP must not count as visible text");
}

#[test]
fn visible_text_len_mixed_script_counts_chars() {
    let html = "<p>Hello世界Мир</p>";
    assert_eq!(visible_text_len(html), 10, "mixed-script text must count codepoints, not bytes");
}

#[test]
fn visible_text_len_strips_script_style_with_multibyte() {
    let html = "<style>body{color:red}</style><p>テスト</p><script>var x=1</script>";
    assert_eq!(
        visible_text_len(html),
        3,
        "only the 3 katakana chars outside script/style must count"
    );
}

#[test]
fn visible_text_len_case_insensitive_tags() {
    assert_eq!(visible_text_len("<SCRIPT>abc</Script>de"), 2);
    assert_eq!(visible_text_len("a > b"), 2);
    assert_eq!(visible_text_len(""), 0);
}
