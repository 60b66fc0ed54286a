use ox_browser::content::{
    collapse_whitespace,
    extract_all_meta_content, extract_content_attr, extract_html_lang, extract_meta_content,
    extract_og_image, extract_time_datetime, extraction_gate_trips, is_low_quality,
    should_fallback, truncate_utf8, ContentFormat, EXTRACTION_GATE_REASON,
    EXTRACTION_GATE_SOURCE_FLOOR,
};
use ox_browser::content_detect::visible_text_len;

const EXTRACTION_GATE_TEXT_FRACTION: f64 = 0.10;

#[test]
fn format_from_param() {
    assert_eq!(ContentFormat::from_param("text"), ContentFormat::Text);
    assert_eq!(ContentFormat::from_param("markdown"), ContentFormat::Markdown);
    assert_eq!(ContentFormat::from_param("md"), ContentFormat::Markdown);
    assert_eq!(ContentFormat::from_param("html"), ContentFormat::Html);
    assert_eq!(ContentFormat::from_param("llm"), ContentFormat::Llm);
    assert_eq!(ContentFormat::from_param("unknown"), ContentFormat::Text);
}

#[test]
fn detects_low_quality_content() {
    let filler = "x".repeat(10_000);
    let html = format!(
        "<html><head><title>Block</title></head><body><script>{filler}</script><p>Please wait</p></body></html>"
    );
    assert!(is_low_quality(&html, "Please wait"));
}

#[test]
fn normal_content_is_not_low_quality() {
    let content = "A".repeat(500);
    let html = format!("<html><body><p>{content}</p></body></html>");
    assert!(!is_low_quality(&html, &content));
}

#[test]
fn truncates_with_utf8_safety() {
    let truncated = truncate_utf8("Привет мир!", 10);
    assert!(truncated.len() <= 14);
    assert!(truncated.ends_with('…'));
}

#[test]
fn truncate_exact_values() {
    assert_eq!(truncate_utf8("hello", 5), "hello");
    assert_eq!(truncate_utf8("hello", 3), "hel…");
    // "Привет" is 12 bytes; 11 falls inside "т", so the cut is pulled back to 10.
    assert_eq!(truncate_utf8("Привет", 11), "Приве…");
    assert_eq!(truncate_utf8("abc", 0), "…");
}

#[test]
fn should_fallback_codes() {
    assert!(should_fallback(401));
    assert!(should_fallback(403));
    assert!(should_fallback(429));
    assert!(should_fallback(503));
    assert!(!should_fallback(200));
    assert!(!should_fallback(404));
    assert!(!should_fallback(500));
}

#[test]
fn test_extract_og_image() {
    let html = r#"<html><head><meta property="og:image" content="https://example.com/hero.jpg"></head><body>Hello</body></html>"#;
    assert_eq!(extract_og_image(html), "https://example.com/hero.jpg");
}

#[test]
fn test_extract_og_image_missing() {
    let html = "<html><head><title>Test</title></head><body>Hello</body></html>";
    assert_eq!(extract_og_image(html), "");
}

#[test]
fn test_extract_og_image_single_quotes() {
    let html = r#"<html><head><meta property='og:image' content='https://example.com/img.png'></head></html>"#;
    assert_eq!(extract_og_image(html), "https://example.com/img.png");
}

#[test]
fn og_image_content_beyond_window_is_ignored() {
    let pad = " ".repeat(250);
    let html = format!(r#"<meta property="og:image"{pad}content="x.png">"#);
    assert_eq!(extract_og_image(&html), "");
}

#[test]
fn gate_trips_on_low_ratio_above_floor() {
    let src = "<html><body>".to_string() + &"listing item text here. ".repeat(200) + "</body></html>";
    let ext = "<div>loading reading writing</div>";
    assert!(
        visible_text_len(&src) >= EXTRACTION_GATE_SOURCE_FLOOR,
        "fixture setup: src visible text must be above floor"
    );
    assert_eq!(
        extraction_gate_trips(&src, ext),
        Some(EXTRACTION_GATE_REASON),
        "low ratio above floor must trip"
    );
}

#[test]
fn gate_does_not_trip_below_floor_even_with_extreme_ratio() {
    let src = format!("<html><body>{}</body></html>", "a".repeat(100));
    let ext = "xy";
    assert!(
        visible_text_len(&src) < EXTRACTION_GATE_SOURCE_FLOOR,
        "fixture setup: src visible text must be below floor"
    );
    assert!(
        (visible_text_len(ext) as f64)
            < (visible_text_len(&src) as f64) * EXTRACTION_GATE_TEXT_FRACTION,
        "fixture setup: ratio must be below fraction (so only the floor prevents a trip)"
    );
    assert_eq!(
        extraction_gate_trips(&src, ext),
        None,
        "below-floor source must never trip, regardless of ratio"
    );
}

#[test]
fn gate_does_not_trip_when_extraction_captures_enough() {
    let src = "<html><body>".to_string() + &"real article body text. ".repeat(200) + "</body></html>";
    let ext = &"real article body text. ".repeat(120);
    assert_eq!(
        extraction_gate_trips(&src, ext),
        None,
        "extraction above the fraction must not trip"
    );
}

#[test]
fn gate_floor_is_strict_threshold() {
    let mut src = String::new();
    for _ in 0..EXTRACTION_GATE_SOURCE_FLOOR {
        src.push('a');
    }
    assert_eq!(visible_text_len(&src), EXTRACTION_GATE_SOURCE_FLOOR);
    assert_eq!(extraction_gate_trips(&src, "z"), Some(EXTRACTION_GATE_REASON));
    let src_below: String = "a".repeat(EXTRACTION_GATE_SOURCE_FLOOR - 1);
    assert_eq!(extraction_gate_trips(&src_below, "z"), None);
}

#[test]
fn gate_ratio_boundary_is_one_tenth() {
    let src = "a".repeat(1000);
    assert_eq!(extraction_gate_trips(&src, &"b".repeat(99)), Some(EXTRACTION_GATE_REASON));
    assert_eq!(extraction_gate_trips(&src, &"b".repeat(100)), None);
}

#[test]
fn content_attr_prefers_double_quotes() {
    assert_eq!(extract_content_attr(r#"x content="a" content='b'"#), Some("a".to_string()));
    assert_eq!(extract_content_attr(r#"x content='b'"#), Some("b".to_string()));
    assert_eq!(extract_content_attr(r#"x content="unterminated"#), None);
    assert_eq!(extract_content_attr("nothing here"), None);
}

#[test]
fn meta_content_by_property_then_name() {
    let html = r#"<meta name="description" content="by name"><meta property="og:title" content="Title">"#;
    assert_eq!(extract_meta_content(html, "og:title"), Some("Title".to_string()));
    assert_eq!(extract_meta_content(html, "description"), Some("by name".to_string()));
    assert_eq!(extract_meta_content(html, "missing"), None);
    let empty = r#"<meta property="x" content=""><meta name='x' content='y'>"#;
    assert_eq!(extract_meta_content(empty, "x"), Some("y".to_string()));
}

#[test]
fn all_meta_content_collects_every_tag() {
    let html = r#"<meta property="article:tag" content="rust"><meta property="article:tag" content=""><meta property="article:tag" content="verus">"#;
    assert_eq!(
        extract_all_meta_content(html, "article:tag"),
        vec!["rust".to_string(), "verus".to_string()]
    );
    assert!(extract_all_meta_content(html, "other").is_empty());
}

#[test]
fn time_datetime_needs_ten_bytes() {
    assert_eq!(
        extract_time_datetime(r#"<time datetime="2024-01-02T03:04">x</time>"#),
        Some("2024-01-02T03:04".to_string())
    );
    assert_eq!(extract_time_datetime(r#"<time datetime="2024">x</time>"#), None);
    assert_eq!(extract_time_datetime("<p>none</p>"), None);
}

#[test]
fn html_lang_attribute() {
    assert_eq!(extract_html_lang(r#"<html lang="en-US"><body>"#), Some("en-US".to_string()));
    assert_eq!(extract_html_lang(r#"<html lang=""><body>"#), None);
    assert_eq!(extract_html_lang("<body>"), None);
}

#[test]
fn collapse_whitespace_joins_words() {
    assert_eq!(collapse_whitespace("  a \n\t b  c  "), "a b c");
    assert_eq!(collapse_whitespace(" \u{3000} "), "");
}
