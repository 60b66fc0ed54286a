use ox_browser::json::{is_useful_structured_data, scrub_body_fields, JsonValue};

fn to_json(v: &serde_json::Value) -> JsonValue {
    match v {
        serde_json::Value::Null => JsonValue::Null,
        serde_json::Value::Bool(b) => JsonValue::Bool(*b),
        serde_json::Value::Number(n) => JsonValue::Number(n.to_string()),
        serde_json::Value::String(s) => JsonValue::Str(s.clone()),
        serde_json::Value::Array(a) => JsonValue::Array(a.iter().map(to_json).collect()),
        serde_json::Value::Object(m) => {
            JsonValue::Object(m.iter().map(|(k, v)| (k.clone(), to_json(v))).collect())
        }
    }
}

fn useful(v: &serde_json::Value) -> bool {
    let len = serde_json::to_string(v).unwrap().len();
    is_useful_structured_data(&to_json(v), len)
}

fn object(pairs: Vec<(&str, serde_json::Value)>) -> serde_json::Value {
    let mut m = serde_json::Map::new();
    for (k, v) in pairs {
        m.insert(k.to_string(), v);
    }
    serde_json::Value::Object(m)
}

fn text(s: &str) -> serde_json::Value {
    serde_json::Value::String(s.to_string())
}

fn member<'a>(v: &'a JsonValue, key: &str) -> Option<&'a JsonValue> {
    match v {
        JsonValue::Object(ms) => ms.iter().find(|(k, _)| k == key).map(|(_, v)| v),
        _ => None,
    }
}

#[test]
fn structured_data_drops_chrome_types() {
    let v = object(vec![
        ("@type", text("WebSite")),
        ("name", text("Example")),
        ("url", text("https://example.com")),
    ]);
    assert!(!useful(&v), "WebSite chrome kept");
}

#[test]
fn structured_data_keeps_article_types() {
    let v = object(vec![
        ("@type", text("NewsArticle")),
        ("headline", text("Big news")),
        ("datePublished", text("2026-05-10")),
    ]);
    assert!(useful(&v), "NewsArticle dropped");
}

#[test]
fn structured_data_scrubs_duplicate_article_body() {
    let body = "This is the rendered article body. ".repeat(40);
    let v = object(vec![
        ("@type", text("NewsArticle")),
        ("headline", text("Big news")),
        ("articleBody", text(&body)),
        ("description", text("A short useful summary")),
    ]);
    assert!(useful(&v));
    let mut j = to_json(&v);
    scrub_body_fields(&mut j, 0);
    assert!(member(&j, "articleBody").is_none(), "Duplicate article body leaked");
    assert!(matches!(member(&j, "headline"), Some(JsonValue::Str(s)) if s == "Big news"));
    assert!(
        matches!(member(&j, "description"), Some(JsonValue::Str(s)) if s == "A short useful summary")
    );
}

#[test]
fn structured_data_drops_oversized_blob() {
    let big = "x".repeat(32 * 1024);
    let v = object(vec![
        ("buildId", text("abc")),
        ("isFallback", serde_json::Value::Bool(false)),
        ("noise", text(&big)),
    ]);
    assert!(!useful(&v), "Oversized untyped blob kept");
}

#[test]
fn structured_data_keeps_compact_untyped() {
    let v = object(vec![("title", text("Hi")), ("body", text("small enough to keep"))]);
    assert!(useful(&v), "Compact untyped dropped");
}

fn first_unscrubbed_article_body_depth(mut value: &JsonValue) -> Option<usize> {
    let mut depth = 0;
    loop {
        if !matches!(value, JsonValue::Object(_)) {
            return None;
        }
        if member(value, "articleBody").is_some() {
            return Some(depth);
        }
        value = member(value, "n")?;
        depth += 1;
    }
}

#[test]
fn scrub_body_fields_bounds_recursion_on_deep_nesting() {
    const DEPTH: usize = 80;
    let mut node = object(vec![("articleBody", text(&"x".repeat(600)))]);
    for _ in 0..DEPTH {
        node = object(vec![("articleBody", text(&"x".repeat(600))), ("n", node)]);
    }
    let mut j = to_json(&node);
    scrub_body_fields(&mut j, 0);
    let stopped_at = first_unscrubbed_article_body_depth(&j)
        .expect("recursion must stop and leave a deep articleBody intact");
    assert_eq!(stopped_at, 64, "recursion should stop at the depth cap, stopped at {stopped_at}");
    assert!(member(&j, "articleBody").is_none(), "shallow articleBody must still be scrubbed");
}

#[test]
fn structured_data_type_arrays_and_other_values() {
    let mixed = object(vec![(
        "@type",
        serde_json::Value::Array(vec![text("WebPage"), serde_json::Value::Null, text("Recipe")]),
    )]);
    assert!(useful(&mixed));
    let chrome_only = object(vec![(
        "@type",
        serde_json::Value::Array(vec![text("WEBSITE"), text("SiteNavigationElement")]),
    )]);
    assert!(!useful(&chrome_only));
    let no_names = object(vec![("@type", serde_json::Value::Bool(true))]);
    assert!(!useful(&no_names));
    assert!(useful(&serde_json::Value::Array(vec![text("a")])));
    assert!(!useful(&text("plain")));
    assert!(!is_useful_structured_data(&JsonValue::Array(vec![]), 4097));
    assert!(is_useful_structured_data(&JsonValue::Array(vec![]), 4096));
}

#[test]
fn scrub_keeps_short_bodies_and_scrubs_arrays() {
    let long = "y".repeat(500);
    let v = serde_json::Value::Array(vec![object(vec![
        ("text", text(&long)),
        ("body", text("short")),
        ("description", serde_json::Value::Bool(true)),
    ])]);
    let mut j = to_json(&v);
    scrub_body_fields(&mut j, 0);
    match &j {
        JsonValue::Array(items) => {
            assert_eq!(items.len(), 1);
            assert!(member(&items[0], "text").is_none());
            assert!(member(&items[0], "body").is_some());
            assert!(member(&items[0], "description").is_some());
        }
        _ => panic!("array expected"),
    }
}
