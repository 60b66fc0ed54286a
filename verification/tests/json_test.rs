use ox_browser::content::{extract_article_meta, page_author, page_excerpt, page_title};
use ox_browser::json::{json_ld_string, JsonValue};

fn s(x: &str) -> JsonValue {
    JsonValue::Str(x.to_string())
}

fn obj(members: Vec<(&str, JsonValue)>) -> JsonValue {
    JsonValue::Object(members.into_iter().map(|(k, v)| (k.to_string(), v)).collect())
}

#[test]
fn structured_data_lookups() {
    let ld = vec![
        obj(vec![("@type", s("WebSite")), ("name", s(""))]),
        obj(vec![
            ("name", s("Article")),
            ("publisher", obj(vec![("name", s("Example News"))])),
            ("keywords", JsonValue::Array(vec![s("rust"), JsonValue::Null, s("verus")])),
            ("datePublished", s("2024-05-01")),
        ]),
    ];
    assert_eq!(json_ld_string(&ld, "name").as_deref(), Some("Article"));
    assert_eq!(json_ld_string(&ld, "publisher").as_deref(), Some("Example News"));
    assert_eq!(json_ld_string(&ld, "keywords").as_deref(), Some("rust, verus"));
    assert_eq!(json_ld_string(&ld, "missing"), None);
}

#[test]
fn article_meta_prefers_meta_tags_then_structured_data() {
    let html = r#"<html lang="de"><head>
        <meta property="article:published_time" content="2024-01-02T03:04:05Z">
        <meta property="article:tag" content="one"><meta property="article:tag" content="two">
        <meta name="keywords" content="x, y">
        <meta property="og:title" content="OG Title">
        <meta name="description" content="Summary">
        </head></html>"#;
    let ld = vec![obj(vec![
        ("dateModified", s("2024-02-02")),
        ("articleSection", s("Tech")),
        ("author", s("Ada")),
    ])];
    let m = extract_article_meta(html, &ld);
    assert_eq!(m.published_at, "2024-01-02T03:04:05Z");
    assert_eq!(m.modified_at, "2024-02-02");
    assert_eq!(m.section, "Tech");
    assert_eq!(m.site_name, "");
    assert_eq!(m.tags, vec!["one".to_string(), "two".to_string()]);
    assert_eq!(m.language, "de");
    assert_eq!(page_title(html, "Tag Title"), "OG Title");
    assert_eq!(page_title("<p>", "Tag Title"), "Tag Title");
    assert_eq!(page_author(html, &ld), "Ada");
    assert_eq!(page_excerpt(html, &ld), "Summary");
}

#[test]
fn article_tags_fall_back_to_keywords() {
    let html = r#"<meta name="keywords" content=" alpha , ,beta ">"#;
    let m = extract_article_meta(html, &[]);
    assert_eq!(m.tags, vec!["alpha".to_string(), "beta".to_string()]);
    let ld = vec![obj(vec![("keywords", s("gamma,delta"))])];
    let m = extract_article_meta(html, &ld);
    assert_eq!(m.tags, vec!["gamma".to_string(), "delta".to_string()]);
}
