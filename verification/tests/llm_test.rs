use ox_browser::llm::{build_metadata_header, ReadOutput};

fn make_output(content: &str) -> ReadOutput {
    ReadOutput {
        title: "Test Page".into(),
        content: content.into(),
        author: String::new(),
        excerpt: "A test page".into(),
        url: "https://example.com".into(),
        format: "llm".into(),
        length: content.len(),
        method: "direct".into(),
        elapsed_ms: 42,
        json_ld: vec![],
        og_image: String::new(),
        published_at: String::new(),
        modified_at: String::new(),
        section: String::new(),
        site_name: String::new(),
        tags: vec![],
        language: "en".into(),
        error: None,
        extraction_note: None,
    }
}

#[test]
fn header_lists_populated_fields_in_order() {
    let result = make_output("# Hello");
    let mut out = String::new();
    build_metadata_header(&mut out, &result);
    assert_eq!(
        out,
        "> URL: https://example.com\n> Title: Test Page\n> Description: A test page\n> Language: en\n> Length: 7\n"
    );
    assert!(!out.contains("> Author:"));
}

#[test]
fn header_is_empty_without_metadata() {
    let mut result = make_output("Just content");
    result.title = String::new();
    result.excerpt = String::new();
    result.url = String::new();
    result.language = String::new();
    result.length = 0;
    let mut out = String::from("prefix");
    build_metadata_header(&mut out, &result);
    assert_eq!(out, "prefix");
}

#[test]
fn header_includes_author_date_and_site() {
    let mut result = make_output("");
    result.author = "Ann".into();
    result.published_at = "2024-01-02".into();
    result.site_name = "Example".into();
    let mut out = String::new();
    build_metadata_header(&mut out, &result);
    assert_eq!(
        out,
        "> URL: https://example.com\n> Title: Test Page\n> Description: A test page\n> Author: Ann\n> Published: 2024-01-02\n> Site: Example\n> Language: en\n"
    );
}
