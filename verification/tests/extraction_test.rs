use ox_browser::content::{ContentFormat, ExtractedNode};
use ox_browser::extraction::extract_content;
use ox_browser::html_doc::{html_to_fit_markdown, html_to_plain, ld_json_scripts};

const PAGE: &str = r#"<html><head><title>Doc Title</title>
<meta name="description" content="A short summary">
<meta property="og:image" content="https://img.example/x.png">
<script type="application/ld+json"> {"@type":"Article"} </script>
<script type="application/ld+json">   </script>
</head><body><nav>Menu</nav><main><p>Hello <b>world</b></p></main>
<script>var hidden = 1;</script></body></html>"#;

fn node(html: &str, h1: &str) -> ExtractedNode {
    ExtractedNode { html: html.to_string(), recovered_h1: h1.to_string() }
}

#[test]
fn empty_html_gives_empty_content() {
    let c = extract_content("", "https://example.com", ContentFormat::Markdown, vec![], node("<p>x</p>", "H"));
    assert!(c.title.is_empty() && c.content.is_empty() && c.author.is_empty() && c.excerpt.is_empty());
    assert_eq!(c.length, 0);
    assert!(c.extraction_note.is_none());
}

#[test]
fn text_format_reads_the_node_and_meta() {
    let c = extract_content(PAGE, "https://example.com", ContentFormat::Text, vec![], node("<main><p>Hello <b>world</b></p></main>", ""));
    assert_eq!(c.content, "Hello world");
    assert_eq!(c.length, 11);
    assert_eq!(c.title, "Doc Title");
    assert_eq!(c.excerpt, "A short summary");
    assert_eq!(c.og_image, "https://img.example/x.png");
    assert!(c.extraction_note.is_none());
}

#[test]
fn markdown_format_restores_the_heading() {
    let c = extract_content(PAGE, "https://example.com", ContentFormat::Markdown, vec![], node("<p>Hello world</p>", "Big Title"));
    assert!(c.content.starts_with("# Big Title\n\n"));
    assert!(c.content.contains("Hello world"));
    assert_eq!(c.length, c.content.len());
}

#[test]
fn html_format_is_the_node_itself() {
    let c = extract_content(PAGE, "https://example.com", ContentFormat::Html, vec![], node("<p>Hello world</p>", ""));
    assert_eq!(c.content, "<p>Hello world</p>");
}

#[test]
fn plain_text_drops_scripts_and_fit_markdown_drops_chrome() {
    let plain = html_to_plain(PAGE);
    assert!(plain.contains("Hello world"));
    assert!(!plain.contains("hidden"));
    assert!(plain.contains("Menu"));
    let md = html_to_fit_markdown(PAGE);
    assert!(md.contains("Hello"));
    assert!(!md.contains("Menu"));
}

#[test]
fn structured_data_scripts_are_trimmed_and_non_empty() {
    assert_eq!(ld_json_scripts(PAGE), vec![r#"{"@type":"Article"}"#.to_string()]);
}
