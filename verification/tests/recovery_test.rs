use ox_browser::recovery::{is_inside_structural_noise, recover_content};

fn recover(html: &str, md: &str, h1: &str) -> (String, Vec<(String, String)>) {
    let mut m = md.to_string();
    let mut links = Vec::new();
    recover_content(html, Some("https://example.com/page"), &mut m, h1, &mut links);
    (m, links)
}

#[test]
fn is_inside_structural_noise_detects_nav() {
    let html = r##"<html><body>
            <nav><h2>Navigation Heading</h2></nav>
        </body></html>"##;
    assert!(is_inside_structural_noise(html, "h2", 0));
}

#[test]
fn is_inside_structural_noise_false_for_content() {
    let html = r##"<html><body>
            <article><h2>Content Heading</h2></article>
        </body></html>"##;
    assert!(!is_inside_structural_noise(html, "h2", 0));
}

#[test]
fn heading_and_hero_paragraph_are_restored() {
    let html = r#"<html><body><header><div><h1>Acme Rockets</h1>
        <p>We build reusable rockets for small satellites, launching every week.</p></div></header>
        <main><p>Body text of the page.</p></main></body></html>"#;
    let (md, links) = recover(html, "Body text of the page.\n", "Acme Rockets");
    assert_eq!(
        md,
        "# Acme Rockets\n\nWe build reusable rockets for small satellites, launching every week.\n\nBody text of the page.\n"
    );
    assert!(links.is_empty());
}

#[test]
fn heading_already_present_is_left_alone() {
    let html = "<html><body><h1>Title</h1><p>x</p></body></html>";
    let (md, _) = recover(html, "# Title\n\nx\n", "Title");
    assert_eq!(md, "# Title\n\nx\n");
}

#[test]
fn announcement_banner_goes_first_with_its_links() {
    let html = r#"<html><body><div role="region" aria-label="Announcement">
        New   release <a href="/blog/v2">Read more</a></div><main><p>Body</p></main></body></html>"#;
    let (md, links) = recover(html, "Body\n", "");
    assert_eq!(md, "> **New release Read more**\n\nBody\n");
    assert_eq!(links, vec![("Read more".to_string(), "https://example.com/blog/v2".to_string())]);
}

#[test]
fn footer_call_to_action_is_appended() {
    let html = r#"<html><body><main><p>Body</p></main><footer><h2>Start building today</h2>
        <a href="https://docs.example.com/start">Read the docs</a><a href="/privacy">Privacy</a></footer></body></html>"#;
    let (md, links) = recover(html, "Body\n", "");
    assert_eq!(md, "Body\n\n\n## Start building today\n\n[Read the docs](https://docs.example.com/start)\n\n");
    assert_eq!(links, vec![("Read the docs".to_string(), "https://docs.example.com/start".to_string())]);
}

#[test]
fn footer_sitemap_needs_three_categories() {
    let html = r#"<html><body><main><p>Body</p></main><footer>
        <div><h3>Products</h3><a href="/a">Alpha</a><a href="/b">Beta</a></div>
        <div><h3>Company</h3><a href="/about">About us</a><a href="/jobs">Careers</a></div>
        <div><h3>Support</h3><a href="/help">Help center</a><a href="/status">Status</a></div>
        </footer></body></html>"#;
    let (md, links) = recover(html, "Body\n", "");
    assert!(md.ends_with(
        "\n\n---\n\n**Products**: Alpha, Beta\n**Company**: About us, Careers\n**Support**: Help center, Status\n"
    ));
    assert_eq!(links.len(), 6);
    assert_eq!(links[0], ("Alpha".to_string(), "https://example.com/a".to_string()));
}

#[test]
fn section_heading_goes_before_its_section_text() {
    let html = r#"<html><body><section><div class="promo"><h2>Why choose us</h2></div>
        <p>Our service is fast, reliable and affordable for everyone.</p></section></body></html>"#;
    let md = "Intro line that is rather long for an orphan\n\nOur service is fast, reliable and affordable for everyone.\n";
    let (out, _) = recover(html, md, "");
    assert_eq!(
        out,
        "Intro line that is rather long for an orphan\n## Why choose us\n\n\nOur service is fast, reliable and affordable for everyone.\n"
    );
}
