use ox_browser::robots::extract_sitemaps;

#[test]
fn extracts_sitemap_urls() {
    let body = b"User-agent: *\nAllow: /\nSitemap: https://example.com/sitemap.xml\nSitemap: https://example.com/sitemap2.xml\n";
    let urls = extract_sitemaps(body);
    assert_eq!(urls.len(), 2);
    assert_eq!(urls[0], "https://example.com/sitemap.xml");
    assert_eq!(urls[1], "https://example.com/sitemap2.xml");
}

#[test]
fn no_sitemaps_in_robots() {
    let body = b"User-agent: *\nDisallow: /private/\n";
    let urls = extract_sitemaps(body);
    assert!(urls.is_empty());
}

#[test]
fn sitemap_directive_is_case_insensitive_and_trimmed() {
    let body = b"  SITEMAP:   https://a.example/s.xml  \r\nsitemap:\nSiteMap:x\n";
    assert_eq!(
        extract_sitemaps(body),
        vec!["https://a.example/s.xml".to_string(), "x".to_string()]
    );
}

#[test]
fn empty_sitemap_value_is_dropped() {
    assert!(extract_sitemaps(b"Sitemap:    \n").is_empty());
}

#[test]
fn robots_txt_url_is_at_the_site_root() {
    assert_eq!(
        ox_browser::robots::robots_txt_url("https", "example.com"),
        "https://example.com/robots.txt"
    );
}
