use ox_browser::sitemap::{
    filter_nested, filter_since, parse_sitemap, parse_sitemap_with_cap, SitemapContent,
    SitemapEntry, SitemapError,
};
use std::io::Write;

fn gzip(data: &[u8]) -> Vec<u8> {
    let mut e = flate2::write::GzEncoder::new(Vec::new(), flate2::Compression::default());
    e.write_all(data).unwrap();
    e.finish().unwrap()
}

#[test]
fn parse_urlset() {
    let xml = br#"<?xml version="1.0" encoding="UTF-8"?>
    <urlset xmlns="http://www.sitemaps.org/schemas/sitemap/0.9">
        <url>
            <loc>https://example.com/page1</loc>
            <lastmod>2026-03-01</lastmod>
            <priority>0.8</priority>
            <changefreq>weekly</changefreq>
        </url>
        <url>
            <loc>https://example.com/page2</loc>
        </url>
    </urlset>"#;
    let result = parse_sitemap(xml).unwrap();
    match result {
        SitemapContent::UrlSet(entries) => {
            assert_eq!(entries.len(), 2);
            assert_eq!(entries[0].url, "https://example.com/page1");
            assert_eq!(entries[0].lastmod.as_deref(), Some("2026-03-01"));
            assert_eq!(entries[0].priority.as_deref().map(|p| p.parse::<f32>().unwrap()), Some(0.8));
            assert_eq!(entries[0].changefreq.as_deref(), Some("weekly"));
            assert_eq!(entries[1].url, "https://example.com/page2");
            assert!(entries[1].lastmod.is_none());
            assert!(entries[1].priority.is_none());
        }
        _ => panic!("expected UrlSet"),
    }
}

#[test]
fn parse_sitemap_index() {
    let xml = br#"<?xml version="1.0" encoding="UTF-8"?>
    <sitemapindex xmlns="http://www.sitemaps.org/schemas/sitemap/0.9">
        <sitemap><loc>https://example.com/sitemap1.xml</loc></sitemap>
        <sitemap><loc> https://example.com/sitemap2.xml </loc></sitemap>
    </sitemapindex>"#;
    match parse_sitemap(xml).unwrap() {
        SitemapContent::Index(urls) => {
            assert_eq!(urls, vec!["https://example.com/sitemap1.xml".to_string(), "https://example.com/sitemap2.xml".to_string()]);
        }
        _ => panic!("expected Index"),
    }
}

#[test]
fn parse_empty_urlset() {
    let xml = br#"<urlset></urlset>"#;
    match parse_sitemap(xml).unwrap() {
        SitemapContent::UrlSet(entries) => assert!(entries.is_empty()),
        _ => panic!("expected UrlSet"),
    }
}

#[test]
fn parse_invalid_xml_errors() {
    assert!(parse_sitemap(b"not xml at all").is_err());
    assert!(matches!(parse_sitemap(b"<html></html>"), Err(SitemapError::NoRoot)));
}

#[test]
fn parse_gzipped_urlset() {
    let xml = br#"<urlset><url><loc>https://example.com/gz</loc></url></urlset>"#;
    match parse_sitemap(&gzip(xml)).unwrap() {
        SitemapContent::UrlSet(entries) => {
            assert_eq!(entries.len(), 1);
            assert_eq!(entries[0].url, "https://example.com/gz");
        }
        _ => panic!("expected UrlSet"),
    }
}

#[test]
fn rejects_gzip_bomb_decompressed_exceeds_cap() {
    let mut xml = String::from("<urlset>");
    for i in 0..2000 {
        xml.push_str(&format!("<url><loc>https://example.com/{i}</loc></url>"));
    }
    xml.push_str("</urlset>");
    let gz = gzip(xml.as_bytes());
    assert!(gz.len() < 20_000);
    assert!(matches!(parse_sitemap_with_cap(&gz, 10_000), Err(SitemapError::Body(_))));
    assert!(parse_sitemap_with_cap(&gz, 1_000_000).is_ok());
}

fn entry(url: &str, lastmod: Option<&str>) -> SitemapEntry {
    SitemapEntry { url: url.into(), lastmod: lastmod.map(String::from), priority: None, changefreq: None }
}

#[test]
fn filter_entries_by_since() {
    let entries = vec![
        entry("a", Some("2026-01-01")),
        entry("b", Some("2026-03-01")),
        entry("c", None),
        entry("d", Some("2026-02-15")),
    ];
    let kept = filter_since(entries, "2026-02-01");
    let urls: Vec<&str> = kept.iter().map(|e| e.url.as_str()).collect();
    assert_eq!(urls, vec!["b", "c", "d"]);
}

#[test]
fn nested_filter_keeps_matching_urls() {
    let urls = vec!["https://x/post-sitemap.xml".to_string(), "https://x/tag-sitemap.xml".to_string()];
    assert_eq!(filter_nested(urls.clone(), &vec![]), urls);
    assert_eq!(filter_nested(urls, &vec!["post".to_string()]), vec!["https://x/post-sitemap.xml".to_string()]);
}
