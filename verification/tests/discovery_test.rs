use std::collections::HashMap;

use ox_browser::discovery::{
    is_sitemap_response, sitemap_candidates, sitemap_origin, sitemaps_from_robots, ResolveStep,
    SitemapFetch, SitemapResolver,
};
use ox_browser::sitemap::parse_sitemap;

fn walk(
    roots: Vec<&str>,
    max_depth: u32,
    max_files: usize,
    filter: Vec<&str>,
    since: Option<&str>,
    site: &HashMap<&str, &str>,
) -> (Vec<String>, Vec<String>, usize, usize, usize) {
    let mut r = SitemapResolver::new(
        roots.into_iter().map(String::from).collect(),
        max_depth,
        max_files,
        filter.into_iter().map(String::from).collect(),
    );
    let mut fetched = Vec::new();
    loop {
        match r.step() {
            ResolveStep::Finished => break,
            ResolveStep::Continue => continue,
            ResolveStep::Fetch(url) => {
                fetched.push(url.clone());
                let outcome = match site.get(url.as_str()) {
                    None => SitemapFetch::Failed,
                    Some(body) => match parse_sitemap(body.as_bytes()) {
                        Ok(c) => SitemapFetch::Content(c),
                        Err(_) => SitemapFetch::Unparsable,
                    },
                };
                assert!(r.can_record());
                r.record(outcome);
            }
        }
    }
    let d = r.finish(since);
    let urls = d.entries.iter().map(|e| e.url.clone()).collect();
    (fetched, urls, d.sitemaps_found, d.urls_total, d.urls_filtered)
}

fn site() -> HashMap<&'static str, &'static str> {
    let mut m = HashMap::new();
    m.insert(
        "https://example.com/index.xml",
        r#"<?xml version="1.0"?><sitemapindex xmlns="http://www.sitemaps.org/schemas/sitemap/0.9">
        <sitemap><loc>https://example.com/posts.xml</loc></sitemap>
        <sitemap><loc>https://example.com/pages.xml</loc></sitemap>
        <sitemap><loc>https://example.com/index.xml</loc></sitemap>
        </sitemapindex>"#,
    );
    m.insert(
        "https://example.com/posts.xml",
        r#"<urlset xmlns="http://www.sitemaps.org/schemas/sitemap/0.9">
        <url><loc>https://example.com/p1</loc><lastmod>2024-01-01</lastmod></url>
        <url><loc>https://example.com/p2</loc><lastmod>2022-01-01</lastmod></url>
        </urlset>"#,
    );
    m.insert(
        "https://example.com/pages.xml",
        r#"<urlset xmlns="http://www.sitemaps.org/schemas/sitemap/0.9">
        <url><loc>https://example.com/about</loc></url>
        </urlset>"#,
    );
    m
}

#[test]
fn resolver_walks_indexes_depth_first_once_each() {
    let s = site();
    let (fetched, urls, found, total, filtered) =
        walk(vec!["https://example.com/index.xml"], 0, 50, vec![], None, &s);
    assert_eq!(
        fetched,
        vec![
            "https://example.com/index.xml",
            "https://example.com/posts.xml",
            "https://example.com/pages.xml"
        ]
    );
    assert_eq!(urls, vec!["https://example.com/p1", "https://example.com/p2", "https://example.com/about"]);
    assert_eq!((found, total, filtered), (3, 3, 0));
}

#[test]
fn resolver_respects_limits_filter_and_since() {
    let s = site();
    let (fetched, _, found, _, _) = walk(vec!["https://example.com/index.xml"], 0, 2, vec![], None, &s);
    assert_eq!(fetched.len(), 2);
    assert_eq!(found, 2);
    let (fetched, urls, _, _, _) = walk(vec!["https://example.com/index.xml"], 1, 50, vec!["pages"], None, &s);
    assert_eq!(fetched, vec!["https://example.com/index.xml", "https://example.com/pages.xml"]);
    assert_eq!(urls, vec!["https://example.com/about"]);
    let (_, urls, _, total, filtered) =
        walk(vec!["https://example.com/posts.xml"], 0, 50, vec![], Some("2023-06-01"), &s);
    assert_eq!(urls, vec!["https://example.com/p1"]);
    assert_eq!((total, filtered), (2, 1));
}

#[test]
fn resolver_counts_unparsable_but_not_failed_fetches() {
    let mut s = site();
    s.insert("https://example.com/bad.xml", "<html>not a sitemap</html>");
    let (fetched, urls, found, _, _) = walk(
        vec!["https://example.com/missing.xml", "https://example.com/bad.xml"],
        0,
        50,
        vec![],
        None,
        &s,
    );
    assert_eq!(fetched.len(), 2);
    assert!(urls.is_empty());
    assert_eq!(found, 1);
}

#[test]
fn sitemap_locations() {
    assert_eq!(sitemap_origin("https://example.com/a/b?c=1").as_deref(), Some("https://example.com"));
    assert_eq!(sitemap_origin("not a url"), None);
    let (robots, plain, index) = sitemap_candidates("https://example.com");
    assert_eq!(robots, "https://example.com/robots.txt");
    assert_eq!(plain, "https://example.com/sitemap.xml");
    assert_eq!(index, "https://example.com/sitemap_index.xml");
    let body = b"User-agent: *\nSitemap: https://example.com/s.xml\n";
    assert_eq!(sitemaps_from_robots(200, body), vec!["https://example.com/s.xml"]);
    assert!(sitemaps_from_robots(404, body).is_empty());
    assert!(is_sitemap_response(200, "<urlset/>"));
    assert!(!is_sitemap_response(200, "plain text"));
    assert!(!is_sitemap_response(404, "<urlset/>"));
}
