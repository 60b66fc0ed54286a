use ox_browser::crawl::{CrawlStats, CrawlerSection};

#[test]
fn crawler_section_defaults() {
    let s = CrawlerSection::default();
    assert_eq!(s.default_max_depth, 3);
    assert_eq!(s.default_max_pages, 100);
    assert_eq!(s.default_concurrency, 5);
    assert_eq!(s.default_delay_ms, 200);
    assert!(s.respect_robots);
    assert!(s.include_markdown);
}

#[test]
fn crawl_stats_default_is_zero() {
    let s = CrawlStats::default();
    assert_eq!(s.pages_crawled, 0);
    assert!(s.discovery.is_empty());
    assert!(s.output_dir.is_none());
}

use ox_browser::budget::Budget;
use ox_browser::crawl::{enqueue_links, CrawlConfig};
use ox_browser::dedup::{is_cycle, ContentDedup, UrlDedup};
use ox_browser::frontier::Frontier;
use ox_browser::page::Link;
use ox_browser::robots::RobotsCache;
use ox_browser::scope::CrawlScope;
use ox_browser::urls::normalize_url;

#[test]
fn default_config_values() {
    let cfg = CrawlConfig::default();
    assert_eq!(cfg.max_depth, 3);
    assert_eq!(cfg.max_pages, 100);
    assert_eq!(cfg.concurrency, 5);
    assert_eq!(cfg.delay_ms, 200);
    assert!(cfg.respect_robots);
    assert!(cfg.include_markdown);
    assert!(cfg.budget.is_empty());
}

#[test]
fn enqueue_respects_depth_before_dedup() {
    let mut dedup = UrlDedup::new();
    let mut frontier = Frontier::new(100);
    let mut budget = Budget::new(vec![]);
    let mut config = CrawlConfig::default();
    config.max_depth = 2;
    let links = vec![Link { href: "https://example.com/deep".into(), text: String::new() }];
    enqueue_links("https://example.com/", &links, 3, true, &config, "https://example.com/", &mut budget, &mut dedup, &mut frontier);
    assert!(!dedup.contains(&normalize_url("https://example.com/deep").unwrap()));
    assert!(frontier.is_empty());
}

#[test]
fn full_pipeline_components_integrate() {
    let mut frontier = Frontier::new(100);
    let mut dedup = UrlDedup::new();
    let mut content_dedup = ContentDedup::new();
    let mut robots = RobotsCache::new("ox-browser");
    let mut budget = Budget::new(vec![("*".to_string(), 10)]);
    let scope = CrawlScope::SameDomain;
    let seed = "https://example.com/";

    let seed_url = "https://example.com/";
    dedup.insert(seed_url);
    frontier.push(seed_url.to_string(), 0);

    let links = vec![
        "https://example.com/about",
        "https://example.com/blog",
        "https://other.com/ext",
        "https://example.com/about",
    ];

    robots.insert("example.com", b"User-agent: *\nAllow: /\n");

    let mut enqueued = 0;
    for link in links {
        if let Some(normalized) = normalize_url(link) {
            if !scope.is_allowed(seed, &normalized) {
                continue;
            }
            if is_cycle(&normalized) {
                continue;
            }
            let path = normalized.trim_start_matches("https://example.com").to_string();
            if !budget.try_consume(&path) {
                continue;
            }
            if !dedup.insert(&normalized) {
                continue;
            }
            if !robots.is_allowed("example.com", &normalized) {
                continue;
            }
            frontier.push(normalized, 1);
            enqueued += 1;
        }
    }

    assert_eq!(enqueued, 2);
    assert_eq!(frontier.len(), 3);
    assert!(content_dedup.insert(b"page content"));
    assert!(!content_dedup.insert(b"page content"));
}

#[test]
fn enqueue_links_filters_scope_dedup_and_budget() {
    let mut dedup = UrlDedup::new();
    let mut frontier = Frontier::new(100);
    let mut budget = Budget::new(vec![("/blog".to_string(), 1)]);
    let config = CrawlConfig::default();
    let links: Vec<Link> = [
        "/about",
        "about#team",
        "https://other.com/x",
        "mailto:someone@example.com",
        "/blog/1",
        "/blog/2",
        "/a/b/a/b",
    ]
    .iter()
    .map(|h| Link { href: h.to_string(), text: String::new() })
    .collect();
    enqueue_links("https://example.com/index", &links, 0, true, &config, "https://example.com/", &mut budget, &mut dedup, &mut frontier);
    let mut queued = Vec::new();
    while let Some(e) = frontier.pop() {
        assert_eq!(e.depth, 1);
        queued.push(e.url);
    }
    assert_eq!(queued, vec!["https://example.com/about".to_string(), "https://example.com/blog/1".to_string()]);
    // Not following links leaves everything as it was.
    enqueue_links("https://example.com/index", &links, 0, false, &config, "https://example.com/", &mut budget, &mut dedup, &mut frontier);
    assert!(frontier.is_empty());
}

use ox_browser::crawl::{
    crawl_is_drained, crawl_should_stop, index_line, page_file_name, seed_frontier, CrawlResult,
};
use ox_browser::frontier::EntrySource;
use ox_browser::sitemap::SitemapEntry;

fn sitemap_entry(url: &str, lastmod: Option<&str>) -> SitemapEntry {
    SitemapEntry {
        url: url.into(),
        lastmod: lastmod.map(|s| s.to_string()),
        priority: Some("0.8".into()),
        changefreq: None,
    }
}

#[test]
fn sitemap_mode_skips_seed_when_entries_exist() {
    let mut f = Frontier::new(100);
    let mut d = UrlDedup::new();
    let follow_links = false;
    let discovery_entries = vec![sitemap_entry("https://example.com/page1", None)];
    seed_frontier("https://example.com/", &discovery_entries, &vec![800], follow_links, &mut d, &mut f);
    assert_eq!(f.len(), 1);
    let e = f.pop().unwrap();
    assert!(e.url.contains("page1"));
    assert!(matches!(e.source, EntrySource::Sitemap { .. }));
}

#[test]
fn seed_frontier_queues_seed_then_new_sitemap_urls() {
    let mut f = Frontier::new(100);
    let mut d = UrlDedup::new();
    let entries = vec![
        sitemap_entry("https://example.com/a#frag", Some("2024-01-01")),
        sitemap_entry("https://example.com/a", None),
        sitemap_entry("not a url", None),
        sitemap_entry("https://example.com/", None),
    ];
    seed_frontier("https://example.com/", &entries, &vec![900, 900, 900, 900], true, &mut d, &mut f);
    assert_eq!(f.len(), 2);
    let first = f.pop().unwrap();
    assert_eq!(first.url, "https://example.com/a");
    assert_eq!(first.depth, 0);
    assert!(matches!(first.source, EntrySource::Sitemap { lastmod: Some(ref m) } if m == "2024-01-01"));
    let second = f.pop().unwrap();
    assert_eq!(second.url, "https://example.com/");
    assert!(matches!(second.source, EntrySource::Bfs));
    assert!(d.contains("https://example.com/"));
}

#[test]
fn seed_frontier_without_entries_queues_seed_even_in_sitemap_mode() {
    let mut f = Frontier::new(10);
    let mut d = UrlDedup::new();
    seed_frontier("https://example.com", &vec![], &vec![], false, &mut d, &mut f);
    assert_eq!(f.len(), 1);
    assert_eq!(f.pop().unwrap().url, "https://example.com");
}

#[test]
fn crawl_results_for_skipped_and_crawled_pages() {
    let r = CrawlResult::blocked_by_robots("https://example.com/x", 2, 5);
    assert_eq!(r.status, 0);
    assert_eq!(r.error.as_deref(), Some("blocked by robots.txt"));
    assert!(!r.counts_as_crawled());
    let r = CrawlResult::fetch_failed("https://example.com/x", 1, 7, "timeout");
    assert_eq!(r.error.as_deref(), Some("fetch error: timeout"));
    let r = CrawlResult::duplicate_content("https://example.com/x", 200, 1, 3);
    assert_eq!(r.status, 200);
    assert_eq!(r.error.as_deref(), Some("duplicate content"));
    assert_eq!(r.content_length, 0);
    let src = EntrySource::Sitemap { lastmod: Some("2024-02-02".into()) };
    let r = CrawlResult::crawled(
        "https://example.com/x", 200, 1, "T".into(), "# T".into(), 10, 4, 9, &src, None,
    );
    assert!(r.counts_as_crawled());
    assert_eq!(r.markdown, "# T");
    assert_eq!(r.source.as_deref(), Some("sitemap"));
    assert_eq!(r.sitemap_lastmod.as_deref(), Some("2024-02-02"));
    let r = CrawlResult::crawled(
        "https://example.com/y", 200, 0, "T".into(), "# T".into(), 10, 0, 9, &EntrySource::Bfs,
        Some("/tmp/page_0000.md".into()),
    );
    assert_eq!(r.markdown, "");
    assert_eq!(r.source.as_deref(), Some("bfs"));
    assert_eq!(r.sitemap_lastmod, None);
}

#[test]
fn saved_page_names_and_index_lines() {
    assert_eq!(page_file_name(0), "page_0000.md");
    assert_eq!(page_file_name(42), "page_0042.md");
    assert_eq!(page_file_name(12345), "page_12345.md");
    assert_eq!(
        index_line("https://example.com/", "page_0000.md", 200),
        "{\"url\":\"https://example.com/\",\"file\":\"page_0000.md\",\"status\":200}\n"
    );
}

#[test]
fn crawl_loop_end_conditions() {
    assert!(crawl_should_stop(true, 0, 10));
    assert!(crawl_should_stop(false, 10, 10));
    assert!(!crawl_should_stop(false, 9, 10));
    assert!(crawl_is_drained(true, 5, 5));
    assert!(!crawl_is_drained(true, 4, 5));
    assert!(!crawl_is_drained(false, 5, 5));
}
