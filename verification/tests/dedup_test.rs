use ox_browser::dedup::{is_cycle, ContentDedup, UrlDedup};

#[test]
fn url_dedup_inserts_and_detects() {
    let mut d = UrlDedup::new();
    assert!(d.insert("https://example.com/"));
    assert!(!d.insert("https://example.com/"));
    assert!(d.insert("https://example.com/other"));
    assert_eq!(d.len(), 2);
    assert!(d.contains("https://example.com/"));
    assert!(!d.contains("https://never-seen.com/"));
}

#[test]
fn content_dedup_detects_duplicates() {
    let mut d = ContentDedup::new();
    assert!(d.insert(b"hello world"));
    assert!(!d.insert(b"hello world"));
    assert!(d.insert(b"different content"));
}

#[test]
fn cycle_detects_repeating_paths() {
    assert!(is_cycle("https://example.com/a/b/a/b"));
    assert!(is_cycle("https://example.com/x/y/z/x/y/z"));
    assert!(!is_cycle("https://example.com/a/b/c/d"));
}

#[test]
fn cycle_detects_long_urls() {
    let long = format!("https://example.com/{}", "a".repeat(2100));
    assert!(is_cycle(&long));
}

#[test]
fn cycle_ignores_short_and_unparseable() {
    assert!(!is_cycle("https://example.com/a/a/a"));
    assert!(is_cycle("https://example.com/a/a/a/a"));
    assert!(!is_cycle("not a url /a/b/a/b"));
    assert!(is_cycle("https://example.com//a//b/a/b/"));
}

#[test]
fn url_dedup_caps_at_max_capacity_and_evicts_eldest() {
    let cap = 8;
    let mut d = UrlDedup::with_capacity(cap);
    for i in 0..cap {
        let url = format!("https://example.com/p{i}");
        assert!(d.insert(&url), "insert {i} should be new");
    }
    assert_eq!(d.len(), cap);
    let eldest = "https://example.com/p0";
    assert!(d.contains(eldest));
    let overflow = "https://example.com/p99";
    assert!(d.insert(overflow));
    assert_eq!(
        d.len(),
        cap,
        "len must stay bounded at max_capacity after overflow insert"
    );
    assert!(!d.contains(eldest), "eldest entry (p0) should have been evicted");
    assert!(d.contains(overflow));
}

#[test]
fn url_dedup_clear_resets_state() {
    let mut d = UrlDedup::with_capacity(4);
    d.insert("https://example.com/a");
    d.insert("https://example.com/b");
    assert_eq!(d.len(), 2);
    assert!(!d.is_empty());
    d.clear();
    assert_eq!(d.len(), 0);
    assert!(d.is_empty());
    assert!(d.insert("https://example.com/a"));
    assert_eq!(d.len(), 1);
}

#[test]
fn content_dedup_caps_at_max_capacity_and_evicts_eldest() {
    let cap = 4;
    let mut d = ContentDedup::with_capacity(cap);
    for i in 0..cap {
        let body = format!("body-{i}");
        assert!(d.insert(body.as_bytes()));
    }
    assert_eq!(d.len(), cap);
    assert!(d.insert(b"body-99"));
    assert_eq!(d.len(), cap);
    assert!(d.insert(b"body-0"));
    assert_eq!(d.len(), cap);
}

#[test]
fn content_dedup_clear_resets_state() {
    let mut d = ContentDedup::with_capacity(4);
    d.insert(b"alpha");
    d.insert(b"beta");
    assert_eq!(d.len(), 2);
    d.clear();
    assert_eq!(d.len(), 0);
    assert!(d.is_empty());
    assert!(d.insert(b"alpha"), "after clear, alpha should be new");
}

#[test]
fn dedup_zero_capacity_is_one() {
    let mut d = UrlDedup::with_capacity(0);
    assert_eq!(d.max_capacity(), 1);
    assert!(d.insert("a"));
    assert!(d.insert("b"));
    assert_eq!(d.len(), 1);
    assert!(!d.contains("a"));
    let c = ContentDedup::with_capacity(0);
    assert_eq!(c.max_capacity(), 1);
}
