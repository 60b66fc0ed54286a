use ox_browser::frontier::{EntrySource, Frontier};

#[test]
fn bfs_order() {
    let mut f = Frontier::new(10);
    f.push("https://a.com".into(), 0);
    f.push("https://b.com".into(), 1);
    f.push("https://c.com".into(), 1);
    let first = f.pop().unwrap();
    assert_eq!(first.url, "https://a.com");
    assert_eq!(first.depth, 0);
    let second = f.pop().unwrap();
    assert_eq!(second.url, "https://b.com");
    assert_eq!(second.depth, 1);
}

#[test]
fn respects_max_size() {
    let mut f = Frontier::new(2);
    f.push("https://a.com".into(), 0);
    f.push("https://b.com".into(), 0);
    f.push("https://c.com".into(), 0);
    assert_eq!(f.len(), 2);
}

#[test]
fn empty_frontier() {
    let mut f = Frontier::new(10);
    assert!(f.is_empty());
    assert!(f.pop().is_none());
}

#[test]
fn higher_priority_first() {
    let mut f = Frontier::new(10);
    f.push_with_priority("https://low.com".into(), 0, 100, EntrySource::Bfs);
    f.push_with_priority(
        "https://high.com".into(),
        0,
        900,
        EntrySource::Sitemap { lastmod: Some("2024-01-01".into()) },
    );
    f.push("https://mid.com".into(), 0);
    assert_eq!(f.pop().unwrap().url, "https://high.com");
    assert_eq!(f.pop().unwrap().url, "https://mid.com");
    assert_eq!(f.pop().unwrap().url, "https://low.com");
    assert!(f.pop().is_none());
}

#[test]
fn priority_ordering() {
    let mut f = Frontier::new(10);
    f.push_with_priority("https://low.com".into(), 0, 300, EntrySource::Bfs);
    f.push_with_priority("https://high.com".into(), 0, 900, EntrySource::Sitemap { lastmod: None });
    f.push_with_priority("https://mid.com".into(), 0, 500, EntrySource::Bfs);
    let first = f.pop().unwrap();
    assert_eq!(first.url, "https://high.com");
    assert_eq!(first.priority, 900);
    let second = f.pop().unwrap();
    assert_eq!(second.url, "https://mid.com");
}

#[test]
fn fifo_within_same_priority() {
    let mut f = Frontier::new(10);
    f.push_with_priority("https://first.com".into(), 0, 500, EntrySource::Bfs);
    f.push_with_priority("https://second.com".into(), 0, 500, EntrySource::Bfs);
    let first = f.pop().unwrap();
    assert_eq!(first.url, "https://first.com");
}

#[test]
fn push_backward_compat() {
    let mut f = Frontier::new(10);
    f.push("https://a.com".into(), 0);
    let entry = f.pop().unwrap();
    assert_eq!(entry.priority, 500);
    assert!(matches!(entry.source, EntrySource::Bfs));
}
