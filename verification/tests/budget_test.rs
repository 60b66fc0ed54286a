use ox_browser::budget::Budget;

fn limits(pairs: &[(&str, usize)]) -> Vec<(String, usize)> {
    pairs.iter().map(|(k, v)| (k.to_string(), *v)).collect()
}

#[test]
fn no_budget_allows_everything() {
    let mut budget = Budget::new(Vec::new());
    for _ in 0..100 {
        assert!(budget.try_consume("/any/path"));
    }
}

#[test]
fn global_budget_limits_total() {
    let mut budget = Budget::new(limits(&[("*", 3)]));
    assert!(budget.try_consume("/a"));
    assert!(budget.try_consume("/b"));
    assert!(budget.try_consume("/c"));
    assert!(!budget.try_consume("/d"));
}

#[test]
fn path_budget_limits_prefix() {
    let mut budget = Budget::new(limits(&[("/blog", 2)]));
    assert!(budget.try_consume("/blog/post-1"));
    assert!(budget.try_consume("/blog/post-2"));
    assert!(!budget.try_consume("/blog/post-3"));
    assert!(budget.try_consume("/about"));
}

#[test]
fn combined_global_and_path_budget() {
    let mut budget = Budget::new(limits(&[("*", 5), ("/api", 2)]));
    assert!(budget.try_consume("/api/v1"));
    assert!(budget.try_consume("/api/v2"));
    assert!(!budget.try_consume("/api/v3"));
    assert!(budget.try_consume("/page/1"));
    assert!(budget.try_consume("/page/2"));
    assert!(budget.try_consume("/page/3"));
    assert!(!budget.try_consume("/page/4"));
}

#[test]
fn longest_prefix_wins() {
    let mut budget = Budget::new(limits(&[("/docs", 10), ("/docs/api", 2)]));
    assert!(budget.try_consume("/docs/api/endpoint-1"));
    assert!(budget.try_consume("/docs/api/endpoint-2"));
    assert!(!budget.try_consume("/docs/api/endpoint-3"));
    assert!(budget.try_consume("/docs/guide/intro"));
}

#[test]
fn counts_bounded_by_max_capacity() {
    let cap = 8;
    let mut l = Vec::new();
    for i in 0..(cap + 5) {
        l.push((format!("/p{i}"), 1000));
    }
    let mut budget = Budget::with_capacity(l, cap);
    for i in 0..(cap + 5) {
        let path = format!("/p{i}/page");
        assert!(budget.try_consume(&path));
    }
    assert!(
        budget.len() <= cap,
        "counts.len() = {} must be <= cap = {}",
        budget.len(),
        cap
    );
}

#[test]
fn counts_eviction_keeps_most_recently_used() {
    let cap = 4;
    let mut l = Vec::new();
    for i in 0..(cap + 2) {
        l.push((format!("/p{i}"), 1000));
    }
    let mut budget = Budget::with_capacity(l, cap);
    for i in 0..cap {
        budget.try_consume(&format!("/p{i}/x"));
    }
    assert_eq!(budget.len(), cap);
    budget.try_consume("/p0/x");
    budget.try_consume(&format!("/p{cap}/x"));
    budget.try_consume(&format!("/p{}/x", cap + 1));
    assert_eq!(budget.len(), cap);
}

#[test]
fn reset_zeroes_counters() {
    let mut budget = Budget::new(limits(&[("*", 3)]));
    assert!(budget.try_consume("/a"));
    assert!(budget.try_consume("/b"));
    assert!(budget.try_consume("/c"));
    assert!(!budget.try_consume("/d"));
    assert_eq!(budget.len(), 1);
    budget.reset();
    assert_eq!(budget.len(), 0);
    assert!(budget.try_consume("/a"));
    assert!(budget.try_consume("/b"));
    assert!(budget.try_consume("/c"));
    assert!(!budget.try_consume("/d"));
}

#[test]
fn reset_releases_all_prefix_counters() {
    let mut budget = Budget::new(limits(&[("/blog", 5), ("/api", 5)]));
    budget.try_consume("/blog/1");
    budget.try_consume("/api/1");
    assert_eq!(budget.len(), 2);
    budget.reset();
    assert_eq!(budget.len(), 0);
    assert!(budget.try_consume("/blog/2"));
    assert!(budget.try_consume("/api/2"));
    assert_eq!(budget.len(), 2);
}

#[test]
fn budget_zero_limit_refuses_first_request() {
    let mut budget = Budget::new(limits(&[("/x", 0)]));
    assert!(!budget.try_consume("/x/1"));
    assert!(budget.try_consume("/y"));
    assert_eq!(budget.len(), 1);
}

#[test]
fn budget_capacity_one_still_counts_global() {
    let mut budget = Budget::with_capacity(limits(&[("*", 2)]), 0);
    assert_eq!(budget.max_capacity(), 1);
    assert!(budget.try_consume("/a"));
    assert!(budget.try_consume("/b"));
    assert!(!budget.try_consume("/c"));
}

#[test]
fn budget_recently_used_prefix_survives_eviction() {
    // Capacity 2: /a and /b tracked; touching /a makes /b the eldest, so a
    // third prefix evicts /b and /a keeps its count.
    let mut budget = Budget::with_capacity(limits(&[("/a", 2), ("/b", 5), ("/c", 5)]), 2);
    assert!(budget.try_consume("/a/1"));
    assert!(budget.try_consume("/b/1"));
    assert!(budget.try_consume("/a/2"));
    assert!(budget.try_consume("/c/1"));
    assert!(!budget.try_consume("/a/3"));
}

#[test]
fn later_limit_overrides_earlier_under_same_key() {
    let limits = vec![
        ("/blog".to_string(), 5usize),
        ("*".to_string(), 100usize),
        ("/blog".to_string(), 2usize),
    ];
    let merged = ox_browser::budget::distinct_limits(&limits);
    assert_eq!(merged, vec![("/blog".to_string(), 2usize), ("*".to_string(), 100usize)]);
    assert!(ox_browser::budget::distinct_limits(&vec![]).is_empty());
}
