use ox_browser::robots::RobotsCache;
use std::time::Duration;

const UA: &str = "ox-crawler";

#[test]
fn allows_when_no_robots() {
    let cache = RobotsCache::new(UA);
    assert!(cache.is_allowed("example.com", "https://example.com/page"));
}

#[test]
fn allows_when_unavailable() {
    let mut cache = RobotsCache::new(UA);
    cache.insert_unavailable("example.com");
    assert!(cache.is_allowed("example.com", "https://example.com/secret"));
}

#[test]
fn blocks_disallowed_path() {
    let mut cache = RobotsCache::new(UA);
    let body = b"User-agent: *\nDisallow: /private/\n";
    cache.insert("example.com", body);
    assert!(!cache.is_allowed("example.com", "https://example.com/private/data"));
    assert!(cache.is_allowed("example.com", "https://example.com/public"));
}

#[test]
fn has_host_tracking() {
    let mut cache = RobotsCache::new(UA);
    assert!(!cache.has_host("example.com"));
    cache.insert("example.com", b"User-agent: *\nAllow: /\n");
    assert!(cache.has_host("example.com"));
}

#[test]
fn caps_at_max_capacity_and_evicts_eldest() {
    let cap = 4;
    let mut cache = RobotsCache::with_limits(UA, cap, Duration::from_secs(300));
    for i in 0..cap {
        let host = format!("host{i}.example");
        cache.insert(&host, b"User-agent: *\nAllow: /\n");
    }
    assert_eq!(cache.len(), cap);
    let eldest = "host0.example";
    assert!(cache.has_host(eldest));
    cache.insert("host99.example", b"User-agent: *\nAllow: /\n");
    assert_eq!(cache.len(), cap, "len must stay bounded at max_capacity after overflow insert");
    assert!(!cache.has_host(eldest), "eldest entry ({eldest}) should have been evicted");
    assert!(cache.has_host("host99.example"));
}

#[test]
fn robots_lru_bumps_seq_on_refresh() {
    let cap = 2;
    let mut cache = RobotsCache::with_limits(UA, cap, Duration::from_secs(300));
    cache.insert("host0.example", b"User-agent: *\nAllow: /\n");
    cache.insert("host1.example", b"User-agent: *\nAllow: /\n");
    cache.insert("host0.example", b"User-agent: *\nDisallow: /private/\n");
    cache.insert("host2.example", b"User-agent: *\nAllow: /\n");
    assert_eq!(cache.len(), cap);
    assert!(cache.has_host("host0.example"), "host0 was refreshed, should survive");
    assert!(!cache.has_host("host1.example"), "host1 is eldest, should be evicted");
    assert!(cache.has_host("host2.example"));
}

#[test]
fn begin_fetch_registers_first_caller_only() {
    let mut cache = RobotsCache::new(UA);
    assert!(!cache.is_fetching("example.com"));
    assert!(cache.begin_fetch("example.com"));
    assert!(cache.is_fetching("example.com"));
    assert!(!cache.begin_fetch("example.com"));
    assert!(cache.begin_fetch("other.com"));
}

#[test]
fn end_fetch_clears_in_flight_marker() {
    let mut cache = RobotsCache::new(UA);
    assert!(cache.begin_fetch("example.com"));
    cache.end_fetch("example.com");
    assert!(!cache.is_fetching("example.com"));
    assert!(cache.begin_fetch("example.com"));
}

#[test]
fn end_fetch_is_noop_for_unregistered_host() {
    let mut cache = RobotsCache::new(UA);
    cache.end_fetch("never.example");
    assert!(!cache.is_fetching("never.example"));
    assert!(cache.is_empty());
}

#[test]
fn explicit_time_expiry() {
    let mut cache = RobotsCache::with_limits(UA, 16, Duration::from_nanos(10));
    cache.insert_at("example.com", b"User-agent: *\nDisallow: /private/\n", 100);
    assert!(!cache.is_allowed_at("example.com", "https://example.com/private/x", 105));
    assert!(cache.has_host_at("example.com", 109));
    assert!(!cache.has_host_at("example.com", 110));
    assert!(cache.is_allowed_at("example.com", "https://example.com/private/x", 110));
}

#[test]
fn configured_ttl_is_kept() {
    let mut cache = RobotsCache::with_limits(UA, 8, Duration::from_secs(42));
    assert_eq!(cache.ttl(), Duration::from_secs(42));
    cache.insert_unavailable("example.com");
    assert_eq!(cache.ttl(), Duration::from_secs(42));
    assert_eq!(RobotsCache::new(UA).ttl(), Duration::from_secs(300));
}
