use ox_browser::cookie_cache::{CookieCache, SolvedChallenge};
use std::time::Duration;

fn make_solution(ua: &str) -> SolvedChallenge {
    SolvedChallenge {
        cookies: vec![("cf_clearance".to_string(), "tok-123".to_string())],
        user_agent: ua.into(),
        body: None,
    }
}

#[test]
fn put_and_get() {
    let mut cache = CookieCache::new(Duration::from_secs(60));
    cache.put("example.com", make_solution("UA/1.0"));
    let got = cache.get("example.com").expect("should be present");
    assert_eq!(got.user_agent, "UA/1.0");
    assert_eq!(got.cookie("cf_clearance").unwrap(), "tok-123");
}

#[test]
fn miss_on_unknown_domain() {
    let cache = CookieCache::new(Duration::from_secs(60));
    assert!(cache.get("unknown.com").is_none());
}

#[test]
fn expired_entry_returns_none() {
    let mut cache = CookieCache::new(Duration::from_millis(0));
    cache.put("example.com", make_solution("UA/1.0"));
    assert!(cache.get("example.com").is_none());
}

#[test]
fn evict_removes_expired() {
    let mut cache = CookieCache::new(Duration::from_millis(0));
    cache.put("a.com", make_solution("UA/1.0"));
    cache.put("b.com", make_solution("UA/2.0"));
    assert_eq!(cache.len(), 2);
    cache.evict_expired();
    assert_eq!(cache.len(), 0);
}

#[test]
fn overwrite_domain() {
    let mut cache = CookieCache::new(Duration::from_secs(60));
    cache.put("example.com", make_solution("Old"));
    cache.put("example.com", make_solution("New"));
    let got = cache.get("example.com").unwrap();
    assert_eq!(got.user_agent, "New");
}

#[test]
fn len_and_is_empty() {
    let mut cache = CookieCache::new(Duration::from_secs(60));
    assert!(cache.is_empty());
    assert_eq!(cache.len(), 0);
    cache.put("a.com", make_solution("UA"));
    assert!(!cache.is_empty());
    assert_eq!(cache.len(), 1);
    cache.put("b.com", make_solution("UA"));
    assert_eq!(cache.len(), 2);
}

#[test]
fn max_size_caps_entries_and_evicts_eldest() {
    let mut cache = CookieCache::with_max_size(Duration::from_secs(60), 3);
    cache.put("a.com", make_solution("UA/1"));
    cache.put("b.com", make_solution("UA/2"));
    cache.put("c.com", make_solution("UA/3"));
    assert_eq!(cache.len(), 3);
    cache.put("d.com", make_solution("UA/4"));
    assert_eq!(cache.len(), 3, "cache must stay bounded at max_size after insert");
    assert!(cache.get("a.com").is_none(), "eldest entry (a.com) should have been evicted");
    assert!(cache.get("b.com").is_some());
    assert!(cache.get("c.com").is_some());
    assert!(cache.get("d.com").is_some());
}

#[test]
fn refresh_does_not_grow_cache_or_evict() {
    let mut cache = CookieCache::with_max_size(Duration::from_secs(60), 2);
    cache.put("a.com", make_solution("UA/1"));
    cache.put("b.com", make_solution("UA/2"));
    cache.put("a.com", make_solution("UA/1b"));
    assert_eq!(cache.len(), 2);
    let got = cache.get("a.com").unwrap();
    assert_eq!(got.user_agent, "UA/1b");
}

#[test]
fn cookie_cache_lru_bumps_seq_on_refresh() {
    let mut cache = CookieCache::with_max_size(Duration::from_secs(60), 2);
    cache.put("a.com", make_solution("UA/1"));
    cache.put("b.com", make_solution("UA/2"));
    cache.put("a.com", make_solution("UA/1b"));
    cache.put("c.com", make_solution("UA/3"));
    assert_eq!(cache.len(), 2);
    assert!(cache.get("a.com").is_some(), "a.com was refreshed, should survive");
    assert!(cache.get("b.com").is_none(), "b.com is eldest, should be evicted");
    assert!(cache.get("c.com").is_some());
}

#[test]
fn explicit_time_reads_and_eviction() {
    let mut cache = CookieCache::with_max_size(Duration::from_nanos(100), 10);
    cache.put_at("a.com", make_solution("UA/1"), 1_000);
    cache.put_at("b.com", make_solution("UA/2"), 1_050);
    assert!(cache.get_at("a.com", 1_099).is_some());
    assert!(cache.get_at("a.com", 1_100).is_none());
    assert!(cache.get_at("b.com", 1_149).is_some());
    cache.evict_expired_at(1_100);
    assert_eq!(cache.len(), 1);
    assert!(cache.get_at("b.com", 1_100).is_some());
    assert_eq!(cache.max_size(), 10);
}

#[test]
fn duplicate_copies_all_fields() {
    let s = SolvedChallenge {
        cookies: vec![("a".into(), "1".into()), ("b".into(), "2".into())],
        user_agent: "UA".into(),
        body: Some("<html>".into()),
    };
    let d = s.duplicate();
    assert_eq!(d.cookies, s.cookies);
    assert_eq!(d.user_agent, "UA");
    assert_eq!(d.body.as_deref(), Some("<html>"));
    assert_eq!(d.cookie("b").unwrap(), "2");
    assert!(d.cookie("c").is_none());
}

#[test]
fn entry_lives_exactly_its_ttl_in_ticks() {
    let mut cache = CookieCache::with_max_size(Duration::from_secs(60), 3);
    cache.put_at("a.com", make_solution("UA/1"), 1_000);
    assert!(cache.get_at("a.com", 1_000 + 59_999_999_999).is_some());
    assert!(cache.get_at("a.com", 1_000 + 60_000_000_000).is_none());
}
