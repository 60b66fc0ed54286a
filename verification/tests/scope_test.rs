use ox_browser::scope::{registrable_domain, CrawlScope, UrlPattern};

fn pat(s: &str) -> UrlPattern {
    UrlPattern::new(s).unwrap()
}

#[test]
fn same_domain_allows_subdomains() {
    let scope = CrawlScope::SameDomain;
    let origin = "https://www.example.com/page";
    assert!(scope.is_allowed(origin, "https://blog.example.com/post"));
    assert!(scope.is_allowed(origin, "https://example.com/"));
    assert!(!scope.is_allowed(origin, "https://other.com/"));
}

#[test]
fn same_host_strict() {
    let scope = CrawlScope::SameHost;
    let origin = "https://www.example.com/";
    assert!(scope.is_allowed(origin, "https://www.example.com/about"));
    assert!(!scope.is_allowed(origin, "https://blog.example.com/"));
}

#[test]
fn custom_allow_list() {
    let scope = CrawlScope::Custom { allow: vec![pat(r"https://docs\.example\.com")], block: vec![] };
    let origin = "https://example.com/";
    assert!(scope.is_allowed(origin, "https://docs.example.com/guide"));
    assert!(!scope.is_allowed(origin, "https://blog.example.com/"));
}

#[test]
fn custom_block_list() {
    let scope = CrawlScope::Custom { allow: vec![], block: vec![pat(r"/admin")] };
    let origin = "https://example.com/";
    assert!(scope.is_allowed(origin, "https://example.com/page"));
    assert!(!scope.is_allowed(origin, "https://example.com/admin/settings"));
}

#[test]
fn custom_allow_and_block() {
    let scope = CrawlScope::Custom {
        allow: vec![pat(r"https://example\.com")],
        block: vec![pat(r"/private")],
    };
    let origin = "https://example.com/";
    assert!(scope.is_allowed(origin, "https://example.com/public"));
    assert!(!scope.is_allowed(origin, "https://example.com/private/data"));
    assert!(!scope.is_allowed(origin, "https://other.com/page"));
}

#[test]
fn registrable_domain_takes_last_two_labels() {
    assert_eq!(registrable_domain("https://a.b.example.com/x"), "example.com");
    assert_eq!(registrable_domain("http://localhost:8080/"), "localhost");
    assert_eq!(registrable_domain("not a url"), "");
    assert!(UrlPattern::new("(").is_none());
}
