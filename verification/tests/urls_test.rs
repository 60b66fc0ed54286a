use ox_browser::urls::{is_same_origin, normalize_url, resolve_href, resolve_url};

#[test]
fn normalize_strips_fragment() {
    let n = normalize_url("https://example.com/page#section").unwrap();
    assert_eq!(n, "https://example.com/page");
}

#[test]
fn normalize_sorts_query_params() {
    let n = normalize_url("https://example.com/?z=1&a=2&m=3").unwrap();
    assert_eq!(n, "https://example.com/?a=2&m=3&z=1");
}

#[test]
fn normalize_handles_invalid_url() {
    assert!(normalize_url("not a url at all").is_none());
}

#[test]
fn normalize_lowercases_host_and_keeps_bare_keys() {
    assert_eq!(normalize_url("HTTPS://Example.COM/a?b&a=1").unwrap(), "https://example.com/a?a=1&b");
}

#[test]
fn test_resolve_absolute_path() {
    let result = resolve_url("https://example.com/page", "/about");
    assert_eq!(result, Some("https://example.com/about".into()));
}

#[test]
fn test_resolve_relative_path() {
    let result = resolve_url("https://example.com/dir/page", "other");
    assert_eq!(result, Some("https://example.com/dir/other".into()));
}

#[test]
fn test_resolve_full_url() {
    let result = resolve_url("https://example.com", "https://other.com/path");
    assert_eq!(result, Some("https://other.com/path".into()));
}

#[test]
fn test_resolve_with_query() {
    let result = resolve_url("https://example.com/page", "?q=search");
    assert_eq!(result, Some("https://example.com/page?q=search".into()));
}

#[test]
fn test_resolve_with_fragment() {
    let result = resolve_url("https://example.com/page", "#section");
    assert_eq!(result, Some("https://example.com/page#section".into()));
}

#[test]
fn test_resolve_invalid_base() {
    let result = resolve_url("not-a-url", "/about");
    assert!(result.is_none());
}

#[test]
fn test_same_origin_true() {
    assert!(is_same_origin(
        "https://example.com/a",
        "https://example.com/b"
    ));
}

#[test]
fn test_same_origin_different_paths() {
    assert!(is_same_origin(
        "https://example.com/foo/bar",
        "https://example.com/baz?q=1"
    ));
}

#[test]
fn test_same_origin_false() {
    assert!(!is_same_origin(
        "https://example.com",
        "https://other.com"
    ));
}

#[test]
fn test_same_origin_different_scheme() {
    assert!(!is_same_origin(
        "http://example.com",
        "https://example.com"
    ));
}

#[test]
fn test_same_origin_different_port() {
    assert!(!is_same_origin(
        "https://example.com:443",
        "https://example.com:8080"
    ));
}

#[test]
fn test_same_origin_invalid_url() {
    assert!(!is_same_origin("not-a-url", "https://example.com"));
}

#[test]
fn same_origin_default_port_and_opaque() {
    assert!(is_same_origin("https://example.com:443/x", "https://example.com/y"));
    assert!(!is_same_origin("file:///tmp/a", "file:///tmp/a"));
    assert!(!is_same_origin("data:text/plain,hi", "data:text/plain,hi"));
}

#[test]
fn resolve_url_with_base() {
    assert_eq!(
        resolve_href("/docs", Some("https://example.com/page")),
        "https://example.com/docs"
    );
    assert_eq!(
        resolve_href("https://other.com/x", Some("https://example.com/page")),
        "https://other.com/x"
    );
}

#[test]
fn resolve_url_without_base() {
    assert_eq!(resolve_href("/docs", None), "/docs");
}

#[test]
fn resolve_href_keeps_link_when_base_is_bad() {
    assert_eq!(resolve_href("/docs", Some("not a url")), "/docs");
}
