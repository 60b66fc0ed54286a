use ox_browser::transport::{
    falls_back_to_direct, first_attempt_uses_proxy, http_method, needs_direct_fallback,
    proxy_route, HttpMethod, ProxyRoute,
};

#[test]
fn methods_are_case_insensitive_and_default_to_get() {
    assert_eq!(http_method("post"), HttpMethod::Post);
    assert_eq!(http_method("Put"), HttpMethod::Put);
    assert_eq!(http_method("DELETE"), HttpMethod::Delete);
    assert_eq!(http_method("patch"), HttpMethod::Patch);
    assert_eq!(http_method("head"), HttpMethod::Head);
    assert_eq!(http_method("get"), HttpMethod::Get);
    assert_eq!(http_method("OPTIONS"), HttpMethod::Get);
    assert_eq!(http_method(""), HttpMethod::Get);
}

#[test]
fn proxy_routes_in_priority_order() {
    let p = Some("http://proxy:8080".to_string());
    assert!(matches!(proxy_route(true, &p, true, true), ProxyRoute::Direct));
    assert!(matches!(proxy_route(false, &p, true, true), ProxyRoute::Explicit(ref q) if q == "http://proxy:8080"));
    assert!(matches!(proxy_route(false, &None, true, true), ProxyRoute::FromPool));
    assert!(matches!(proxy_route(false, &None, false, true), ProxyRoute::StaticClient));
    assert!(matches!(proxy_route(false, &None, false, false), ProxyRoute::Direct));
}

#[test]
fn fallback_decisions() {
    assert!(first_attempt_uses_proxy(false, false, true));
    assert!(!first_attempt_uses_proxy(false, false, false));
    assert!(falls_back_to_direct(true, true, true));
    assert!(!falls_back_to_direct(false, true, true));
    assert!(!falls_back_to_direct(true, false, true));
    assert!(!falls_back_to_direct(true, true, false));
    assert!(needs_direct_fallback(false, false, true));
    assert!(!needs_direct_fallback(false, false, false));
}
