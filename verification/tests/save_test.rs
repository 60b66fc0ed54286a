use ox_browser::save::{sanitize_domain, saved_file_name};

#[test]
fn sanitize_domain_works() {
    assert_eq!(sanitize_domain("example.com"), "example.com");
    assert_eq!(sanitize_domain("a/b:c"), "a_b_c");
}

#[test]
fn sanitize_domain_keeps_unicode_letters_and_dashes() {
    assert_eq!(sanitize_domain("münchen-1.de"), "münchen-1.de");
    assert_eq!(sanitize_domain("a b?c"), "a_b_c");
}

#[test]
fn saved_file_names_use_domain_and_url_hash() {
    let a = saved_file_name("https://example.com/page");
    assert!(a.starts_with("example.com_"), "{a}");
    assert!(a.ends_with(".html"));
    let hash = &a["example.com_".len()..a.len() - ".html".len()];
    assert_eq!(hash.len(), 16);
    assert!(hash.chars().all(|c| c.is_ascii_hexdigit()));
    assert_eq!(a, saved_file_name("https://example.com/page"));
    assert_ne!(a, saved_file_name("https://example.com/other"));
    let b = saved_file_name("not a url");
    assert!(b.starts_with("unknown_"));
}
