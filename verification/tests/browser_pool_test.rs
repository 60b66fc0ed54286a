use ox_browser::browser_pool::{PoolBook, TabLookup};
use ox_browser::chrome::{chrome_data_dir, pool_launch_args, session_launch_args, ChromeLoginConfig};
use ox_browser::session::{hex16, new_session_id};

fn proxy(p: &str) -> Option<String> {
    Some(p.to_string())
}

#[test]
fn sessions_expire_and_browsers_close_when_empty() {
    let mut book = PoolBook::new();
    assert_eq!(book.tab_count(&None), None);
    book.add_browser(None);
    book.add_browser(proxy("http://p:1"));
    book.open_tab("a".into(), None, 100, 50);
    book.open_tab("b".into(), proxy("http://p:1"), 100, 50);
    assert_eq!(book.tab_count(&None), Some(1));
    assert_eq!(book.len(), 2);

    assert!(matches!(book.lookup("zzz", 120), TabLookup::Missing));
    assert!(matches!(book.lookup("a", 140), TabLookup::Live));
    // "a" was refreshed at 140, "b" was last used at 100.
    assert_eq!(book.expired_ids(175), vec!["b".to_string()]);
    match book.lookup("b", 175) {
        TabLookup::Expired(t) => {
            assert_eq!(t.id, "b");
            book.release_tab(&t.proxy);
        }
        other => panic!("expected expiry, got {other:?}"),
    }
    assert_eq!(book.len(), 1);
    assert_eq!(book.take_empty_browsers(), vec![proxy("http://p:1")]);
    assert_eq!(book.tab_count(&proxy("http://p:1")), None);

    let removed = book.remove_tab("a").unwrap();
    book.release_tab(&removed.proxy);
    book.release_tab(&removed.proxy);
    assert_eq!(book.tab_count(&None), Some(0));
    assert!(book.remove_tab("a").is_none());
    assert_eq!(book.take_empty_browsers(), vec![None]);
}

#[test]
fn reopening_a_session_id_replaces_it() {
    let mut book = PoolBook::new();
    book.add_browser(None);
    book.open_tab("a".into(), None, 0, 10);
    book.open_tab("a".into(), None, 5, 10);
    assert_eq!(book.len(), 1);
    assert_eq!(book.tab_count(&None), Some(2));
    assert!(book.expired_ids(14).is_empty());
    assert_eq!(book.expired_ids(16), vec!["a".to_string()]);
}

#[test]
fn chrome_command_lines() {
    let mut config = ChromeLoginConfig::default();
    config.proxy_url = Some("socks5://h:1".into());
    let args = session_launch_args(&config, "/tmp/ox-chrome-00000000000000ff");
    assert_eq!(args[6], "--user-data-dir=/tmp/ox-chrome-00000000000000ff");
    assert_eq!(args[7], "--incognito");
    assert_eq!(args.last().unwrap(), "--proxy-server=socks5://h:1");
    assert_eq!(args.len(), 9);
    config.chrome_path = Some("/opt/cloakbrowser/chrome".into());
    config.incognito = false;
    config.proxy_url = None;
    let args = session_launch_args(&config, "/d");
    assert_eq!(args.len(), 11);
    assert_eq!(args[7], "--fingerprint=79849");
    let pool = pool_launch_args(&config, Some("http://p:1"));
    assert_eq!(pool.len(), 16);
    assert_eq!(pool[12], "--js-flags=--max-old-space-size=512");
    assert_eq!(pool[13], "--fingerprint=79849");
    assert_eq!(pool[15], "--proxy-server=http://p:1");
    config.chrome_path = None;
    assert_eq!(pool_launch_args(&config, None).len(), 13);
}

#[test]
fn hex_ids_and_profile_dirs() {
    assert_eq!(hex16(0), "0000000000000000");
    assert_eq!(hex16(255), "00000000000000ff");
    assert_eq!(hex16(u64::MAX), "ffffffffffffffff");
    assert_eq!(chrome_data_dir(0xabc), "/tmp/ox-chrome-0000000000000abc");
    let id = new_session_id();
    assert_eq!(id.len(), 32);
    assert!(id.chars().all(|c| c.is_ascii_hexdigit() && !c.is_ascii_uppercase()));
}
