use ox_browser::chrome::{
    action_error, cookies_json, has_destroy_action, has_get_logs_action, navigate_error,
    session_mode, stealth_ua, timeout_error, SessionMode,
    ActionOutput, ActionResults, ChromeAction, ChromeLoginConfig, ConsoleEntry, CookieEntry,
    EvalResult, InteractResponse, InteractStatus, NetworkEntry, ScreenshotResult, SessionLogs,
    SnapshotResult, MAX_LOG_ENTRIES, STEALTH_UA, STEALTH_UA_NONE,
};

#[test]
fn stealth_ua_depends_on_cloakbrowser() {
    assert_eq!(stealth_ua(&None), STEALTH_UA);
    assert_eq!(stealth_ua(&Some("/usr/bin/chromium".into())), STEALTH_UA);
    assert_eq!(stealth_ua(&Some("/opt/cloakbrowser/chrome".into())), STEALTH_UA_NONE);
}

#[test]
fn login_config_defaults() {
    let c = ChromeLoginConfig::default();
    assert!(c.proxy_url.is_none());
    assert!(c.chrome_path.is_none());
    assert_eq!(c.screenshot_dir, "/tmp/ox-browser/twitter-login");
    assert!(c.screenshot_on_error);
    assert!(c.incognito);
}

#[test]
fn error_and_partial_responses() {
    let e = InteractResponse::error("boom".into());
    assert_eq!(e.status, InteractStatus::Error);
    assert_eq!(e.error.as_deref(), Some("boom"));
    assert!(e.screenshots.is_empty() && e.cookies.is_empty());
    let p = InteractResponse::partial(
        "half".into(),
        ActionResults::new(),
        (vec![("a".into(), "b".into())], "https://x/".into()),
    );
    assert_eq!(p.status, InteractStatus::Partial);
    assert_eq!(p.final_url, "https://x/");
    assert_eq!(p.cookies.len(), 1);
}

#[test]
fn session_logs_cap_and_drain() {
    let mut logs = SessionLogs::new();
    for i in 0..(MAX_LOG_ENTRIES + 5) {
        logs.push_network(NetworkEntry {
            method: "GET".to_string(),
            url: format!("https://example.com/{i}"),
            status: Some(200),
            error: None,
        });
    }
    logs.push_console(ConsoleEntry { level: "log".to_string(), text: "hi".to_string() });
    let net = logs.take_network();
    assert_eq!(net.len(), MAX_LOG_ENTRIES);
    assert_eq!(net[0].url, "https://example.com/0");
    assert_eq!(net[MAX_LOG_ENTRIES - 1].url, format!("https://example.com/{}", MAX_LOG_ENTRIES - 1));
    assert!(logs.take_network().is_empty());
    let con = logs.take_console();
    assert_eq!(con.len(), 1);
    assert_eq!(con[0].text, "hi");
    assert!(logs.take_console().is_empty());
}

fn cookie(name: &str, value: &str, secure: bool) -> CookieEntry {
    CookieEntry {
        name: name.into(),
        value: value.into(),
        domain: ".example.com".into(),
        path: "/".into(),
        secure,
        http_only: false,
    }
}

#[test]
fn cookies_json_matches_serde_layout() {
    assert_eq!(cookies_json(&vec![]), "[]");
    let cs = vec![cookie("sid", "a\"b\\c", true), cookie("t", "line\nnext\u{1}é", false)];
    assert_eq!(
        cookies_json(&cs),
        "[{\"name\":\"sid\",\"value\":\"a\\\"b\\\\c\",\"domain\":\".example.com\",\"path\":\"/\",\"secure\":true,\"http_only\":false},\
{\"name\":\"t\",\"value\":\"line\\nnext\\u0001é\",\"domain\":\".example.com\",\"path\":\"/\",\"secure\":false,\"http_only\":false}]"
    );
    let parsed: serde_json::Value = serde_json::from_str(&cookies_json(&cs)).unwrap();
    assert_eq!(parsed[1]["value"], "line\nnext\u{1}é");
}

#[test]
fn action_results_absorb_outputs() {
    let mut acc = ActionResults::new();
    acc.absorb(ActionOutput::Nothing);
    acc.absorb(ActionOutput::Screenshot(ScreenshotResult { label: "a".into(), base64_png: "x".into() }));
    acc.absorb(ActionOutput::Eval(EvalResult { js: "1+1".into(), result: "2".into() }));
    acc.absorb(ActionOutput::Cookies(vec![cookie("k", "v", false)]));
    acc.absorb(ActionOutput::Snapshot(SnapshotResult { label: "s".into(), tree: "t".into() }));
    acc.absorb(ActionOutput::Logs {
        network: vec![NetworkEntry { method: "GET".into(), url: "u".into(), status: None, error: None }],
        console: vec![ConsoleEntry { level: "log".into(), text: "x".into() }],
    });
    assert_eq!(acc.screenshots.len(), 1);
    assert_eq!(acc.evaluations.len(), 2);
    assert_eq!(acc.evaluations[1].js, "get_cookies");
    assert!(acc.evaluations[1].result.starts_with("[{\"name\":\"k\""));
    assert_eq!(acc.snapshots.len(), 1);
    assert_eq!(acc.network_log.len(), 1);
    assert_eq!(acc.console_log.len(), 1);
    let r = InteractResponse::succeeded(acc, (vec![("k".into(), "v".into())], "https://example.com/".into()));
    assert!(matches!(r.status, InteractStatus::Succeeded));
    assert!(r.error.is_none());
    assert_eq!(r.final_url, "https://example.com/");
    assert_eq!(r.evaluations.len(), 2);
}

#[test]
fn run_messages_and_log_detection() {
    assert_eq!(navigate_error("net::ERR"), "navigate: net::ERR");
    assert_eq!(timeout_error(3), "timeout at action 3");
    assert_eq!(action_error(0, "no node"), "action 0 failed: no node");
    assert!(!has_get_logs_action(&vec![ChromeAction::GoBack]));
    assert!(has_get_logs_action(&vec![ChromeAction::GoBack, ChromeAction::GetLogs]));
}

#[test]
fn session_modes_and_finalization() {
    assert!(matches!(session_mode(&None), SessionMode::Ephemeral));
    assert!(matches!(session_mode(&Some("new".into())), SessionMode::New));
    assert!(matches!(session_mode(&Some("abc".into())), SessionMode::Existing(ref s) if s == "abc"));
    assert!(has_destroy_action(&vec![ChromeAction::GetCookies, ChromeAction::DestroySession]));
    assert!(!has_destroy_action(&vec![ChromeAction::GetCookies]));

    let mut ok = InteractResponse::succeeded(ActionResults::new(), (vec![], String::new()));
    assert!(!ok.finalize_session("s1", false));
    assert_eq!(ok.session_id.as_deref(), Some("s1"));
    assert!(ok.finalize_session("s1", true));
    assert_eq!(ok.session_id, None);
    let mut failed = InteractResponse::error("boom".into());
    assert!(failed.finalize_session("s2", false));
    assert_eq!(failed.session_id, None);
}
