use ox_browser::deadline::{
    resolve_timeout, resolve_timeout_secs, CallOutcome, DEFAULT_CALL_TIMEOUT_SECS,
    MAX_CALL_TIMEOUT_SECS,
};
use std::time::Duration;

#[test]
fn resolve_timeout_none_uses_default() {
    assert_eq!(resolve_timeout(None), Duration::from_secs(DEFAULT_CALL_TIMEOUT_SECS));
}

#[test]
fn resolve_timeout_some_uses_value() {
    assert_eq!(resolve_timeout(Some(5)), Duration::from_secs(5));
}

#[test]
fn resolve_timeout_clamps_to_ceiling() {
    assert_eq!(resolve_timeout(Some(600)), Duration::from_secs(MAX_CALL_TIMEOUT_SECS));
    assert_eq!(resolve_timeout(Some(u64::MAX)), Duration::from_secs(MAX_CALL_TIMEOUT_SECS));
}

#[test]
fn resolve_timeout_clamps_zero_up_to_one() {
    assert_eq!(resolve_timeout(Some(0)), Duration::from_secs(1));
}

#[test]
fn resolve_timeout_secs_bounds() {
    assert_eq!(resolve_timeout_secs(None), 8);
    assert_eq!(resolve_timeout_secs(Some(1)), 1);
    assert_eq!(resolve_timeout_secs(Some(60)), 60);
    assert_eq!(resolve_timeout_secs(Some(61)), 60);
    let o: CallOutcome<u8> = CallOutcome::DeadlineExceeded { secs: 3 };
    assert!(matches!(o, CallOutcome::DeadlineExceeded { secs: 3 }));
}
