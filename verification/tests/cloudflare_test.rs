use ox_browser::cloudflare::{detect_cloudflare, ChallengeType};
use ox_browser::error::HttpError;
use ox_browser::response::HttpResponse;

fn cf_response(status: u16, body: &str, server: &str) -> HttpResponse {
    HttpResponse {
        status,
        url: "https://example.com".into(),
        headers: vec![("server".to_string(), server.to_string())],
        body: body.to_owned(),
    }
}

fn cf_response_with_ray(status: u16, body: &str, ray: &str) -> HttpResponse {
    HttpResponse {
        status,
        url: "https://example.com".into(),
        headers: vec![
            ("server".to_string(), "cloudflare".to_string()),
            ("cf-ray".to_string(), ray.to_string()),
        ],
        body: body.to_owned(),
    }
}

#[test]
fn detects_js_challenge() {
    let resp = cf_response(
        503,
        "<html><script src=\"/cdn-cgi/challenge-platform/x.js\"></script></html>",
        "cloudflare",
    );
    let cf = detect_cloudflare(&resp).unwrap();
    assert_eq!(cf.challenge_type, ChallengeType::JsChallenge);
    assert_eq!(cf.status, 503);
}

#[test]
fn detects_turnstile() {
    let resp = cf_response(403, "<html><div id=\"turnstile-wrapper\"></div></html>", "cloudflare");
    let cf = detect_cloudflare(&resp).unwrap();
    assert_eq!(cf.challenge_type, ChallengeType::Turnstile);
}

#[test]
fn detects_block() {
    let resp = cf_response(403, "<html>you have been blocked</html>", "cloudflare");
    let cf = detect_cloudflare(&resp).unwrap();
    assert_eq!(cf.challenge_type, ChallengeType::Block);
}

#[test]
fn ignores_200() {
    let resp = cf_response(200, "<html>ok</html>", "cloudflare");
    assert!(detect_cloudflare(&resp).is_none());
}

#[test]
fn ignores_non_cf_503() {
    let resp = cf_response(503, "challenge-platform", "nginx");
    assert!(detect_cloudflare(&resp).is_none());
}

#[test]
fn ignores_cf_403_no_markers() {
    let resp = cf_response(403, "Access denied", "cloudflare");
    assert!(detect_cloudflare(&resp).is_none());
}

#[test]
fn mixed_case_server() {
    let resp = cf_response(403, "you have been blocked", "Cloudflare");
    assert!(detect_cloudflare(&resp).is_some());
}

#[test]
fn extracts_ray_id() {
    let resp = cf_response_with_ray(403, "you have been blocked", "8f3a2b1c-LAX");
    let cf = detect_cloudflare(&resp).unwrap();
    assert_eq!(cf.ray_id, "8f3a2b1c-LAX");
}

#[test]
fn challenge_type_display() {
    assert_eq!(ChallengeType::JsChallenge.to_string(), "js_challenge");
    assert_eq!(ChallengeType::Turnstile.to_string(), "managed_challenge");
    assert_eq!(ChallengeType::Block.to_string(), "block");
}

#[test]
fn cloudflare_error_is_retryable() {
    let err = HttpError::Cloudflare(ChallengeType::Block, 403, "ray".into());
    assert!(err.is_retryable());
}

#[test]
fn js_challenge_requires_503() {
    let resp = cf_response(
        403,
        "<html><script src=\"/cdn-cgi/challenge-platform/x.js\"></script></html>",
        "cloudflare",
    );
    assert!(detect_cloudflare(&resp).is_none());
}

#[test]
fn missing_ray_header_gives_empty_ray_id() {
    let resp = cf_response(403, "you have been blocked", "cloudflare");
    let cf = detect_cloudflare(&resp).unwrap();
    assert_eq!(cf.ray_id, "");
}

#[test]
fn non_retryable_errors() {
    assert!(!HttpError::InvalidUrl("x".into()).is_retryable());
    assert!(!HttpError::BodyTooLarge { limit: 1, observed: 2 }.is_retryable());
    assert!(HttpError::RetryableStatus(503).is_retryable());
}
