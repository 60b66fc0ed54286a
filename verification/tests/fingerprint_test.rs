use ox_browser::json::JsonValue;
use ox_browser::fingerprint::{
    check_bucket_b_provenance, extract_browserleaks, extract_peet, check_ja3_provenance, check_source, compare, decimal_string,
    extract_major_from_sec_ch_ua, extract_major_from_ua, extract_major_version,
    fingerprint_fail_message, merge_observed, normalize_sec_ch_ua, parse_u32_bytes,
    reference_source_for, reference_value_for, split_header, FingerprintVerdict, Observed,
    Reference, Sources, TlsFingerprint,
};

fn sources(svc: &str) -> Sources {
    Sources {
        ja3: svc.into(),
        ja3n: svc.into(),
        ja4: svc.into(),
        ja4_o: svc.into(),
        peetprint: svc.into(),
        http2: svc.into(),
        headers: svc.into(),
    }
}

fn tls(v: &str) -> TlsFingerprint {
    TlsFingerprint {
        ja3: v.into(),
        ja3_hash: v.into(),
        ja3n_hash: v.into(),
        ja4: v.into(),
        ja4_o: v.into(),
        peetprint: v.into(),
        peetprint_hash: v.into(),
    }
}

fn observed(svc: &str, v: &str, ua: &str, sec: &str) -> Observed {
    Observed {
        sources: sources(svc),
        tls: tls(v),
        http2_akamai_fingerprint: v.into(),
        header_order: vec!["accept".into(), "user-agent".into()],
        sec_ch_ua: sec.into(),
        sec_ch_ua_mobile: "?0".into(),
        sec_ch_ua_platform: "\"Linux\"".into(),
        accept: "*/*".into(),
        accept_language: "en".into(),
        accept_encoding: "gzip".into(),
        user_agent: ua.into(),
    }
}

fn reference(svc: &str, v: &str, ua: &str, sec: &str, notes: Vec<String>) -> Reference {
    Reference {
        browser: "chrome".into(),
        browser_version: "146.0".into(),
        major: "146".into(),
        capture_time: "t".into(),
        endpoint: "e".into(),
        mode: "headful".into(),
        arch: "x64".into(),
        browser_source: "s".into(),
        sources: sources(svc),
        tls: tls(v),
        http2_akamai_fingerprint: v.into(),
        header_order: vec!["accept".into(), "user-agent".into()],
        sec_ch_ua: sec.into(),
        sec_ch_ua_mobile: "?0".into(),
        sec_ch_ua_platform: "\"Linux\"".into(),
        accept: "*/*".into(),
        accept_language: "en".into(),
        accept_encoding: "gzip".into(),
        user_agent: ua.into(),
        notes,
    }
}

const UA: &str = "Mozilla/5.0 (X11; Linux x86_64) AppleWebKit/537.36 (KHTML, like Gecko) Chrome/146.0.0.0 Safari/537.36";
const SEC: &str = "\"Chromium\";v=\"146\", \"Not-A.Brand\";v=\"24\", \"Google Chrome\";v=\"146\"";

#[test]
fn identical_fingerprints_have_no_diffs() {
    let o = observed("peet", "x", UA, SEC);
    let r = reference("peet", "x", UA, SEC, vec![]);
    let (diffs, skipped) = compare(&o, &r);
    assert!(diffs.is_empty());
    assert!(skipped.is_empty());
}

#[test]
fn cross_service_is_a_source_violation_not_a_value_diff() {
    let o = observed("browserleaks", "x", UA, SEC);
    let r = reference("peet", "y", UA, SEC, vec![]);
    let (diffs, _) = compare(&o, &r);
    assert!(diffs.iter().all(|d| d.field.starts_with("source:")));
    assert_eq!(diffs[0].field, "source:ja3_hash");
    assert_eq!(diffs[0].expected, "reference source=peet");
}

#[test]
fn value_diffs_are_reported_per_field() {
    let o = observed("peet", "x", UA, SEC);
    let r = reference("peet", "y", UA, SEC, vec![]);
    let (diffs, _) = compare(&o, &r);
    let fields: Vec<&str> = diffs.iter().map(|d| d.field.as_str()).collect();
    assert_eq!(fields, vec!["ja3_hash", "ja3n_hash", "ja4", "ja4_o", "peetprint_hash", "http2_akamai"]);
    assert_eq!(diffs[0].expected, "y");
    assert_eq!(diffs[0].observed, "x");
}

#[test]
fn notes_skip_user_agent_and_sec_ch_ua() {
    let o = observed("peet", "x", "other-agent", "\"Chromium\";v=\"1\"");
    let r = reference(
        "peet",
        "x",
        UA,
        SEC,
        vec!["headless mode excludes user-agent".into(), "sec-ch-ua: excluded".into()],
    );
    let (diffs, skipped) = compare(&o, &r);
    assert!(diffs.is_empty());
    assert_eq!(
        skipped,
        vec![
            "sec-ch-ua: excluded by reference note (headless mode)".to_string(),
            "user-agent: excluded by reference note (headless mode)".to_string()
        ]
    );
    assert!(r.note_excludes("user-agent"));
    assert!(!r.note_excludes("accept"));
}

#[test]
fn sec_ch_ua_note_is_given_without_a_headers_source() {
    let mut o = observed("peet", "x", UA, "\"Chromium\";v=\"1\"");
    o.sources.headers = String::new();
    let mut r = reference("peet", "x", UA, SEC, vec!["sec-ch-ua: excluded".into()]);
    r.sources.headers = String::new();
    let (diffs, skipped) = compare(&o, &r);
    assert!(!diffs.iter().any(|d| d.field == "sec_ch_ua"));
    assert_eq!(skipped, vec!["sec-ch-ua: excluded by reference note (headless mode)".to_string()]);
}

#[test]
fn grease_brand_is_normalized() {
    let a = "\"Chromium\";v=\"146\", \"Not-A.Brand\";v=\"24\"";
    let b = "\"Chromium\";v=\"146\", \"Not=A?Brand\";v=\"99\"";
    assert_eq!(normalize_sec_ch_ua(a), "\"Chromium\";v=\"146\", GREASE");
    assert_eq!(normalize_sec_ch_ua(a), normalize_sec_ch_ua(b));
    assert_eq!(normalize_sec_ch_ua(""), "");
}

#[test]
fn incoherent_sec_ch_ua_and_ua_major() {
    let o = observed("peet", "x", "ox-browser Chrome/131.0", "\"Chromium\";v=\"136\"");
    let r = reference("peet", "x", "", "", vec![]);
    let (diffs, _) = compare(&o, &r);
    let d = diffs.iter().find(|d| d.field == "coherence:sec_ch_ua_vs_ua_major").unwrap();
    assert_eq!(d.expected, "sec-ch-ua major == UA major == 131");
    assert_eq!(d.observed, "sec-ch-ua major=136, UA major=131 — INCOHERENT");
}

#[test]
fn header_split_and_majors() {
    assert_eq!(split_header(" Accept-Language : en-US "), ("accept-language".to_string(), "en-US".to_string()));
    assert_eq!(split_header("novalue"), ("novalue".to_string(), String::new()));
    assert_eq!(extract_major_from_ua(UA), Some(146));
    assert_eq!(extract_major_from_ua("Mozilla/5.0 (X11; rv:128.0) Gecko Firefox/128.0"), Some(128));
    assert_eq!(extract_major_from_ua("curl/8"), None);
    assert_eq!(extract_major_from_sec_ch_ua(SEC), Some(146));
    assert_eq!(extract_major_from_sec_ch_ua("\"Google Chrome\";v=\"131.0.1\""), Some(131));
    assert_eq!(extract_major_version(UA), "146");
    assert_eq!(extract_major_version("curl/8"), "0");
}

#[test]
fn number_parsing_and_printing() {
    assert_eq!(parse_u32_bytes(b"+42"), Some(42));
    assert_eq!(parse_u32_bytes(b"4294967295"), Some(u32::MAX));
    assert_eq!(parse_u32_bytes(b"4294967296"), None);
    assert_eq!(parse_u32_bytes(b""), None);
    assert_eq!(parse_u32_bytes(b"+"), None);
    assert_eq!(parse_u32_bytes(b"1a"), None);
    assert_eq!(decimal_string(0), "0");
    assert_eq!(decimal_string(1234567890), "1234567890");
}

#[test]
fn check_source_rules() {
    assert!(check_source("ja4", "", "peet").is_none());
    assert!(check_source("ja4", "peet", "peet").is_none());
    let d = check_source("ja4", "browserleaks", "peet").unwrap();
    assert_eq!(d.field, "source:ja4");
    assert_eq!(d.observed, "observed source=peet — cross-service comparison is a tooling artefact, not a fingerprint defect");
}

#[test]
fn merge_prefers_browserleaks_for_tls() {
    let peet = observed("peet", "p", UA, SEC);
    let bl = observed("browserleaks", "b", "", "");
    let m = merge_observed(peet, bl);
    assert_eq!(m.tls.ja4, "b");
    assert_eq!(m.tls.peetprint_hash, "p");
    assert_eq!(m.sources.ja3, "browserleaks");
    assert_eq!(m.sources.headers, "peet");
    assert_eq!(m.user_agent, UA);
}

#[test]
fn bucket_b_provenance() {
    let mut r = reference("peet", "x", UA, SEC, vec![]);
    assert_eq!(reference_value_for("ja4", &r), "x");
    assert_eq!(reference_source_for("ja4", &r), "peet");
    assert!(check_bucket_b_provenance(&r, "chrome146", &["ja3n_hash", "ja4"]).is_ok());
    r.tls.ja4 = String::new();
    let e = check_bucket_b_provenance(&r, "chrome146", &["ja3n_hash", "ja4"]).unwrap_err();
    assert!(e.starts_with("chrome146: bucket-B field ja4 has an empty reference value"));
    assert!(check_ja3_provenance(&r, "c").is_ok());
    r.tls.ja3 = String::new();
    assert!(check_ja3_provenance(&r, "c").is_err());
}

#[test]
fn fail_message_counts_both_classes() {
    let v = FingerprintVerdict { hard_failures: vec![], gap_closed: vec!["ja4".into(), "x".into()] };
    let m = fingerprint_fail_message(&v, "146");
    assert!(m.starts_with("fingerprint mismatch for Chrome 146: 0 hard failure(s), 2 closed gap(s)."));
}

fn jv(v: &serde_json::Value) -> JsonValue {
    match v {
        serde_json::Value::Null => JsonValue::Null,
        serde_json::Value::Bool(b) => JsonValue::Bool(*b),
        serde_json::Value::Number(n) => JsonValue::Number(n.to_string()),
        serde_json::Value::String(s) => JsonValue::Str(s.clone()),
        serde_json::Value::Array(a) => JsonValue::Array(a.iter().map(jv).collect()),
        serde_json::Value::Object(m) => {
            JsonValue::Object(m.iter().map(|(k, v)| (k.clone(), jv(v))).collect())
        }
    }
}

#[test]
fn peet_response_is_read_from_first_headers_frame() {
    let raw: serde_json::Value = serde_json::from_str(
        r#"{
        "user_agent": "Mozilla/5.0 Chrome/131.0.0.0",
        "tls": {"ja3": "771,4865", "ja3_hash": "abc", "peetprint": "pp", "peetprint_hash": "pph"},
        "http2": {
            "akamai_fingerprint": "1:65536|15663105|0|m,a,s,p",
            "sent_frames": [
                {"frame_type": "SETTINGS"},
                {"frame_type": "HEADERS", "headers": [
                    ":method: GET",
                    "sec-ch-ua: \"Chromium\";v=\"131\"",
                    "Accept: text/html",
                    "accept-language: en-US",
                    7,
                    "accept-encoding: gzip"
                ]},
                {"frame_type": "HEADERS", "headers": ["x-late: 1"]}
            ]
        }
    }"#,
    )
    .unwrap();
    let o = extract_peet(&jv(&raw));
    assert_eq!(o.tls.ja3, "771,4865");
    assert_eq!(o.tls.ja3_hash, "abc");
    assert_eq!(o.tls.peetprint_hash, "pph");
    assert_eq!(o.user_agent, "Mozilla/5.0 Chrome/131.0.0.0");
    assert_eq!(o.http2_akamai_fingerprint, "1:65536|15663105|0|m,a,s,p");
    assert_eq!(o.header_order, vec!["sec-ch-ua", "accept", "accept-language", "accept-encoding"]);
    assert_eq!(o.sec_ch_ua, "\"Chromium\";v=\"131\"");
    assert_eq!(o.accept, "text/html");
    assert_eq!(o.accept_language, "en-US");
    assert_eq!(o.accept_encoding, "gzip");
    assert_eq!(o.sources.ja3, "peet");
    assert_eq!(o.sources.headers, "peet");
    assert_eq!(o.sources.ja4, "");
}

#[test]
fn browserleaks_response_fields() {
    let raw: serde_json::Value = serde_json::from_str(
        r#"{"ja3_hash": "h3", "ja3n_hash": "h3n", "ja4": "t13d", "ja4_o": "t13o", "akamai_text": "ak", "user_agent": "UA"}"#,
    )
    .unwrap();
    let o = extract_browserleaks(&jv(&raw));
    assert_eq!(o.tls.ja3_hash, "h3");
    assert_eq!(o.tls.ja3n_hash, "h3n");
    assert_eq!(o.tls.ja4, "t13d");
    assert_eq!(o.tls.ja4_o, "t13o");
    assert_eq!(o.http2_akamai_fingerprint, "ak");
    assert_eq!(o.user_agent, "");
    assert_eq!(o.sources.ja4, "browserleaks");
    assert_eq!(o.sources.headers, "");
    let empty = extract_browserleaks(&jv(&serde_json::Value::Null));
    assert_eq!(empty.tls.ja4, "");
}
