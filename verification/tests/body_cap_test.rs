use ox_browser::body_cap::{add_chunk, check_declared_length, gunzip_capped};
use ox_browser::error::HttpError;
use std::io::Write;

fn gzip(data: &[u8]) -> Vec<u8> {
    let mut e = flate2::write::GzEncoder::new(Vec::new(), flate2::Compression::default());
    e.write_all(data).unwrap();
    e.finish().unwrap()
}

#[test]
fn gunzip_capped_succeeds_under_cap() {
    let data = b"hello sitemap".repeat(10);
    let out = gunzip_capped(&gzip(&data), 10_000).unwrap();
    assert_eq!(out, data);
}

#[test]
fn gunzip_capped_rejects_decompressed_exceeds_cap() {
    let data = vec![b'a'; 100_000];
    let gz = gzip(&data);
    assert!(gz.len() < 1_000);
    match gunzip_capped(&gz, 50_000) {
        Err(HttpError::BodyTooLarge { limit, observed }) => {
            assert_eq!(limit, 50_000);
            assert!(observed > 50_000);
        }
        other => panic!("expected BodyTooLarge, got {other:?}"),
    }
}

#[test]
fn gunzip_rejects_garbage() {
    assert!(matches!(gunzip_capped(b"\x1f\x8bnot gzip", 1000), Err(HttpError::BodyDecodeError(_))));
}

#[test]
fn declared_length_and_running_total() {
    assert!(check_declared_length(None, 10).is_ok());
    assert!(check_declared_length(Some(10), 10).is_ok());
    assert!(matches!(
        check_declared_length(Some(11), 10),
        Err(HttpError::BodyTooLarge { limit: 10, observed: 11 })
    ));
    assert_eq!(add_chunk(4, 6, 10).unwrap(), 10);
    assert!(matches!(add_chunk(4, 7, 10), Err(HttpError::BodyTooLarge { limit: 10, observed: 11 })));
    assert!(matches!(add_chunk(u64::MAX - 1, 5, u64::MAX - 1), Err(HttpError::BodyTooLarge { observed: u64::MAX, .. })));
}

#[test]
fn gunzip_capped_output_exactly_at_cap_is_kept() {
    let data = vec![b'z'; 20_000];
    let out = gunzip_capped(&gzip(&data), 20_000).unwrap();
    assert_eq!(out, data);
    assert!(matches!(
        gunzip_capped(&gzip(&data), 19_999),
        Err(HttpError::BodyTooLarge { limit: 19_999, observed }) if observed > 19_999 && observed <= 20_000
    ));
}

#[test]
fn gunzip_truncated_stream_is_a_decode_error() {
    let gz = gzip(&b"a sitemap body that gets cut off".repeat(4));
    let cut = &gz[..gz.len() - 6];
    assert!(matches!(gunzip_capped(cut, 10_000), Err(HttpError::BodyDecodeError(_))));
}
