use ox_browser::session::{encode, generate_id};

#[test]
fn generate_id_length_and_hex() {
    let id = generate_id();
    assert_eq!(id.len(), 16);
    assert!(id.chars().all(|c| c.is_ascii_hexdigit()));
}

#[test]
fn generate_id_unique() {
    let a = generate_id();
    let b = generate_id();
    assert_ne!(a, b);
}

#[test]
fn hex_encoding() {
    assert_eq!(encode(&[0x00, 0x0f, 0xa5, 0xff]), "000fa5ff");
    assert_eq!(encode(&[]), "");
}
