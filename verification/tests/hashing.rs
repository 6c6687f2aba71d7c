use sift::hashing::{hash_bytes_hex, hash_text_hex};

#[test]
fn byte_keys_are_lowercase_blake3_hex() {
    let bytes: &[u8] = &[0xff, 0x00, 0x10, b'a'];
    let key = hash_bytes_hex(bytes);
    assert_eq!(key, blake3::hash(bytes).to_string());
    assert_eq!(key.len(), 64);
    assert!(key.chars().all(|c| c.is_ascii_digit() || ('a'..='f').contains(&c)));
    assert_eq!(hash_bytes_hex(b""), "af1349b9f5f9a1a6a0404dea36dcc9499bcb25c9adc112b7cc9a93cae41f3262");
}

#[test]
fn text_keys_hash_the_utf8_bytes() {
    assert_eq!(hash_text_hex("héllo"), hash_bytes_hex("héllo".as_bytes()));
}
