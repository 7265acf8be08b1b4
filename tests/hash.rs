use radish::hash::{hex_lower, sha256_hex};

fn is_lower_hex(bytes: &[u8]) -> bool {
    bytes.iter().all(|c| c.is_ascii_digit() || (b'a'..=b'f').contains(c))
}

#[test]
fn test_sha256_calculation() {
    let test_content = b"Hello, Radish!";
    let hash = String::from_utf8(sha256_hex(test_content)).unwrap();
    assert_eq!(hash.len(), 64);
    assert!(is_lower_hex(hash.as_bytes()));
    assert_eq!(
        hash,
        "90d7c8b5b2e2d965f80aaf9a94cec5f01caea47380ded9ab39ab91592fc90857"
    );
}

#[test]
fn digest_of_empty_content() {
    let hash = String::from_utf8(sha256_hex(&[])).unwrap();
    assert_eq!(
        hash,
        "e3b0c44298fc1c149afbf4c8996fb92427ae41e4649b934ca495991b7852b855"
    );
}

#[test]
fn digest_is_deterministic() {
    let content = b"Hello, Radish!".to_vec();
    assert_eq!(sha256_hex(&content), sha256_hex(&content.clone()));
    assert_ne!(sha256_hex(b"Hello, Radish!"), sha256_hex(b"Hello, Radish?"));
}

#[test]
fn hex_rendering_of_bytes() {
    assert_eq!(hex_lower(&[0x00, 0x0f, 0xab, 0xff, 0x10]), b"000fabff10".to_vec());
    assert_eq!(hex_lower(&[]), Vec::<u8>::new());
}
