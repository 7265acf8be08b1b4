use radish::boundary::{
    digest_for_buffer, terminated_for_buffer, text_argument, DIGEST_BUFFER_LEN,
    STATUS_BUFFER_TOO_SMALL, STATUS_FAILURE,
};

#[test]
fn small_buffer_gets_capacity_status() {
    assert_eq!(digest_for_buffer(b"Hello, Radish!", 10), Err(STATUS_BUFFER_TOO_SMALL));
    assert_eq!(digest_for_buffer(b"Hello, Radish!", 64), Err(STATUS_BUFFER_TOO_SMALL));
    assert_eq!(digest_for_buffer(b"Hello, Radish!", 0), Err(STATUS_BUFFER_TOO_SMALL));
}

#[test]
fn sufficient_buffer_gets_terminated_digest() {
    let bytes = digest_for_buffer(b"Hello, Radish!", DIGEST_BUFFER_LEN).unwrap();
    assert_eq!(bytes.len(), 65);
    assert_eq!(bytes[64], 0);
    assert_eq!(
        &bytes[..64],
        b"90d7c8b5b2e2d965f80aaf9a94cec5f01caea47380ded9ab39ab91592fc90857"
    );
    assert_eq!(digest_for_buffer(b"Hello, Radish!", 4096).unwrap(), bytes);
}

#[test]
fn terminated_text_rules() {
    assert_eq!(terminated_for_buffer(b"abc", 4), Ok(b"abc\0".to_vec()));
    assert_eq!(terminated_for_buffer(b"abc", 3), Err(STATUS_BUFFER_TOO_SMALL));
    assert_eq!(terminated_for_buffer(b"a\0c", 10), Err(STATUS_FAILURE));
    assert_eq!(terminated_for_buffer(b"", 1), Ok(vec![0]));
    assert_eq!(terminated_for_buffer(b"", 0), Err(STATUS_BUFFER_TOO_SMALL));
}

#[test]
fn string_arguments_must_be_utf8() {
    assert_eq!(text_argument(b"photo.png"), Ok("photo.png"));
    assert_eq!(text_argument(b""), Ok(""));
    assert_eq!(text_argument("caf\u{e9}".as_bytes()), Ok("caf\u{e9}"));
    assert_eq!(text_argument(&[0x61, 0xff]), Err(STATUS_FAILURE));
    assert_eq!(text_argument(&[0xc0, 0x80]), Err(STATUS_FAILURE));
    assert_eq!(text_argument(&[0xed, 0xa0, 0x80]), Err(STATUS_FAILURE));
    assert_eq!(text_argument(&[0xe2, 0x82]), Err(STATUS_FAILURE));
}
