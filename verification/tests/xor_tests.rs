use picto::codec::TextDecodeError;
use picto::xor::{xor_decode, xor_encode};

#[test]
fn test_xor_encode_is_self_inverse() {
    let data = b"attack at dawn".to_vec();
    let once = xor_encode(&data, "key");
    assert_ne!(once, data);
    let twice = xor_encode(&once, "key");
    assert_eq!(twice, data);
}

#[test]
fn test_xor_encode_empty_key_is_identity() {
    let data = b"left alone".to_vec();
    assert_eq!(xor_encode(&data, ""), data);
}

#[test]
fn test_xor_encode_exact_bytes() {
    // 0x61 ^ 0x6b = 0x0a, 0x62 ^ 0x6b = 0x09, 0x63 ^ 0x6b = 0x08.
    let data = b"abc".to_vec();
    assert_eq!(xor_encode(&data, "k"), vec![0x0a, 0x09, 0x08]);
}

#[test]
fn test_xor_encode_key_wraps_around() {
    let data = vec![0u8; 5];
    assert_eq!(xor_encode(&data, "ab"), b"ababa".to_vec());
}

#[test]
fn test_xor_decode_round_trip() {
    let message = "This is where your secret message will be!";
    let hidden = xor_encode(message.as_bytes(), "s3cret");
    assert_eq!(xor_decode(&hidden, "s3cret").unwrap(), message);
}

#[test]
fn test_xor_decode_empty_key() {
    assert_eq!(xor_decode(b"plain text", "").unwrap(), "plain text");
}

#[test]
fn test_xor_decode_rejects_invalid_text() {
    // 0xff ^ 0x00-key-free bytes stay 0xff: not valid UTF-8.
    let r = xor_decode(&[0xff, 0xff], "");
    assert_eq!(r, Err(TextDecodeError));
}
