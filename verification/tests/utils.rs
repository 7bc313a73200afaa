use abus::{HexU32, Uuid};

#[test]
fn hex_u32_encodes_decimal_digits() {
    assert_eq!(HexU32::new(0).as_str(), "30");
    assert_eq!(HexU32::new(1000).as_str(), "31303030");
    assert_eq!(HexU32::new(u32::MAX).as_str(), "34323934393637323935");
}

#[test]
fn uuid_from_bytes_is_hex() {
    let u = Uuid::from_random_bytes([0x00, 0x01, 0x7f, 0x80, 0xff, 0xab, 0xcd, 0xef, 0, 0, 0, 0, 0, 0, 0, 0x10]);
    assert_eq!(u.as_str(), "00017f80ffabcdef0000000000000010");
    assert_eq!(u.as_slice().len(), 32);
    assert_eq!(u.as_inner()[0], b'0');
    assert_eq!(u.into_inner()[31], b'0');
}

#[test]
fn uuid_new_is_hex_text() {
    let u = Uuid::new().unwrap();
    assert_eq!(u.as_str().len(), 32);
    assert!(u.as_str().bytes().all(|b| b.is_ascii_digit() || (b'a'..=b'f').contains(&b)));
}
