use sample_api::codec::{decode, DecodeError};

#[test]
fn decode_known_value() {
    let bytes: [u8; 16] = [
        0x12, 0x34, 0x56, 0x78, 0x9a, 0xbc, 0xde, 0xf0, 0x01, 0x23, 0x45, 0x67, 0x89, 0xab, 0xcd,
        0xef,
    ];
    let text = decode(&bytes).unwrap();
    assert_eq!(text, "12345678-9abc-def0-0123-456789abcdef");
}

#[test]
fn decode_all_zero() {
    let bytes = [0u8; 16];
    let text = decode(&bytes).unwrap();
    assert_eq!(text, "00000000-0000-0000-0000-000000000000");
}

#[test]
fn decode_all_ones() {
    let bytes = [0xffu8; 16];
    let text = decode(&bytes).unwrap();
    assert_eq!(text, "ffffffff-ffff-ffff-ffff-ffffffffffff");
}

#[test]
fn decode_length_is_36() {
    let bytes: [u8; 16] = [7, 1, 99, 200, 3, 4, 5, 6, 7, 8, 9, 10, 11, 12, 13, 250];
    let text = decode(&bytes).unwrap();
    assert_eq!(text.len(), 36);
    for (i, c) in text.chars().enumerate() {
        if i == 8 || i == 13 || i == 18 || i == 23 {
            assert_eq!(c, '-');
        } else {
            assert!(c.is_ascii_hexdigit() && !c.is_ascii_uppercase());
        }
    }
}

#[test]
fn decode_matches_uuid_crate() {
    let bytes: [u8; 16] = [
        0xde, 0xad, 0xbe, 0xef, 0x00, 0x42, 0x17, 0x2a, 0x8f, 0x3c, 0x5b, 0x01, 0xee, 0x9d, 0x77,
        0x60,
    ];
    let expected = uuid::Uuid::from_bytes(bytes).hyphenated().to_string();
    let got = decode(&bytes).unwrap();
    assert_eq!(got, expected);
}

#[test]
fn decode_rejects_short_blob() {
    let bytes = [0u8; 15];
    assert_eq!(decode(&bytes).unwrap_err(), DecodeError::IdentifierLength);
}

#[test]
fn decode_rejects_long_blob() {
    let bytes = [0u8; 17];
    assert_eq!(decode(&bytes).unwrap_err(), DecodeError::IdentifierLength);
}

#[test]
fn decode_rejects_empty_blob() {
    let bytes: [u8; 0] = [];
    assert_eq!(decode(&bytes).unwrap_err(), DecodeError::IdentifierLength);
}
