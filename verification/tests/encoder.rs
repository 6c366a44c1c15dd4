use sigid::{decode_crockford32, encode_crockford32, Error};

#[test]
fn test_encode_decode_roundtrip() {
    let original = [
        0x00, 0x11, 0x22, 0x33, 0x44, 0x55, 0x66, 0x77, 0x88, 0x99, 0xAA, 0xBB, 0xCC, 0xDD, 0xEE,
        0xFF,
    ];

    let mut encoded = [0u8; 26];
    encode_crockford32(&original, &mut encoded);

    let mut decoded = [0u8; 16];
    let result = decode_crockford32(&encoded, &mut decoded);
    assert!(result.is_ok(), "Decode failed: {:?}", result);
    assert_eq!(original, decoded);
}

#[test]
fn test_encode_known() {
    let input = [0u8; 16];
    let mut output = [0u8; 26];
    encode_crockford32(&input, &mut output);

    let s = std::str::from_utf8(&output).unwrap();
    assert_eq!(s, "00000000000000000000000000");
}

#[test]
fn test_decode_known() {
    let input = b"00000000000000000000000000";
    let mut output = [0u8; 16];
    let result = decode_crockford32(input, &mut output);
    assert!(result.is_ok());
    assert_eq!(output, [0u8; 16]);
}

#[test]
fn test_encode_specific() {
    let input = [
        0x01, 0x02, 0x03, 0x04, 0x05, 0x06, 0x07, 0x08, 0x09, 0x0A, 0x0B, 0x0C, 0x0D, 0x0E, 0x0F,
        0x10,
    ];
    let mut output = [0u8; 26];
    encode_crockford32(&input, &mut output);

    let mut decoded = [0u8; 16];
    let result = decode_crockford32(&output, &mut decoded);
    assert!(result.is_ok());
    assert_eq!(input, decoded);
}

#[test]
fn test_crockford_alphabet() {
    let alphabet = b"0123456789ABCDEFGHJKMNPQRSTVWXYZ";

    for &c in alphabet {
        let input = [c; 26];
        let mut output = [0u8; 16];
        let result = decode_crockford32(&input, &mut output);
        assert!(result.is_ok(), "Failed to decode char: {}", c as char);
    }
}

#[test]
fn test_decode_lenient() {
    let test_chars = [b'O', b'I', b'L', b'B'];

    for &c in &test_chars {
        let input = [c; 26];
        let mut output = [0u8; 16];
        let result = decode_crockford32(&input, &mut output);
        assert!(result.is_ok(), "Failed to decode char: {}", c as char);
    }
}

#[test]
fn encode_max_value() {
    let input = [0xFFu8; 16];
    let mut output = [0u8; 26];
    encode_crockford32(&input, &mut output);
    assert_eq!(std::str::from_utf8(&output).unwrap(), "7ZZZZZZZZZZZZZZZZZZZZZZZZZ");
}

#[test]
fn encode_one_and_five_bits() {
    let mut input = [0u8; 16];
    input[15] = 1;
    let mut output = [0u8; 26];
    encode_crockford32(&input, &mut output);
    assert_eq!(std::str::from_utf8(&output).unwrap(), "00000000000000000000000001");
    input[15] = 32;
    encode_crockford32(&input, &mut output);
    assert_eq!(std::str::from_utf8(&output).unwrap(), "00000000000000000000000010");
}

#[test]
fn decode_wrong_length() {
    let mut output = [7u8; 16];
    assert_eq!(decode_crockford32(b"0000", &mut output), Err(Error::InvalidLength));
    assert_eq!(output, [7u8; 16]);
    let long = [b'0'; 27];
    assert_eq!(decode_crockford32(&long, &mut output), Err(Error::InvalidLength));
}

#[test]
fn decode_invalid_character() {
    let mut input = [b'0'; 26];
    input[10] = b'U';
    let mut output = [7u8; 16];
    assert_eq!(decode_crockford32(&input, &mut output), Err(Error::InvalidCharacter));
    assert_eq!(output, [7u8; 16]);
    input[10] = b'@';
    assert_eq!(decode_crockford32(&input, &mut output), Err(Error::InvalidCharacter));
}

#[test]
fn decode_reads_look_alikes_and_lower_case() {
    let mut a = [0u8; 16];
    let mut b = [0u8; 16];
    decode_crockford32(b"0OoIiLl1abcdefghjkmnpqrstv", &mut a).unwrap();
    decode_crockford32(b"00011111ABCDEFGHJKMNPQRSTV", &mut b).unwrap();
    assert_eq!(a, b);
}

#[test]
fn decode_keeps_low_128_bits() {
    let mut a = [0u8; 16];
    let mut b = [0u8; 16];
    decode_crockford32(b"Z0000000000000000000000001", &mut a).unwrap();
    decode_crockford32(b"70000000000000000000000001", &mut b).unwrap();
    assert_eq!(a, b);
    let mut expected = [0u8; 16];
    expected[0] = 0xE0;
    expected[15] = 1;
    assert_eq!(a, expected);
}

#[test]
fn encode_order_matches_byte_order() {
    let samples: [[u8; 16]; 5] = [
        [0u8; 16],
        [0xFFu8; 16],
        [0x01, 0x23, 0x45, 0x67, 0x89, 0xAB, 0xCD, 0xEF, 0xFE, 0xDC, 0xBA, 0x98, 0x76, 0x54, 0x32, 0x10],
        [0x01, 0x23, 0x45, 0x67, 0x89, 0xAB, 0xCD, 0xEF, 0xFE, 0xDC, 0xBA, 0x98, 0x76, 0x54, 0x32, 0x11],
        [0x80, 0, 0, 0, 0, 0, 0, 0, 0, 0, 0, 0, 0, 0, 0, 0],
    ];
    for a in &samples {
        for b in &samples {
            let mut ea = [0u8; 26];
            let mut eb = [0u8; 26];
            encode_crockford32(a, &mut ea);
            encode_crockford32(b, &mut eb);
            assert_eq!(a.cmp(b), ea.cmp(&eb));
        }
    }
}

#[test]
fn decode_typo_text_as_canonical_text() {
    let mut a = [0u8; 16];
    let mut b = [0u8; 16];
    decode_crockford32(b"7zzzzzzzzzzzzzzzzzzzzzzzzo", &mut a).unwrap();
    decode_crockford32(b"7ZZZZZZZZZZZZZZZZZZZZZZZZ0", &mut b).unwrap();
    assert_eq!(a, b);
    let mut c = [0u8; 16];
    assert!(decode_crockford32(b"7zzzzzzzzzzzzzzzzzzzzzzzzu", &mut c).is_err());
    assert_eq!(c, [0u8; 16]);
}
