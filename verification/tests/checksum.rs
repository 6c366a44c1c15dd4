use sigid::flexible::checksum::{add_checksum, verify_checksum};
use sigid::{crc16, iso7064_checksum};

#[test]
fn crc16_check_value() {
    assert_eq!(crc16(b"123456789"), 0x29B1);
    assert_eq!(crc16(b""), 0xFFFF);
}

#[test]
fn crc16_single_byte() {
    assert_eq!(crc16(&[0x00]), 0xE1F0);
}

#[test]
fn iso7064_values() {
    assert_eq!(iso7064_checksum(b""), b'0');
    assert_eq!(iso7064_checksum(&[1]), b'1');
    assert_eq!(iso7064_checksum(&[2]), b'2');
    // The final remainder of 36 counts as 0.
    assert_eq!(iso7064_checksum(b"T"), b'0');
}

#[test]
fn iso7064_is_alphanumeric() {
    for b in 0u8..230 {
        let c = iso7064_checksum(&[b]);
        assert!(c.is_ascii_digit() || c.is_ascii_uppercase(), "byte {} gave {}", b, c);
        let c = iso7064_checksum(&[b, b'7', b]);
        assert!(c.is_ascii_digit() || c.is_ascii_uppercase(), "byte {} gave {}", b, c);
    }
}

#[test]
fn crc16_of_data_and_its_crc_is_zero() {
    for data in [&b""[..], &b"123456789"[..], &[0x00][..], &b"SIGID"[..]] {
        let c = crc16(data);
        let mut with_crc = data.to_vec();
        with_crc.push((c >> 8) as u8);
        with_crc.push((c & 0xFF) as u8);
        assert_eq!(crc16(&with_crc), 0);
    }
}

#[test]
fn test_checksum_roundtrip() {
    let id = "0123456789ABCDEFGHJKMNPQRSTVWXYZ";
    let with_cs = add_checksum(id);
    assert_eq!(with_cs.len(), id.len() + 1);
    assert!(verify_checksum(&with_cs));
}

#[test]
fn verify_checksum_rejects() {
    assert!(!verify_checksum(""));
    assert!(!verify_checksum("A"));
    let with_cs = add_checksum("HELLO");
    let mut bad = with_cs.clone();
    bad.pop();
    bad.push(if with_cs.ends_with('0') { '1' } else { '0' });
    assert!(!verify_checksum(&bad));
}

#[test]
fn add_checksum_appends_check_character() {
    let with_cs = add_checksum("HELLO");
    assert!(with_cs.starts_with("HELLO"));
    let expected = iso7064_checksum(b"HELLO") as char;
    assert_eq!(with_cs.chars().last(), Some(expected));
}
