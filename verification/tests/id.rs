use std::str::FromStr;

use sigid::{Error, ParseError, SigId26, COUNTER_MAX, TIMESTAMP_MAX};

#[test]
fn test_raw_new_simple() {
    let ts = 1234567890;
    let counter = 42;
    let random = 0x123456789abcd;

    let id = SigId26::raw_new(ts, counter, random);
    assert_eq!(id.timestamp(), ts, "timestamp mismatch");
    assert_eq!(id.worker_id(), 0, "worker_id should be 0 for Simple");
    assert_eq!(id.counter(), counter, "counter mismatch");
    assert_eq!(id.random(), random, "random mismatch");
}

#[test]
fn test_raw_new_with_worker() {
    let ts = 1234567890;
    let worker = 0x1234;
    let counter = 42;
    let random = 0x123456789abcd;

    let id = SigId26::raw_new_with_worker(ts, worker, counter, random);

    assert_eq!(id.timestamp(), ts, "timestamp mismatch");
    assert_eq!(id.worker_id(), worker, "worker_id mismatch");
    assert_eq!(id.counter(), counter, "counter mismatch");
    assert_eq!(id.random(), random, "random mismatch");
}

#[test]
fn id_test_worker_id_bounds() {
    let id = SigId26::raw_new_with_worker(1234567890, u16::MAX, 0, 0);
    assert_eq!(id.worker_id(), u16::MAX);
}

#[test]
fn test_counter_bounds() {
    let id = SigId26::raw_new_with_worker(1234567890, 0, 16383, 0);
    assert_eq!(id.counter(), 16383);

    let id = SigId26::raw_new_with_worker(1234567890, 0, 16384, 0);
    assert_eq!(id.counter(), 0);
}

#[test]
fn test_random_bounds() {
    let max_random = 0x3FFFFFFFFFFFF;
    let id = SigId26::raw_new_with_worker(1234567890, 0, 0, max_random);
    assert_eq!(id.random(), max_random);

    let id = SigId26::raw_new_with_worker(1234567890, 0, 0, 0xFFFFFFFFFFFFFFFF);
    assert_eq!(id.random(), 0x3FFFFFFFFFFFF);
}

#[test]
fn test_from_str_roundtrip() {
    let id1 = SigId26::raw_new(1234567890, 42, 0x123456789abcd);
    let s = id1.to_string();
    let id2 = SigId26::from_str(&s).unwrap();
    assert_eq!(id1.as_bytes(), id2.as_bytes());
}

#[test]
fn test_from_string_roundtrip() {
    let original = SigId26::raw_new(1234567890, 42, 0x123456789abcd);
    let id_str = original.to_string();
    let parsed = SigId26::from_string(&id_str).unwrap();

    assert_eq!(original, parsed);
    assert_eq!(original.as_bytes(), parsed.as_bytes());
}

#[test]
fn test_from_string_invalid_length() {
    let short = "123";
    let long = "123456789012345678901234567890";

    assert!(matches!(SigId26::from_string(short), Err(ParseError::Length(3))));
    assert!(matches!(SigId26::from_string(long), Err(ParseError::Length(30))));
}

#[test]
fn test_from_string_invalid_character() {
    let valid = "0123456789ABCDEFGHJKMNPQRS";
    assert_eq!(valid.len(), 26);

    let mut bytes = valid.as_bytes().to_vec();
    bytes[25] = b'@';
    let s = std::str::from_utf8(&bytes).unwrap();

    let result = SigId26::from_string(s);

    match result {
        Err(ParseError::Character(ch, pos)) => {
            assert_eq!(ch, '@');
            assert_eq!(pos, 25);
        }
        _ => panic!("Expected Character error, got {:?}", result),
    }
}

#[test]
fn test_enterprise_roundtrip() {
    let ts = 1234567890;
    let worker = 0x1234;
    let counter = 42;
    let random = 0x123456789abcd;

    let id1 = SigId26::raw_new_with_worker(ts, worker, counter, random);
    let s = id1.to_string();
    let id2 = SigId26::from_str(&s).unwrap();

    assert_eq!(id1.as_bytes(), id2.as_bytes(), "bytes mismatch");
    assert_eq!(id2.worker_id(), worker, "worker_id mismatch after roundtrip");
    assert_eq!(id2.counter(), counter, "counter mismatch after roundtrip");
    assert_eq!(id2.random(), random, "random mismatch after roundtrip");
}

#[test]
fn test_all_max() {
    let max_random = 0x3FFFFFFFFFFFF;
    let id = SigId26::raw_new_with_worker(TIMESTAMP_MAX, u16::MAX, COUNTER_MAX, max_random);

    assert_eq!(id.timestamp(), TIMESTAMP_MAX);
    assert_eq!(id.worker_id(), u16::MAX);
    assert_eq!(id.counter(), COUNTER_MAX);
    assert_eq!(id.random(), max_random);
}

#[test]
fn test_all_zero() {
    let id = SigId26::raw_new_with_worker(0, 0, 0, 0);

    assert_eq!(id.timestamp(), 0);
    assert_eq!(id.worker_id(), 0);
    assert_eq!(id.counter(), 0);
    assert_eq!(id.random(), 0);
}

#[test]
fn test_simple_vs_enterprise_consistency() {
    let simple = SigId26::raw_new(1234567890, 42, 0x123456789abcd);
    let enterprise = SigId26::raw_new_with_worker(1234567890, 0, 42, 0x123456789abcd);

    assert_eq!(
        simple.as_bytes(),
        enterprise.as_bytes(),
        "Simple and Enterprise with worker_id=0 should be identical"
    );
}

#[test]
fn test_timestamp() {
    let ts = 1234567890;
    let id = SigId26::raw_new(ts, 0, 0);
    assert_eq!(id.timestamp(), ts);
}

#[test]
fn test_counter_increment() {
    let id1 = SigId26::raw_new(1234567890, 64, 12345);
    let id2 = SigId26::raw_new(1234567890, 65, 12345);

    assert_eq!(id1.counter(), 64);
    assert_eq!(id2.counter(), 65);
}

#[test]
fn test_worker_id() {
    let id = SigId26::raw_new(1234567890, 0, 12345);
    assert_eq!(id.worker_id(), 0);
}

#[test]
fn test_different_timestamps() {
    let ts1 = 1234567890;
    let ts2 = 1234567891;

    let id1 = SigId26::raw_new(ts1, 0, 12345);
    let id2 = SigId26::raw_new(ts2, 0, 12345);

    assert_ne!(id1.timestamp(), id2.timestamp());
}

#[test]
fn test_id_format() {
    let id = SigId26::raw_new(1234567890, 1, 12345);
    let s = id.to_string();

    assert_eq!(s.len(), 26);

    let valid_chars = "0123456789ABCDEFGHJKMNPQRSTVWXYZ";
    for c in s.chars() {
        assert!(valid_chars.contains(c), "Invalid character: {}", c);
    }
}

#[test]
fn test_timestamp_roundtrip() {
    let ts = 1234567890;
    let id = SigId26::raw_new(ts, 0, 0);
    assert_eq!(id.timestamp(), ts);
}

#[test]
fn raw_new_known_text() {
    let id = SigId26::raw_new_with_worker(0, 0, 0, 1);
    assert_eq!(id.to_string(), "00000000000000000000000001");
    let id = SigId26::raw_new_with_worker(1, 0, 0, 0);
    assert_eq!(id.as_raw_bytes(), [0, 0, 0, 0, 0, 1, 0, 0, 0, 0, 0, 0, 0, 0, 0, 0]);
    let id = SigId26::raw_new_with_worker(0, 0, 1, 0);
    assert_eq!(id.as_raw_bytes(), [0, 0, 0, 0, 0, 0, 0, 0, 0, 4, 0, 0, 0, 0, 0, 0]);
}

#[test]
fn fields_are_cut_to_width() {
    let id = SigId26::raw_new_with_worker(u64::MAX, 7, u16::MAX, u64::MAX);
    assert_eq!(id.timestamp(), TIMESTAMP_MAX);
    assert_eq!(id.worker_id(), 7);
    assert_eq!(id.counter(), COUNTER_MAX);
    assert_eq!(id.random(), 0x3FFFFFFFFFFFF);
}

#[test]
fn timestamp_ms_adds_epoch() {
    let id = SigId26::raw_new(5, 0, 0);
    assert_eq!(id.timestamp_ms(), 1577836800005);
}

#[test]
fn raw_bytes_round_trip() {
    let raw = [0x01, 0x23, 0x45, 0x67, 0x89, 0xAB, 0xCD, 0xEF, 0xFE, 0xDC, 0xBA, 0x98, 0x76, 0x54, 0x32, 0x10];
    let id = SigId26::from_raw_bytes(raw);
    assert_eq!(id.as_raw_bytes(), raw);
    assert!(id.is_valid());
}

#[test]
fn from_bytes_accepts_alphabet_only() {
    let ok = *b"0123456789ABCDEFGHJKMNPQRS";
    let id = SigId26::from_bytes(ok).unwrap();
    assert_eq!(id.as_bytes(), &ok);
    let mut bad = ok;
    bad[3] = b'I';
    assert_eq!(SigId26::from_bytes(bad), Err(Error::InvalidCharacter));
    bad[3] = b'a';
    assert_eq!(SigId26::from_bytes(bad), Err(Error::InvalidCharacter));
}

#[test]
fn from_bytes_keeps_non_canonical_text() {
    let text = *b"Z0000000000000000000000001";
    let id = SigId26::from_bytes(text).unwrap();
    assert_eq!(id.to_string(), "Z0000000000000000000000001");
    let reparsed = SigId26::from_string(&id.to_string()).unwrap();
    assert_eq!(reparsed.to_string(), "70000000000000000000000001");
}

#[test]
fn from_string_lower_case() {
    let id = SigId26::raw_new_with_worker(123, 4, 5, 6);
    let lower = id.to_string().to_lowercase();
    let parsed = SigId26::from_string(&lower).unwrap();
    assert_eq!(parsed, id);
}

#[test]
fn from_string_rejects_look_alikes() {
    let result = SigId26::from_string("0000000000000000000000000O");
    assert_eq!(result, Err(ParseError::Character('O', 25)));
    let result = SigId26::from_string("000000000000000000000000u0");
    assert_eq!(result, Err(ParseError::Character('u', 24)));
}

#[test]
fn from_string_non_ascii_gives_character_error() {
    // 24 ASCII digits and one two-byte character: 26 bytes. The character is not in
    // the alphabet, though its low byte is that of '0'.
    let s = "000000000000000000000000\u{130}";
    assert_eq!(s.len(), 26);
    assert_eq!(SigId26::from_string(s), Err(ParseError::Character('\u{130}', 24)));
    let s = format!("\u{141}{}", "0".repeat(24));
    assert_eq!(s.len(), 26);
    assert_eq!(SigId26::from_string(&s), Err(ParseError::Character('\u{141}', 0)));
}

#[test]
fn raw_round_trip_depends_on_first_character() {
    let low = SigId26::from_bytes(*b"7ZZZZZZZZZZZZZZZZZZZZZZZZZ").unwrap();
    assert_eq!(SigId26::from_raw_bytes(low.as_raw_bytes()), low);
    let high = SigId26::from_bytes(*b"8ZZZZZZZZZZZZZZZZZZZZZZZZZ").unwrap();
    let back = SigId26::from_raw_bytes(high.as_raw_bytes());
    assert_ne!(back, high);
    assert_eq!(back.to_string(), "0ZZZZZZZZZZZZZZZZZZZZZZZZZ");
}

#[test]
fn from_string_lower_case_of_example() {
    let id = SigId26::raw_new(1234567890, 42, 0x123456789abcd);
    assert_eq!(SigId26::from_string(&id.to_string()), Ok(id));
    assert_eq!(SigId26::from_string(&id.to_string().to_ascii_lowercase()), Ok(id));
}
