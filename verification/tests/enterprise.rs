use sigid::enterprise::convert::{SigIdUlidExt, SigIdUuidExt};
use sigid::enterprise::generator::Generator;
use sigid::enterprise::inspect::inspect;
use sigid::enterprise::worker::WorkerId;
use sigid::flexible::alphabet::Alphabet;
use sigid::{Generator as CoreGenerator, SigId26, EPOCH};
use uuid::Uuid;

#[test]
fn test_generator_new() {
    let mut gen = Generator::new();
    let id = gen.generate(1234567890).unwrap();
    assert!(id.is_valid());
}

#[test]
fn test_generator_with_worker_id() {
    let worker = WorkerId::new(42).unwrap();
    let mut gen = Generator::new().with_worker_id(worker);
    assert_eq!(gen.worker_id(), worker);

    let id = gen.generate(1234567890).unwrap();
    assert_eq!(id.worker_id(), worker.value());
}

#[test]
fn test_generator_uuid_conversion() {
    let mut gen = Generator::new();
    let id = gen.generate(1234567890).unwrap();
    let uuid = id.to_uuid();
    let converted = SigId26::from_uuid(uuid);
    assert_eq!(id.as_bytes(), converted.as_bytes());
}

#[test]
fn lib_test_generator_timestamp() {
    let mut gen = Generator::new();
    let ms = 1700000000000;
    let id = gen.generate(ms).unwrap();
    assert_eq!(id.timestamp_ms(), ms);
}

#[test]
fn lib_test_generator_counter_increment() {
    let mut gen = Generator::new();
    let ms = 1234567890;

    let id1 = gen.generate(ms).unwrap();
    let id2 = gen.generate(ms).unwrap();

    assert_eq!(id2.counter(), id1.counter() + 1);
}

#[test]
fn test_with_seed() {
    let mut gen = Generator::new().with_seed(0x123456789abcdef);
    let id = gen.generate(1234567890).unwrap();
    assert!(id.is_valid());
}

#[test]
fn builder_keeps_worker_and_seed() {
    let mut a = Generator::new()
        .with_worker_id(WorkerId::new(9).unwrap())
        .with_seed(11)
        .length(20)
        .alphabet(Alphabet::Hex)
        .with_checksum(true)
        .build();
    let mut b = CoreGenerator::with_worker_id(11, 9);
    assert_eq!(a.generate(1600000000000).unwrap(), b.generate(1600000000000).unwrap());
    assert!(a.now().is_ok());
    let mut d = Generator::default();
    assert!(d.generate(1600000000000).is_ok());
}

#[test]
fn convert_test_uuid_roundtrip() {
    let original = SigId26::raw_new_with_worker(1234567890, 1, 42, 0x123456789abcdef);
    let uuid = original.to_uuid();
    let converted = SigId26::from_uuid(uuid);
    assert_eq!(original.as_bytes(), converted.as_bytes());
}

#[test]
fn test_uuid_binary_compatible() {
    let id = SigId26::raw_new_with_worker(1234567890, 1, 42, 0x123456789abcdef);
    let uuid = id.to_uuid();
    assert_eq!(uuid.as_bytes(), &id.as_raw_bytes());
}

#[test]
fn test_uuid_version() {
    let id = SigId26::raw_new_with_worker(1234567890, 1, 42, 0x123456789abcdef);
    let uuid = id.to_uuid();
    let version = uuid.get_version_num();
    assert!(version <= 15);
}

#[test]
fn test_uuid_variant() {
    let id = SigId26::raw_new_with_worker(1234567890, 1, 42, 0x123456789abcdef);
    let uuid = id.to_uuid();
    let variant = uuid.get_variant();
    assert!(variant == uuid::Variant::RFC4122 || variant == uuid::Variant::NCS);
}

#[test]
fn test_uuid_v7() {
    let id = SigId26::raw_new_with_worker(1234567890, 1, 42, 0x123456789abcdef);
    let uuid = id.to_uuid_v7();

    assert_eq!(uuid.get_version_num(), 7);
    assert_eq!(uuid.get_variant(), uuid::Variant::RFC4122);

    let orig_bytes = id.as_raw_bytes();
    let uuid_bytes = uuid.as_bytes();

    for i in 0..16 {
        if i == 6 || i == 8 {
            continue;
        }
        assert_eq!(orig_bytes[i], uuid_bytes[i], "Byte {} differs", i);
    }
}

#[test]
fn test_ulid_roundtrip() {
    let original = SigId26::raw_new_with_worker(1234567890, 1, 42, 0x123456789abcdef);
    let ulid = original.to_ulid();
    let converted = SigId26::from_ulid(ulid);
    assert_eq!(original.as_bytes(), converted.as_bytes());
}

#[test]
fn uuid_and_ulid_bytes() {
    let raw = [9u8, 8, 7, 6, 5, 4, 3, 2, 1, 0, 1, 2, 3, 4, 5, 6];
    let id = SigId26::from_raw_bytes(raw);
    assert_eq!(*id.to_uuid().as_bytes(), raw);
    assert_eq!(id.to_ulid().to_bytes(), raw);
    assert_eq!(id.to_ulid().0, u128::from_be_bytes(raw));
    let from_uuid = SigId26::from_uuid(Uuid::from_bytes([1; 16]));
    assert_eq!(from_uuid.as_raw_bytes(), [1; 16]);
    let from_ulid = SigId26::from_ulid(ulid::Ulid(5));
    assert_eq!(from_ulid.as_raw_bytes()[15], 5);
}

#[test]
fn test_inspect() {
    let mut gen = CoreGenerator::new(0x123456789abcdef);
    let ms = 1700000000000;
    let id = gen.generate(ms).unwrap();
    let id_str = id.to_string();

    let result = inspect(&id_str).unwrap();
    assert_eq!(result.timestamp, ms);
    assert_eq!(result.prefix, None);
}

#[test]
fn test_inspect_with_timestamp() {
    let timestamp = 1700000000000;
    let id = SigId26::raw_new_with_worker(timestamp - EPOCH, 42, 0, 0x123456789abcdef);
    let id_str = id.to_string();

    let result = inspect(&id_str).unwrap();
    assert_eq!(result.timestamp, timestamp);
    assert_eq!(result.worker_id, Some(42));
}

#[test]
fn test_inspect_with_prefix() {
    let timestamp = 1700000000000;
    let id = SigId26::raw_new_with_worker(timestamp - EPOCH, 0, 0, 0);
    let id_str = format!("user_{}", id.to_string());
    let result = inspect(&id_str).unwrap();
    assert_eq!(result.prefix, Some("user_".to_string()));
    assert!(result.has_prefix);
}

#[test]
fn test_inspect_roundtrip() {
    let mut gen = CoreGenerator::new(0x123456789abcdef);
    let ms = 1700000000000;
    let id = gen.generate(ms).unwrap();
    let id_str = id.to_string();

    let result = inspect(&id_str).unwrap();
    assert_eq!(result.timestamp, ms);
}

#[test]
fn inspect_fields_and_check_character() {
    let id = SigId26::raw_new_with_worker(5, 6, 7, 8);
    let text = id.to_string();
    let report = inspect(&format!("a.b-{}", text)).unwrap();
    assert_eq!(report.prefix, Some("a.b-".to_string()));
    assert_eq!(report.raw, format!("a.b-{}", text));
    assert_eq!(report.timestamp, EPOCH + 5);
    assert_eq!(report.timestamp_ms(), EPOCH + 5);
    assert_eq!(report.counter, 7);
    assert_eq!(report.random, 8);
    assert_eq!(report.checksum, None);
    assert!(report.checksum_valid);

    let check = sigid::iso7064_checksum(text.as_bytes()) as char;
    let report = inspect(&format!("ord_{}{}", text, check)).unwrap();
    assert_eq!(report.prefix, Some("ord_".to_string()));
    assert_eq!(report.counter, 7);
    assert_eq!(report.checksum, Some(check));
    assert!(report.checksum_valid);

    let wrong = if check == '0' { '1' } else { '0' };
    let report = inspect(&format!("{}{}", text, wrong)).unwrap();
    assert_eq!(report.checksum, Some(wrong));
    assert!(!report.checksum_valid);
}

#[test]
fn inspect_plain_identifier_has_no_check_character() {
    let id = SigId26::raw_new_with_worker(1700000000000 - EPOCH, 0, 0, 0);
    let report = inspect(&id.to_string()).unwrap();
    assert_eq!(report.checksum, None);
    assert!(report.checksum_valid);
    assert!(!report.has_prefix);
}

#[test]
fn inspect_checked_flexible_identifier() {
    let mut gen = sigid::flexible::generator::Generator::new().prefix("inv_").with_checksum(true);
    let id = gen.generate(1700000000000).unwrap();
    let report = inspect(&id).unwrap();
    assert_eq!(report.timestamp, 1700000000000);
    assert!(report.checksum.is_some());
    assert!(report.checksum_valid);
}

#[test]
fn inspect_rejects_non_identifiers() {
    assert!(inspect("user_123").is_none());
    assert!(inspect("").is_none());
}

#[test]
fn inspect_timestamp_human() {
    let id = SigId26::raw_new(0, 0, 0);
    let report = inspect(&id.to_string()).unwrap();
    let text = report.timestamp_human();
    assert!(text.contains("1577836800"));
}

#[test]
fn timestamp_parts_split_milliseconds() {
    let id = SigId26::raw_new(1234, 0, 0);
    let report = inspect(&id.to_string()).unwrap();
    assert_eq!(report.timestamp, EPOCH + 1234);
    assert_eq!(report.timestamp_parts(), ((EPOCH + 1234) / 1000, 234_000_000));
}

#[test]
fn uuid_conv_test_uuid_roundtrip() {
    let original = SigId26::raw_new(1234567890, 42, 0x123456789abcdef);
    let uuid = Uuid::from(original);
    let converted = SigId26::try_from(uuid).unwrap();
    assert_eq!(original.as_bytes(), converted.as_bytes());
}
