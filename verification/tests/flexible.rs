use sigid::flexible::alphabet::Alphabet;
use sigid::flexible::checksum::verify_checksum;
use sigid::flexible::generator::Generator;
use sigid::Error;

#[test]
fn test_generator_default() {
    let mut gen = Generator::new();
    let id = gen.generate(1234567890).unwrap();
    assert_eq!(id.len(), 26);
}

#[test]
fn test_generator_custom_length() {
    let mut gen = Generator::new().length(20);
    let id = gen.generate(1234567890).unwrap();
    assert_eq!(id.len(), 20);
}

#[test]
fn test_generator_with_prefix() {
    let mut gen = Generator::new().prefix("user_");
    let id = gen.generate(1234567890).unwrap();
    assert!(id.starts_with("user_"));
}

#[test]
fn length_is_clamped() {
    assert_eq!(Generator::new().length(3).generate(1600000000000).unwrap().len(), 12);
    assert_eq!(Generator::new().length(100).generate(1600000000000).unwrap().len(), 64);
}

#[test]
fn long_identifiers_are_lengthened_from_the_alphabet() {
    let plain = Generator::new().generate(1600000000000).unwrap();
    let long = Generator::new().length(40).generate(1600000000000).unwrap();
    assert_eq!(long.len(), 40);
    assert_eq!(&long[..26], &plain[..]);
    let alphabet = Alphabet::Crockford32;
    assert!(long.chars().all(|c| alphabet.contains(c)));
}

#[test]
fn checksum_prefix_and_alphabet() {
    let plain = Generator::new().generate(1600000000000).unwrap();
    let mut gen = Generator::new()
        .length(24)
        .alphabet(Alphabet::Base64)
        .prefix("ord_")
        .with_checksum(true)
        .build();
    let id = gen.generate(1600000000000).unwrap();
    assert_eq!(id.len(), 4 + 24 + 1);
    assert!(id.starts_with("ord_"));
    assert_eq!(&id[4..28], &plain[..24]);
    assert!(verify_checksum(&id[4..]));
}

#[test]
fn repeated_generate_gives_distinct_identifiers() {
    let mut gen = Generator::default();
    let a = gen.generate(1600000000000).unwrap();
    let b = gen.generate(1600000000000).unwrap();
    assert_ne!(a, b);
    let mut gen = Generator::new().length(16);
    let a = gen.generate(1600000000000).unwrap();
    let b = gen.generate(1600000000000).unwrap();
    assert_ne!(a, b);
    assert!(gen.now().is_ok());
}

#[test]
fn fresh_generators_agree() {
    let a = Generator::new().generate(1600000000000).unwrap();
    let b = Generator::new().generate(1600000000000).unwrap();
    assert_eq!(a, b);
}

#[test]
fn now_at_uses_the_reading() {
    let mut a = Generator::new();
    let mut b = Generator::new();
    assert_eq!(a.now_at(Some(1600000000000)), b.generate(1600000000000));
    let mut c = Generator::new();
    let mut d = Generator::new();
    assert_eq!(c.now_at(None), d.generate(0));
    let mut e = Generator::new();
    assert_eq!(e.now_at(Some(u64::MAX)), Err(Error::TimestampOverflow));
}
