use sigid::flexible::alphabet::Alphabet;
use sigid::flexible::prefix::{Prefix, RuntimePrefix};

#[test]
fn test_alphabet_chars() {
    assert_eq!(Alphabet::Crockford32.chars().len(), 32);
    assert_eq!(Alphabet::Base64.chars().len(), 64);
    assert_eq!(Alphabet::Hex.chars().len(), 16);
    assert_eq!(Alphabet::Digits.chars().len(), 10);
}

#[test]
fn test_alphabet_contains() {
    let alpha = Alphabet::Crockford32;
    assert!(alpha.contains('0'));
    assert!(alpha.contains('A'));
    assert!(!alpha.contains('I'));
    assert!(!alpha.contains('L'));
    assert!(!alpha.contains('O'));
    assert!(!alpha.contains('U'));
}

#[test]
fn contains_compares_whole_characters() {
    // U+0141 and U+0130 have the low bytes of 'A' and '0'.
    assert!(!Alphabet::Crockford32.contains('\u{141}'));
    assert!(!Alphabet::Digits.contains('\u{130}'));
    assert!(Alphabet::Custom("aé").contains('é'));
    assert!(!Alphabet::Custom("aé").contains('\u{c3}'));
}

#[test]
fn test_default() {
    let alpha = Alphabet::default();
    assert!(matches!(alpha, Alphabet::Crockford32));
}

#[test]
fn alphabet_len_and_custom() {
    assert_eq!(Alphabet::Letters.len(), 52);
    assert_eq!(Alphabet::Alphanumeric.len(), 62);
    assert!(!Alphabet::Hex.is_empty());
    assert!(Alphabet::Custom("").is_empty());
    let custom = Alphabet::Custom("xyz");
    assert_eq!(custom.chars(), "xyz");
    assert!(custom.contains('y'));
    assert!(!custom.contains('a'));
    assert_eq!(Alphabet::Custom("é").len(), 2);
}

#[test]
fn prefixes() {
    let p = Prefix::new("user_");
    assert_eq!(p.as_str(), "user_");
    assert_eq!(p.len(), 5);
    assert!(!p.is_empty());
    let r = RuntimePrefix::new("ord-");
    assert_eq!(r.as_str(), "ord-");
    assert_eq!(r.len(), 4);
    assert!(RuntimePrefix::new("").is_empty());
}
