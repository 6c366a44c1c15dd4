use std::str::FromStr;

use sigid::generator::GeneratorState;
use sigid::rng::{seed_from_bytes, Xorshift64, DEFAULT_SEED};
use sigid::{Error, Generator, SigId26, COUNTER_MAX};

#[test]
fn test_generator_worker_id() {
    let mut gen = Generator::with_worker_id(0x123456789abcdef, 0x1234);
    assert_eq!(gen.get_worker_id(), 0x1234);

    let id = gen.generate(1234567890).unwrap();
    assert_eq!(id.worker_id(), 0x1234);
}

#[test]
fn generator_test_generator_counter_increment() {
    let mut gen = Generator::new(0x123456789abcdef);
    let ms = 1234567890;

    let id1 = gen.generate(ms).unwrap();
    let id2 = gen.generate(ms).unwrap();

    assert_eq!(id2.counter(), id1.counter() + 1);
}

#[test]
fn generator_test_generator_timestamp() {
    let mut gen = Generator::new(0x123456789abcdef);
    let ms = 1700000000000;
    let id = gen.generate(ms).unwrap();
    assert_eq!(id.timestamp_ms(), ms);
}

#[test]
fn test_counter_overflow() {
    let mut gen = Generator::new(0x123456789abcdef);

    // Year 3000, so that the system clock reads earlier.
    let ms = 32503680000000u64;

    for i in 0..=COUNTER_MAX {
        let result = gen.generate(ms);
        assert!(result.is_ok(), "Unexpected error at iteration {}", i);
    }

    let result = gen.generate(ms);

    assert!(
        result.is_err(),
        "Expected CounterOverflow error after {} generated IDs",
        COUNTER_MAX + 1
    );
    match result {
        Err(Error::CounterOverflow) => {}
        _ => panic!("Expected CounterOverflow error, got {:?}", result),
    }
}

#[test]
fn counter_overflow_leaves_generator_unchanged() {
    let mut gen = Generator::new(0x123456789abcdef);
    let ms = 32503680000000u64;
    for _ in 0..=COUNTER_MAX {
        gen.generate(ms).unwrap();
    }
    let mut again = gen.clone();
    assert_eq!(again.resume_at(Some(ms)), Err(Error::CounterOverflow));
    assert_eq!(again.resume_at(Some(ms - 1)), Err(Error::CounterOverflow));
    assert_eq!(gen.generate(ms), Err(Error::CounterOverflow));
    assert_eq!(gen.generate(ms), Err(Error::CounterOverflow));
}

#[test]
fn test_generator_now() {
    let mut gen = Generator::new(0x123456789abcdef);
    let id = gen.generate(1700000000000).unwrap();
    assert!(id.is_valid());
}

#[test]
fn test_generate_id() {
    let mut gen = Generator::new(0x123456789abcdef);
    let id = gen.generate(1234567890).unwrap();
    let s = id.to_string();
    assert_eq!(s.len(), 26);
    assert!(id.is_valid());
}

#[test]
fn test_parse_id() {
    let mut gen = Generator::new(0x123456789abcdef);
    let id1 = gen.generate(1234567890).unwrap();
    let s = id1.to_string();

    println!("Parsing ID: '{}' (length: {})", s, s.len());
    assert_eq!(s.len(), 26);

    let id2 = SigId26::from_str(&s).unwrap();
    assert_eq!(id1.as_bytes(), id2.as_bytes());
}

#[test]
fn test_debug_encode() {
    let mut gen = Generator::new(0x123456789abcdef);
    let id = gen.generate(1234567890).unwrap();
    let s = id.to_string();
    assert_eq!(s.len(), 26);
    println!("Generated ID: {}", s);
}

fn xorshift(x: u64) -> u64 {
    let mut x = x;
    x ^= x << 13;
    x ^= x >> 7;
    x ^= x << 17;
    x
}

#[test]
fn generate_uses_next_xorshift_state() {
    let mut gen = Generator::new(1);
    let id = gen.generate(1577836800123).unwrap();
    assert_eq!(id.random(), xorshift(1) & 0x3FFFFFFFFFFFF);
    assert_eq!(id.timestamp(), 123);
    assert_eq!(id.counter(), 0);
}

#[test]
fn generate_new_millisecond_restarts_counter() {
    let mut gen = Generator::new(9);
    gen.generate(1600000000000).unwrap();
    let id = gen.generate(1600000000000).unwrap();
    assert_eq!(id.counter(), 1);
    let id = gen.generate(1600000000001).unwrap();
    assert_eq!(id.counter(), 0);
}

#[test]
fn generate_ids_increase() {
    let mut gen = Generator::new(5);
    let a = gen.generate(1600000000000).unwrap();
    let b = gen.generate(1600000000000).unwrap();
    let c = gen.generate(1600000000001).unwrap();
    assert!(a.to_string() < b.to_string());
    assert!(b.to_string() < c.to_string());
}

#[test]
fn generate_timestamp_overflow() {
    let mut gen = Generator::new(5);
    let too_late = 1577836800000u64 + (1u64 << 48);
    assert_eq!(gen.generate(too_late), Err(Error::TimestampOverflow));
    let last_ok = 1577836800000u64 + (1u64 << 48) - 1;
    assert!(gen.generate(last_ok).is_ok());
}

#[test]
fn generate_before_epoch_has_timestamp_zero() {
    let mut gen = Generator::new(5);
    let id = gen.generate(1000).unwrap();
    assert_eq!(id.timestamp(), 0);
}

#[test]
fn resume_at_cases() {
    let mut gen = Generator::with_worker_id(3, 77);
    gen.generate(1600000000000).unwrap();
    assert_eq!(gen.resume_at(None), Err(Error::TimestampOverflow));
    assert_eq!(gen.resume_at(Some(1600000000000)), Err(Error::CounterOverflow));
    let id = gen.resume_at(Some(1600000000005)).unwrap();
    assert_eq!(id.timestamp_ms(), 1600000000005);
    assert_eq!(id.counter(), 0);
    assert_eq!(id.worker_id(), 77);
}

#[test]
fn new_replaces_zero_seed() {
    let mut a = Generator::new(0);
    let mut b = Generator::new(DEFAULT_SEED);
    assert_eq!(a.generate(1600000000000).unwrap(), b.generate(1600000000000).unwrap());
    let mut d = Generator::default();
    let mut e = Generator::new(DEFAULT_SEED);
    assert_eq!(d.generate(1).unwrap(), e.generate(1).unwrap());
}

#[test]
fn set_worker_id_and_reset() {
    let mut gen = Generator::new(5).set_worker_id(12);
    assert_eq!(gen.get_worker_id(), 12);
    gen.generate(1600000000000).unwrap();
    gen.reset();
    let id = gen.generate(1600000000000).unwrap();
    assert_eq!(id.counter(), 0);
}

#[test]
fn generator_state_is_plain_data() {
    let s = GeneratorState { seed: 1, last_ms: 2, counter: 3, worker_id: 4 };
    assert_eq!(s, GeneratorState { seed: 1, last_ms: 2, counter: 3, worker_id: 4 });
}

#[test]
fn xorshift_generator() {
    let mut rng = Xorshift64::new(1);
    assert_eq!(rng.next(), xorshift(1));
    assert_eq!(rng.next(), xorshift(xorshift(1)));
    let mut zero = Xorshift64::new(0);
    assert_eq!(zero.next(), xorshift(DEFAULT_SEED));
    let copy = rng.clone();
    let mut copy = copy;
    assert_eq!(copy.next(), rng.next());
}

#[test]
fn seed_from_bytes_is_big_endian() {
    assert_eq!(seed_from_bytes([1, 2, 3, 4, 5, 6, 7, 8]), 0x0102030405060708);
}

#[test]
fn secure_seed_gives_some() {
    assert!(sigid::rng::secure_seed().is_some());
}

#[test]
fn clock_reads_after_epoch() {
    let ms = sigid::clock::unix_time_ms().unwrap();
    assert!(ms > 1577836800000);
}

#[test]
fn xorshift_never_reaches_zero() {
    let mut rng = Xorshift64::new(0x8000_0000_0000_0000);
    for _ in 0..10000 {
        assert_ne!(rng.next(), 0);
    }
}
