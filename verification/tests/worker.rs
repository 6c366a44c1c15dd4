use sigid::enterprise::worker::WorkerId;

#[test]
fn worker_test_worker_id_bounds() {
    assert_eq!(WorkerId::new(0).unwrap().value(), 0);
    assert_eq!(WorkerId::new(65535).unwrap().value(), 65535);

    let id = WorkerId::new(65535).unwrap();
    assert_eq!(id.value(), 65535);

    let id = WorkerId::from_u16(0xFFFF);
    assert_eq!(id.value(), 0xFFFF);
}

#[test]
fn test_worker_id_from_u16() {
    let id = WorkerId::from(12345);
    assert_eq!(id.value(), 12345);
}

#[test]
fn test_worker_id_from_u16_const() {
    let id = WorkerId::from_u16(0xFFFF);
    assert_eq!(id.value(), 0xFFFF);

    let id = WorkerId::from_u16(0xFFFF);
    assert_eq!(id.value(), 0xFFFF);
}

#[test]
fn test_worker_id_from_hostname() {
    let id = WorkerId::from_hostname("test-host-1");
    assert!(id.is_some());
}

#[test]
fn test_worker_id_value() {
    let id = WorkerId::new(42).unwrap();
    assert_eq!(id.value(), 42);
}

#[test]
fn worker_id_into_u16() {
    let n: u16 = WorkerId::from_u16(77).into();
    assert_eq!(n, 77);
    assert_eq!(WorkerId::new_unchecked(5).value(), 5);
    assert_eq!(WorkerId::from_seed(0x1234_5678_9ABC_DEF0).value(), 0xDEF0);
}

#[test]
fn from_hostname_is_deterministic() {
    let a = WorkerId::from_hostname("node-a").unwrap();
    let b = WorkerId::from_hostname("node-a").unwrap();
    assert_eq!(a, b);
    let others: Vec<u16> = (0..20)
        .map(|i| WorkerId::from_hostname(&format!("node-{}", i)).unwrap().value())
        .collect();
    assert!(others.iter().any(|&v| v != others[0]));
}

#[test]
fn from_env_values_order() {
    assert_eq!(WorkerId::from_env_values(Some("42"), Some("pod"), Some("host")).unwrap().value(), 42);
    assert_eq!(WorkerId::from_env_values(Some("+7"), None, None).unwrap().value(), 7);
    assert_eq!(
        WorkerId::from_env_values(Some("70000"), Some("pod"), None),
        WorkerId::from_hostname("pod")
    );
    assert_eq!(
        WorkerId::from_env_values(Some("x1"), None, Some("host")),
        WorkerId::from_hostname("host")
    );
    assert_eq!(WorkerId::from_env_values(None, Some("pod"), Some("host")), WorkerId::from_hostname("pod"));
    assert_eq!(WorkerId::from_env_values(Some(" 1"), None, None), None);
    assert_eq!(WorkerId::from_env_values(None, None, None), None);
}

#[test]
fn from_conversions_match_constructors() {
    assert_eq!(WorkerId::from(0xFFFFu16), WorkerId::from_u16(0xFFFF));
    assert_eq!(WorkerId::new(42), Some(WorkerId::from(42u16)));
    assert_eq!(u16::from(WorkerId::new(42).unwrap()), 42);
}

#[test]
fn zero_config_from_prefers_environment_then_host() {
    let env = WorkerId::from_u16(1);
    let host = WorkerId::from_u16(2);
    assert_eq!(WorkerId::zero_config_from(Some(env), Some(host), 0xABCD_1234), env);
    assert_eq!(WorkerId::zero_config_from(None, Some(host), 0xABCD_1234), host);
    assert_eq!(WorkerId::zero_config_from(None, None, 0xABCD_1234).value(), 0x1234);
}

#[test]
fn seed_worker_id_is_read_as_decimal_u16() {
    let host = WorkerId::from_hostname("h");
    let read = |s: &str| WorkerId::from_env_values(Some(s), None, Some("h"));
    assert_eq!(read("65535").unwrap().value(), 65535);
    assert_eq!(read("007").unwrap().value(), 7);
    assert_eq!(read("+0").unwrap().value(), 0);
    assert_eq!(read("65536"), host);
    assert_eq!(read(""), host);
    assert_eq!(read("+"), host);
    assert_eq!(read("-1"), host);
    assert_eq!(read(" 1"), host);
    assert_eq!(read("1٣"), host);
}
