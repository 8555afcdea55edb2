use shibei::hlc::{Hlc, HlcClock};

#[test]
fn test_hlc_serialize_format() {
    let hlc = Hlc::new(1_711_987_200_000, 3, "abc-123".to_string());
    assert_eq!(hlc.to_string(), "1711987200000-0003-abc-123");
}

#[test]
fn test_hlc_parse_roundtrip() {
    let original = Hlc::new(1_711_987_200_000, 3, "abc-123".to_string());
    let serialized = original.to_string();
    let parsed: Hlc = serialized.parse().expect("parse should succeed");
    assert_eq!(parsed.wall_time_ms, original.wall_time_ms);
    assert_eq!(parsed.counter, original.counter);
    assert_eq!(parsed.device_id, original.device_id);
}

#[test]
fn test_hlc_lexicographic_order() {
    let earlier = Hlc::new(1_000_000_000_000, 0, "dev-1".to_string());
    let later = Hlc::new(1_000_000_000_001, 0, "dev-1".to_string());
    assert!(earlier.to_string() < later.to_string());

    let low_counter = Hlc::new(1_000_000_000_000, 1, "dev-1".to_string());
    let high_counter = Hlc::new(1_000_000_000_000, 2, "dev-1".to_string());
    assert!(low_counter.to_string() < high_counter.to_string());
}

#[test]
fn test_hlc_clock_tick_advances() {
    let mut clock = HlcClock::new("test-device".to_string());
    let t1 = clock.tick();
    let t2 = clock.tick();
    assert!(t2.to_string() > t1.to_string());
    assert!(t2.wall_time_ms >= t1.wall_time_ms);
}

#[test]
fn test_hlc_clock_receive_remote() {
    let mut clock = HlcClock::new("local-device".to_string());
    let remote = Hlc::new(9_999_999_999_999, 0, "remote-device".to_string());
    let result = clock.receive(&remote);
    assert!(result.wall_time_ms >= remote.wall_time_ms);
    assert_eq!(result.device_id, "local-device");
    assert!(result.counter > remote.counter);
}

#[test]
fn hlc_negative_wall_time_is_zero_padded_after_sign() {
    let hlc = Hlc::new(-5, 7, "d".to_string());
    assert_eq!(hlc.to_string(), "-000000000005-0007-d");
}

#[test]
fn hlc_parse_keeps_dashes_in_device_id() {
    let parsed: Hlc = "1711987200000-0012-a-b-c".parse().unwrap();
    assert_eq!(parsed.wall_time_ms, 1_711_987_200_000);
    assert_eq!(parsed.counter, 12);
    assert_eq!(parsed.device_id, "a-b-c");
}

#[test]
fn hlc_parse_rejects_malformed() {
    assert!("no-dashes".parse::<Hlc>().is_err());
    assert!("123".parse::<Hlc>().is_err());
    assert!("123-x-dev".parse::<Hlc>().is_err());
    assert!("12a-0001-dev".parse::<Hlc>().is_err());
}

#[test]
fn hlc_clock_tick_at_same_instant_bumps_counter() {
    let mut clock = HlcClock::new("dev".to_string());
    let a = clock.tick_at(5_000);
    let b = clock.tick_at(5_000);
    assert_eq!(a.wall_time_ms, 5_000);
    assert_eq!(a.counter, 0);
    assert_eq!(b.wall_time_ms, 5_000);
    assert_eq!(b.counter, 1);
    let c = clock.tick_at(4_000);
    assert_eq!(c.wall_time_ms, 5_000);
    assert_eq!(c.counter, 2);
    let d = clock.tick_at(6_000);
    assert_eq!(d.wall_time_ms, 6_000);
    assert_eq!(d.counter, 0);
}

#[test]
fn hlc_clock_receive_at_merges_counters() {
    let mut clock = HlcClock::new("dev".to_string());
    clock.tick_at(5_000);
    let remote = Hlc::new(5_000, 9, "other".to_string());
    let r = clock.receive_at(&remote, 1_000);
    assert_eq!(r.wall_time_ms, 5_000);
    assert_eq!(r.counter, 10);
    assert_eq!(r.device_id, "dev");
}
