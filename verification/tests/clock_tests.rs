use kquickview::clock::{clock_timestamp, unix_timestamp};

#[test]
fn timestamps_round_down() {
    assert_eq!(unix_timestamp(false, 0, 0), 0);
    assert_eq!(unix_timestamp(false, 1_700_000_000, 999_999_999), 1_700_000_000);
    assert_eq!(unix_timestamp(true, 5, 0), -5);
    assert_eq!(unix_timestamp(true, 5, 1), -6);
    assert_eq!(unix_timestamp(true, 0, 500), -1);
}

#[test]
fn timestamps_saturate() {
    assert_eq!(unix_timestamp(false, u64::MAX, 0), i64::MAX);
    assert_eq!(unix_timestamp(true, u64::MAX, 3), i64::MIN);
    assert_eq!(unix_timestamp(true, i64::MAX as u64, 1), i64::MIN);
}

#[test]
fn clock_reads_the_system_time() {
    let before = std::time::SystemTime::now()
        .duration_since(std::time::UNIX_EPOCH)
        .unwrap()
        .as_secs() as i64;
    let ts = clock_timestamp();
    let after = std::time::SystemTime::now()
        .duration_since(std::time::UNIX_EPOCH)
        .unwrap()
        .as_secs() as i64;
    assert!(before <= ts && ts <= after);
}
