use rbtl_steamsockets::ping_tracker::{PingTracker, NANOS_PER_SEC, PINGS_LEN};

const MS: u64 = 1_000_000;

#[test]
fn new_tracker_is_empty() {
    let t = PingTracker::new();
    assert!(t.waiting_ping.is_none());
    assert!(t.recorded_pings.is_empty());
    assert_eq!(t.last_ping_info(), None);
    assert_eq!(t.ping_summary(0, 0, false), None);
}

#[test]
fn pong_records_round_trip_in_ms() {
    let mut t = PingTracker::new();
    t.ping_at(7, 1_000 * MS);
    assert_eq!(t.waiting_ping, Some((7, 1_000 * MS)));
    t.pong_at(7, 2_234 * MS + 999_999);
    assert_eq!(t.waiting_ping, None);
    assert_eq!(t.last_ping_info(), Some((1234, 2_234 * MS + 999_999)));
}

#[test]
fn pong_caps_at_4999() {
    let mut t = PingTracker::new();
    t.ping_at(1, 0);
    t.pong_at(1, 5 * NANOS_PER_SEC);
    assert_eq!(t.last_ping_info(), Some((4999, 5 * NANOS_PER_SEC)));
    t.ping_at(2, 10 * NANOS_PER_SEC);
    t.pong_at(2, 14 * NANOS_PER_SEC + 999 * MS);
    assert_eq!(t.last_ping_info(), Some((4999, 14 * NANOS_PER_SEC + 999 * MS)));
}

#[test]
fn pong_of_other_id_does_nothing() {
    let mut t = PingTracker::new();
    t.ping_at(3, 0);
    t.pong_at(4, 10 * MS);
    assert_eq!(t.waiting_ping, Some((3, 0)));
    assert!(t.recorded_pings.is_empty());
}

#[test]
fn ping_while_waiting_is_ignored() {
    let mut t = PingTracker::new();
    t.ping_at(1, 0);
    t.ping_at(2, 3 * NANOS_PER_SEC + 999 * MS);
    assert_eq!(t.waiting_ping, Some((1, 0)));
    t.ping_at(3, 100 * NANOS_PER_SEC);
    assert_eq!(t.waiting_ping, Some((1, 0)));
    t.pong_at(1, 100 * NANOS_PER_SEC);
    t.ping_at(4, 101 * NANOS_PER_SEC);
    assert_eq!(t.waiting_ping, Some((4, 101 * NANOS_PER_SEC)));
}

#[test]
fn keeps_sixteen_latest_pings() {
    let mut t = PingTracker::new();
    for i in 0..20u64 {
        t.ping_at(i as u32, i * NANOS_PER_SEC * 10);
        t.pong_at(i as u32, i * NANOS_PER_SEC * 10 + i * MS);
    }
    assert_eq!(t.recorded_pings.len(), PINGS_LEN);
    assert_eq!(t.recorded_pings[0].0, 19);
    assert_eq!(t.recorded_pings[PINGS_LEN - 1].0, 4);
}

#[test]
fn summary_over_recent_pings() {
    let mut t = PingTracker::new();
    // pings of 10, 20, 30 ms arriving at 1 s, 2 s, 3 s
    for (i, ms) in [(1u64, 10u64), (2, 20), (3, 30)] {
        let sent = i * NANOS_PER_SEC - ms * MS;
        t.ping_at(i as u32, sent);
        t.pong_at(i as u32, i * NANOS_PER_SEC);
    }
    // a window of 1.5 s before 3.5 s covers the pings at 3 s and 2 s
    assert_eq!(t.ping_summary(3_500 * MS, 1_500 * MS, false), Some((50, 2)));
    // a window covering everything
    assert_eq!(t.ping_summary(3 * NANOS_PER_SEC, 10 * NANOS_PER_SEC, false), Some((60, 3)));
    // nothing recent: the latest ping alone
    assert_eq!(t.ping_summary(100 * NANOS_PER_SEC, NANOS_PER_SEC, false), Some((30, 1)));
    // latest only
    assert_eq!(t.ping_summary(3 * NANOS_PER_SEC, 10 * NANOS_PER_SEC, true), Some((30, 1)));
}

#[test]
fn clock_reading_starts_near_zero() {
    let t = PingTracker::new();
    let a = t.now_nanos();
    let b = t.now_nanos();
    assert!(a <= b);
    assert!(b < 60 * NANOS_PER_SEC);
}
