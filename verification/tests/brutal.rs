use tcp_sender::brutal::{Brutal, MIN_WINDOW, WINDOW_GAIN};
use tcp_sender::rtt::RttEstimator;
use tcp_sender::time::{Duration, Instant};

#[test]
fn pacing_rate_tracks_set_rate() {
    let mut b = Brutal::new();
    assert_eq!(b.pacing_rate(), 0, "no rate → pacing disabled");
    b.set_rate(12_500_000); // 100 Mbps in bytes/sec
    assert_eq!(b.pacing_rate(), 12_500_000);
}

#[test]
fn window_is_never_below_floor() {
    let mut b = Brutal::new();
    b.set_mss(1480);
    // No rate yet → floor.
    assert!(b.window() >= MIN_WINDOW);
    // With a rate, window ≈ BDP × gain and still ≥ floor.
    b.set_rate(12_500_000);
    let bdp = 12_500_000u64 * 100 / 1000; // default RTT = 100ms
    let expect = (bdp * WINDOW_GAIN) as usize;
    assert_eq!(b.window(), expect.max(MIN_WINDOW));
}

#[test]
fn window_before_a_rate_is_the_floor() {
    let mut b = Brutal::default();
    assert_eq!(b.window(), 65536);
    b.set_mss(9000);
    assert_eq!(b.window(), 90_000);
    b.set_mss(usize::MAX);
    assert_eq!(b.window(), usize::MAX);
}

#[test]
fn window_follows_the_smoothed_rtt() {
    let mut b = Brutal::new();
    b.set_rate(12_500_000);
    let now = Instant::from_millis(1);
    b.on_ack(now, 1480, &RttEstimator::new(None, Duration::zero()));
    assert_eq!(b.window(), 2_500_000);
    let srtt = Duration::from_millis(20);
    b.on_ack(now, 1480, &RttEstimator::new(Some(srtt), srtt));
    assert_eq!(b.window(), 500_000);
    // Less than a millisecond counts as one.
    let srtt = Duration { micros: 999 };
    b.on_ack(now, 1480, &RttEstimator::new(Some(srtt), srtt));
    b.set_rate(100_000_000);
    assert_eq!(b.window(), 200_000);
}

#[test]
fn an_enormous_rate_saturates() {
    let mut b = Brutal::new();
    b.set_rate(u64::MAX);
    assert_eq!(b.window(), (u64::MAX / 1000 * 2) as usize);
}
