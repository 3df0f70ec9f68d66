use tcp_sender::bbr::ack_aggregation::AckAggregationState;
use tcp_sender::bbr::bw_estimation::BandwidthEstimation;
use tcp_sender::bbr::min_max::MinMax;
use tcp_sender::time::{Duration, Instant};

fn at(ms: i64) -> Instant {
    Instant::from_millis(ms)
}

#[test]
fn rate_is_bytes_per_second() {
    assert_eq!(BandwidthEstimation::bw_from_delta(1000, Duration::zero()), None);
    assert_eq!(BandwidthEstimation::bw_from_delta(1000, Duration::from_millis(1)), Some(1_000_000));
    assert_eq!(BandwidthEstimation::bw_from_delta(7, Duration { micros: 3 }), Some(2_333_333));
    assert_eq!(BandwidthEstimation::bw_from_delta(0, Duration { micros: 3 }), Some(0));
}

#[test]
fn sending_is_recorded() {
    let mut e = BandwidthEstimation::default();
    e.on_sent(at(1), 100);
    e.on_sent(at(2), 50);
    assert_eq!((e.total_sent, e.prev_total_sent), (150, 100));
    assert_eq!((e.sent_time, e.prev_sent_time), (Some(at(2)), Some(at(1))));
}

#[test]
fn an_interval_is_sampled_once_and_whole() {
    let mut e = BandwidthEstimation::default();
    e.set_sample_interval(Duration::from_millis(10));
    // The first ACK starts the interval and counts in it.
    e.on_ack(at(100), at(100), 1000, 0, false);
    assert_eq!(e.interval_start, Some((at(100), 0)));
    // ACKs with the timestamp of the first, or within the interval, make no sample.
    e.on_ack(at(100), at(100), 1000, 0, false);
    e.on_ack(at(109), at(109), 1000, 0, false);
    assert_eq!(e.get_estimate(), 0);
    assert_eq!(e.interval_start, Some((at(100), 0)));
    // The interval ends: 4000 bytes in 10 ms.
    e.on_ack(at(110), at(110), 1000, 1, false);
    assert_eq!(e.get_estimate(), 400_000);
    assert_eq!(e.interval_start, Some((at(110), 4000)));
    assert_eq!(e.bytes_acked_this_window(), 4000);
    e.end_acks(1, false);
    assert_eq!(e.bytes_acked_this_window(), 0);
}

#[test]
fn an_interval_in_the_future_is_started_anew() {
    let mut e = BandwidthEstimation::default();
    e.on_ack(at(100), at(100), 1000, 0, false);
    e.on_ack(at(50), at(50), 500, 0, false);
    assert_eq!(e.interval_start, Some((at(50), 1000)));
    assert_eq!(e.get_estimate(), 0);
}

#[test]
fn sampling_interval_has_a_floor() {
    let mut e = BandwidthEstimation::default();
    assert_eq!(e.sample_interval, Duration::from_millis(1));
    e.set_sample_interval(Duration { micros: 300 });
    assert_eq!(e.sample_interval, Duration::from_millis(1));
    e.set_sample_interval(Duration { micros: 1300 });
    assert_eq!(e.sample_interval, Duration { micros: 1300 });
}

#[test]
fn app_limited_samples_do_not_lower_the_estimate() {
    let mut e = BandwidthEstimation::default();
    e.on_ack(at(0), at(0), 0, 0, false);
    e.on_ack(at(10), at(10), 10_000, 1, false);
    assert_eq!(e.get_estimate(), 1_000_000);
    for round in 2..40 {
        e.on_ack(at(10 * round as i64), at(0), 100, round, true);
    }
    assert_eq!(e.get_estimate(), 1_000_000);
    // One that reaches beyond it counts.
    e.on_ack(at(400), at(0), 20_000, 40, true);
    assert_eq!(e.get_estimate(), 2_000_000);
    // Without the application as the limit the estimate follows the window of rounds.
    e.on_ack(at(410), at(0), 5_000, 41, false);
    assert_eq!(e.get_estimate(), 2_000_000);
    e.on_ack(at(420), at(0), 5_000, 60, false);
    assert_eq!(e.get_estimate(), 500_000);
}

#[test]
fn filter_keeps_the_maximum_for_its_window() {
    let mut f = MinMax::new(10);
    assert_eq!(f.get(), 0);
    f.update_max(0, 100);
    for round in 1..=10 {
        f.update_max(round, 50 - round);
        assert_eq!(f.get(), 100, "round {round}");
    }
    // The maximum has left the window: a later choice takes its place.
    f.update_max(11, 10);
    assert_eq!(f.get(), 47);
    f.update_max(12, 200);
    assert_eq!(f.get(), 200);
    // After a gap longer than the window only the new measurement is left.
    f.update_max(23, 1);
    assert_eq!(f.get(), 1);
}

#[test]
fn filter_tops_every_later_measurement() {
    let mut f = MinMax::new(10);
    let mut made: Vec<(u64, u64)> = Vec::new();
    let mut state: u32 = 7;
    for i in 0..2000u64 {
        state = state.wrapping_mul(1_103_515_245).wrapping_add(12_345);
        let value = (state >> 16) as u64 % 1000;
        let round = i / 3 + if i > 1000 { 15 } else { 0 };
        f.update_max(round, value);
        made.push((round, value));
        let from = made.iter().rposition(|&m| m == (f.first.time, f.first.value)).unwrap();
        assert!(made[from..].iter().all(|&(_, v)| v <= f.get()));
        assert!(round - f.first.time <= 10);
    }
}

#[test]
fn aggregation_is_held_against_the_bandwidth() {
    let mut a = AckAggregationState::new();
    a.update_ack_aggregation(1000, at(1), false, 1_000_000, 10_000);
    assert_eq!(a.extra_acked(), 1000);
    assert_eq!((a.ack_epoch_mstamp, a.ack_epoch_acked), (Some(at(1)), 1000));
    // 1000 bytes were expected in that millisecond, and no more were ACKed: the epoch starts
    // anew, and nothing is expected of the new one yet.
    a.update_ack_aggregation(2000, at(2), false, 1_000_000, 10_000);
    assert_eq!(a.extra_acked(), 2000);
    assert_eq!((a.ack_epoch_mstamp, a.ack_epoch_acked), (Some(at(2)), 2000));
    // Nothing is expected at once; the window bounds the excess.
    a.update_ack_aggregation(5000, at(2), false, 1_000_000, 6_000);
    assert_eq!(a.extra_acked(), 6000);
    assert_eq!(a.ack_epoch_acked, 7000);
    // An epoch that has become too large starts anew.
    a.update_ack_aggregation(0x10_0000, at(2), false, 1_000_000, 6_000);
    assert_eq!(a.ack_epoch_acked, 0xF_FFFF);
    // No bytes, no change.
    a.update_ack_aggregation(0, at(9), true, 1_000_000, 6_000);
    assert_eq!((a.ack_epoch_mstamp, a.ack_epoch_acked), (Some(at(2)), 0xF_FFFF));
    assert_eq!(a.extra_acked_win_rtts, 0);
}

#[test]
fn nothing_is_expected_of_a_new_epoch() {
    let mut a = AckAggregationState::new();
    a.ack_epoch_mstamp = Some(at(0));
    a.update_ack_aggregation(500, at(1000), false, 1000, 10_000);
    assert_eq!((a.ack_epoch_mstamp, a.ack_epoch_acked), (Some(at(1000)), 500));
    assert_eq!(a.extra_acked(), 500);
    // In the running epoch 100 bytes are expected of 100 ms.
    a.update_ack_aggregation(700, at(1100), false, 1000, 10_000);
    assert_eq!((a.ack_epoch_mstamp, a.ack_epoch_acked), (Some(at(1000)), 1200));
    assert_eq!(a.extra_acked(), 1100);
}

#[test]
fn aggregation_increment_is_bounded() {
    let mut a = AckAggregationState::new();
    a.update_ack_aggregation(5000, at(1), false, 1_000_000, 6_000);
    assert_eq!(a.ack_aggregation_cwnd(1_000_000, true), 5000);
    assert_eq!(a.ack_aggregation_cwnd(10_000, true), 1000);
    assert_eq!(a.ack_aggregation_cwnd(1_000_000, false), 0);
}

#[test]
fn excess_is_remembered_and_then_forgotten() {
    for age in 0..5 {
        let mut a = AckAggregationState::new();
        for _ in 0..age {
            a.update_ack_aggregation(1, at(0), true, 0, 0);
        }
        a.update_ack_aggregation(5000, at(0), false, 0, 6_000);
        assert!(a.extra_acked() >= 5000);
        // For five round trips at least it counts, after ten at most it does not.
        for round in 1..=10 {
            a.update_ack_aggregation(1, at(0), true, 0, 0);
            if round <= 5 {
                assert!(a.extra_acked() >= 5000, "age {age}, round {round}");
            }
        }
        assert_eq!(a.extra_acked(), 0, "age {age}");
    }
}
