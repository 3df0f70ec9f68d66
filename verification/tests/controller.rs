use tcp_sender::bbr::gain::{
    DRAIN_GAIN, GAIN_ONE, HIGH_GAIN, PROBE_BW_CWND_GAIN, PROBE_RTT_GAIN, STARTUP_GROWTH,
};
use tcp_sender::bbr::{Bbr, Mode, RecoveryState};
use tcp_sender::rtt::RttEstimator;
use tcp_sender::time::{Duration, Instant};

const SEGMENT: usize = 1400;

fn ms(ms: i64) -> Instant {
    Instant::from_millis(ms)
}

fn ten_ms() -> RttEstimator {
    let rtt = Duration::from_millis(10);
    RttEstimator::new(Some(rtt), rtt)
}

fn fresh() -> Bbr {
    let mut bbr = Bbr::new();
    bbr.set_mss(SEGMENT);
    bbr.set_remote_window(64 * 1024 * 1024);
    bbr
}

/// A controller whose flow the application limits, so that the round-trip time is not
/// probed for.
fn limited() -> Bbr {
    let mut bbr = fresh();
    bbr.app_limited = true;
    bbr
}

#[test]
fn time_is_counted_in_microseconds() {
    assert_eq!(ms(-3).micros, -3000);
    assert_eq!(ms(5).since(ms(2)), Duration::from_millis(3));
    assert_eq!(ms(2).since(ms(5)), Duration::from_millis(3));
    assert_eq!(ms(2).plus(Duration::from_millis(3)), ms(5));
    assert_eq!(Duration { micros: 2999 }.total_millis(), 2);
    assert_eq!(Duration::zero().max(Duration { micros: 1 }), Duration { micros: 1 });
}

#[test]
fn a_fresh_controller() {
    let bbr = Bbr::new();
    assert_eq!(bbr.window(), 10 * 1024);
    assert_eq!(bbr.min_cwnd, 2 * 1024);
    assert_eq!(bbr.rwnd, 64 * 1024);
    assert_eq!(bbr.mode, Mode::Startup);
    assert_eq!(bbr.pacing_rate(), 0);
    assert_eq!((bbr.pacing_gain, bbr.drain_gain), (HIGH_GAIN, DRAIN_GAIN));
    assert_eq!(bbr.get_target_cwnd(HIGH_GAIN), 10 * 1024);
}

#[test]
fn segment_size_sets_the_minimum() {
    let mut bbr = Bbr::new();
    bbr.set_mss(1000);
    assert_eq!((bbr.min_cwnd, bbr.cwnd), (2000, 10240));
    bbr.set_mss(9000);
    assert_eq!((bbr.min_cwnd, bbr.cwnd), (18_000, 18_000));
}

#[test]
fn remote_window_only_grows() {
    let mut bbr = Bbr::new();
    bbr.set_remote_window(1000);
    assert_eq!(bbr.rwnd, 65536);
    bbr.cwnd = 1 << 20;
    assert_eq!(bbr.window(), 65536);
    bbr.set_remote_window(70_000);
    assert_eq!(bbr.window(), 70_000);
}

#[test]
fn transmissions_are_recorded() {
    let mut bbr = fresh();
    bbr.pre_transmit(ms(1));
    bbr.post_transmit(ms(1), 1400);
    bbr.post_transmit(ms(2), 600);
    assert_eq!(bbr.max_sent_packet_number, 2);
    assert_eq!(bbr.max_bandwidth.total_sent, 2000);
    assert_eq!(bbr.max_bandwidth.sent_time, Some(ms(2)));
}

#[test]
fn first_ack_probes_for_the_round_trip_time() {
    let mut bbr = fresh();
    bbr.on_ack(ms(1000), SEGMENT, 0, &ten_ms());
    assert_eq!(bbr.mode, Mode::ProbeRtt);
    assert_eq!(bbr.probe_rtt_last_started_at, Some(ms(1000)));
    assert_eq!(bbr.exit_probe_rtt_at, Some(ms(1200)));
    assert_eq!((bbr.round_start, bbr.round_count), (true, 1));
    assert_eq!(bbr.acked_bytes, 1400);
    assert_eq!(bbr.min_rtt, Duration::from_millis(10));
    assert_eq!((bbr.cwnd, bbr.prior_cwnd, bbr.window()), (10240, 10240, 10240));
    assert_eq!(bbr.pacing_gain, GAIN_ONE);
}

#[test]
fn probing_ends_at_a_round_after_its_time() {
    let mut bbr = fresh();
    bbr.on_ack(ms(1000), SEGMENT, 0, &ten_ms());
    // A round starts, but too early.
    bbr.on_ack(ms(1100), SEGMENT, 0, &ten_ms());
    assert!(bbr.round_start);
    assert_eq!(bbr.mode, Mode::ProbeRtt);
    assert_eq!(bbr.max_bandwidth.get_estimate(), 28_000);
    bbr.on_ack(ms(1200), SEGMENT, 0, &ten_ms());
    assert_eq!(bbr.mode, Mode::Startup);
    assert_eq!(bbr.pacing_gain, HIGH_GAIN);
    // Little has been ACKed so far: the window goes on growing.
    assert_eq!(bbr.window(), 10240 + 1400);
}

#[test]
fn probing_waits_until_the_pipe_is_drained() {
    let mut bbr = fresh();
    bbr.on_ack(ms(1000), SEGMENT, 10240 + 1460, &ten_ms());
    assert_eq!((bbr.mode, bbr.exit_probe_rtt_at), (Mode::ProbeRtt, None));
    bbr.on_ack(ms(1000), SEGMENT, 10240 + 1459, &ten_ms());
    assert_eq!(bbr.exit_probe_rtt_at, Some(ms(1200)));
    // Past that time, but in the middle of a round.
    bbr.on_ack(ms(1300), SEGMENT, 5000, &ten_ms());
    assert!(!bbr.round_start);
    assert_eq!(bbr.mode, Mode::ProbeRtt);
}

#[test]
fn probing_recurs_after_ten_seconds() {
    let mut bbr = fresh();
    bbr.probe_rtt_last_started_at = Some(ms(1000));
    assert!(!bbr.is_min_rtt_expired(ms(11_000)));
    assert!(bbr.is_min_rtt_expired(Instant { micros: 11_000_001 }));
    assert!(!bbr.is_min_rtt_expired(ms(500)));
    bbr.app_limited = true;
    assert!(!bbr.is_min_rtt_expired(ms(20_000)));
}

#[test]
fn probing_only_lowers_the_window() {
    let mut bbr = fresh();
    bbr.mode = Mode::ProbeRtt;
    bbr.cwnd = 1 << 20;
    assert_eq!(bbr.get_probe_rtt_cwnd(), 10240);
    assert_eq!(bbr.window(), 10240);
    bbr.cwnd = 5000;
    assert_eq!(bbr.window(), 5000);
    bbr.on_rto(ms(0), 0);
    assert_eq!(bbr.window(), 2 * SEGMENT);
    bbr.rwnd = 100;
    assert_eq!(bbr.window(), 100);
}

#[test]
fn idle_flows_are_not_probed() {
    let mut bbr = fresh();
    bbr.on_send_ready(ms(1), 100);
    assert!(bbr.app_limited && !bbr.idle_restart);
    bbr.on_ack(ms(2), SEGMENT, 0, &ten_ms());
    assert_eq!(bbr.mode, Mode::Startup);
    assert_eq!(bbr.cwnd, 10240 + 1400);
    bbr.on_send_ready(ms(3), 0);
    assert!(bbr.app_limited && !bbr.idle_restart);
    // Sending starts again.
    bbr.on_send_ready(ms(4), 1_000_000);
    assert!(!bbr.app_limited && bbr.idle_restart);
    assert_eq!(bbr.ack_aggregation.ack_epoch_mstamp, Some(ms(4)));
    assert_eq!(bbr.ack_aggregation.ack_epoch_acked, 0);
    // An ACK without new data does not end the restart, one with new data does.
    bbr.on_ack(ms(5), 0, 0, &ten_ms());
    assert!(bbr.idle_restart);
    bbr.on_ack(ms(5), SEGMENT, 0, &ten_ms());
    assert!(!bbr.idle_restart);
    assert_eq!(bbr.mode, Mode::Startup);
    bbr.on_ack(ms(6), SEGMENT, 0, &ten_ms());
    assert_eq!(bbr.mode, Mode::ProbeRtt);
}

#[test]
fn recovery_conserves_then_grows_then_restores() {
    let mut bbr = limited();
    bbr.cwnd = 100_000;
    bbr.on_loss(ms(1), 21_400);
    bbr.on_ack(ms(1), SEGMENT, 20_000, &ten_ms());
    assert_eq!(bbr.recovery_state, RecoveryState::Conservation);
    assert!(bbr.packet_conservation && bbr.prev_in_recovery);
    assert_eq!((bbr.cwnd, bbr.prior_cwnd), (21_400, 100_000));
    assert_eq!(bbr.recovery_window, 21_400);
    assert_eq!(bbr.end_recovery_at_packet_number, 21_400);
    assert_eq!(bbr.current_round_trip_end_packet_number, 21_400);
    assert_eq!(bbr.loss_state.lost_bytes, 0);
    // The round goes on.
    bbr.on_ack(ms(1), SEGMENT, 18_600, &ten_ms());
    assert_eq!(bbr.recovery_state, RecoveryState::Conservation);
    assert_eq!((bbr.cwnd, bbr.recovery_window), (21_400, 21_400));
    // All that was in flight at the loss is ACKed, but nothing beyond it.
    bbr.on_ack(ms(1), 18_600, 0, &ten_ms());
    assert!(bbr.round_start && !bbr.packet_conservation);
    assert_eq!(bbr.recovery_state, RecoveryState::Growth);
    assert_eq!((bbr.cwnd, bbr.recovery_window), (21_400, 40_000));
    bbr.on_ack(ms(1), SEGMENT, 0, &ten_ms());
    assert_eq!(bbr.recovery_state, RecoveryState::NotInRecovery);
    assert!(!bbr.prev_in_recovery);
    assert_eq!(bbr.cwnd, 100_000);
}

#[test]
fn losses_prolong_recovery() {
    let mut bbr = limited();
    bbr.on_loss(ms(1), 0);
    bbr.on_ack(ms(1), 1000, 9000, &ten_ms());
    assert_eq!(bbr.end_recovery_at_packet_number, 10_000);
    bbr.on_dup_ack(ms(1), 0, 0);
    bbr.on_ack(ms(1), 10_000, 7000, &ten_ms());
    assert_eq!(bbr.end_recovery_at_packet_number, 18_000);
    assert!(bbr.recovery_state.in_recovery());
    bbr.on_ack(ms(1), 7000, 0, &ten_ms());
    assert!(bbr.recovery_state.in_recovery());
    bbr.on_ack(ms(1), 1, 0, &ten_ms());
    assert!(!bbr.recovery_state.in_recovery());
}

#[test]
fn after_a_timeout_acks_regrow_the_window() {
    let mut bbr = limited();
    bbr.cwnd = 4 << 20;
    bbr.on_rto(ms(1), 4 << 20);
    assert_eq!((bbr.cwnd, bbr.prior_cwnd), (2800, 2800));
    let mut acked = 0;
    for _ in 0..100 {
        bbr.on_ack(ms(2), SEGMENT, 0, &ten_ms());
        acked += SEGMENT;
        assert!(bbr.window() <= 2800 + acked);
        assert!(bbr.window() >= 2800);
    }
}

#[test]
fn a_round_at_most_doubles_the_window_after_a_timeout() {
    // The timeout strikes during recovery, with a much larger window remembered.
    let mut bbr = limited();
    bbr.cwnd = 4 << 20;
    bbr.on_loss(ms(1), 0);
    bbr.on_ack(ms(1), SEGMENT, 1 << 20, &ten_ms());
    assert_eq!(bbr.prior_cwnd, 4 << 20);
    bbr.on_rto(ms(2), 1 << 20);
    for round in 1..=30 {
        let before = bbr.window();
        for _ in 0..before / SEGMENT {
            bbr.on_ack(ms(2 + 10 * round), SEGMENT, 0, &ten_ms());
        }
        assert!(bbr.window() <= 2 * before + SEGMENT, "round {round}");
    }
}

#[test]
fn rounds_double_the_window_up_to_the_target() {
    let mut bbr = limited();
    bbr.init_cwnd = 1 << 20;
    bbr.cwnd = 2800;
    // No bandwidth is known while all ACKs share one timestamp: the target is the initial
    // window.
    for round in 1..=6 {
        for _ in 0..bbr.cwnd / SEGMENT {
            bbr.on_ack(ms(1), SEGMENT, 0, &ten_ms());
        }
        assert_eq!(bbr.cwnd, 2800 << round);
    }
}

#[test]
fn the_ack_clock_regrows_the_window() {
    let mut bbr = fresh();
    bbr.probe_rtt_last_started_at = Some(ms(0));
    bbr.cwnd = 3 * SEGMENT;
    for _ in 0..2 {
        bbr.on_ack(ms(10), SEGMENT, 0, &ten_ms());
    }
    // Four segments at least, and the interval has seen two of three.
    assert!(bbr.cwnd >= 4 * SEGMENT);
    for round in 1..=12 {
        for _ in 0..bbr.cwnd / SEGMENT {
            bbr.on_ack(ms(10 + 10 * round), SEGMENT, 0, &ten_ms());
        }
        assert_ne!(bbr.mode, Mode::ProbeRtt);
        let segments = 2 + (2 << ((round + 1) / 2));
        assert!(bbr.cwnd >= segments * SEGMENT - 3, "round {round}: {}", bbr.cwnd);
    }
}

#[test]
fn full_bandwidth_takes_three_flat_rounds_whatever_is_lost() {
    let mut bbr = fresh();
    bbr.probe_rtt_last_started_at = Some(ms(0));
    let mut lossless = bbr;
    for r in 1..=5 {
        bbr.on_loss(ms(10 * r), 0);
        bbr.on_ack(ms(10 * r), 14_000, 0, &ten_ms());
        lossless.on_ack(ms(10 * r), 14_000, 0, &ten_ms());
        assert_eq!(bbr.is_at_full_bandwidth, r == 5, "round {r}");
        assert_eq!(lossless.is_at_full_bandwidth, r == 5, "round {r}");
        if r < 5 {
            assert_eq!(bbr.mode, Mode::Startup);
        }
    }
    assert_eq!(bbr.max_bandwidth.get_estimate(), 2_800_000);
    // Nothing is in flight: the queue is drained at once.
    assert_eq!(bbr.mode, Mode::ProbeBw);
    assert_eq!(bbr.cwnd_gain, PROBE_BW_CWND_GAIN);
    assert_eq!((bbr.current_cycle_offset, bbr.pacing_gain), (0, STARTUP_GROWTH));
    assert_eq!(bbr.rng_state, 3_554_416_254);
}

#[test]
fn drain_lasts_while_the_queue_does() {
    let mut bbr = fresh();
    bbr.is_at_full_bandwidth = true;
    bbr.maybe_exit_startup_or_drain(ms(1), 10_241);
    assert_eq!((bbr.mode, bbr.pacing_gain), (Mode::Drain, DRAIN_GAIN));
    bbr.maybe_exit_startup_or_drain(ms(2), 10_240);
    assert_eq!(bbr.mode, Mode::ProbeBw);
    assert_eq!(bbr.last_cycle_start, Some(ms(2)));
}

#[test]
fn full_bandwidth_caps_the_window_at_the_target() {
    let mut bbr = limited();
    bbr.is_at_full_bandwidth = true;
    bbr.cwnd = 1 << 20;
    bbr.on_ack(ms(1), SEGMENT, 50_000, &ten_ms());
    // No bandwidth is known yet, so that the target is the initial window; nor is there an
    // allowance for aggregation without bandwidth.
    assert_eq!(bbr.cwnd, 10240);
    bbr.on_ack(ms(11), SEGMENT, 50_000, &ten_ms());
    // 2800 bytes in 10 ms, gain 2.885: less than the minimum; the aggregation of 1400 bytes
    // comes on top.
    assert_eq!(bbr.max_bandwidth.get_estimate(), 280_000);
    assert_eq!(bbr.get_target_cwnd(bbr.cwnd_gain), 8077);
    assert_eq!(bbr.cwnd, 8077 + bbr.ack_aggregation.ack_aggregation_cwnd(280_000, true));
}

#[test]
fn window_grows_by_what_is_acked_up_to_the_target() {
    let mut bbr = limited();
    bbr.is_at_full_bandwidth = true;
    bbr.cwnd = 3000;
    bbr.on_ack(ms(1), SEGMENT, 0, &ten_ms());
    assert_eq!(bbr.cwnd, 4400);
    bbr.on_ack(ms(1), 5000, 0, &ten_ms());
    assert_eq!(bbr.cwnd, 9400);
    bbr.on_ack(ms(1), 5000, 0, &ten_ms());
    assert_eq!(bbr.cwnd, 10_240);
}

#[test]
fn no_bytes_acked_only_enforces_the_minimum() {
    let mut bbr = limited();
    bbr.cwnd = 1;
    bbr.on_ack(ms(1), 0, 0, &ten_ms());
    assert_eq!(bbr.cwnd, 2800);
    assert_eq!((bbr.round_start, bbr.round_count), (false, 0));
}

#[test]
fn rounds_end_when_all_in_flight_is_acked() {
    let mut bbr = limited();
    bbr.on_ack(ms(1), 1000, 5000, &ten_ms());
    assert!(bbr.round_start);
    assert_eq!(bbr.current_round_trip_end_packet_number, 6000);
    bbr.on_ack(ms(2), 4999, 3000, &ten_ms());
    assert!(!bbr.round_start);
    bbr.on_ack(ms(3), 1, 3000, &ten_ms());
    assert!(bbr.round_start);
    assert_eq!(bbr.round_count, 2);
    assert_eq!(bbr.current_round_trip_end_packet_number, 9000);
}

#[test]
fn least_round_trip_time_only_falls() {
    let mut bbr = limited();
    for (sample, least) in [(20, 20), (30, 20), (10, 10), (15, 10)] {
        let rtt = Duration::from_millis(sample);
        bbr.on_ack(ms(1), 100, 0, &RttEstimator::new(Some(rtt), rtt));
        assert_eq!(bbr.min_rtt, Duration::from_millis(least));
    }
}

#[test]
fn gain_cycle_follows_the_pipe() {
    let mut bbr = fresh();
    bbr.mode = Mode::ProbeBw;
    bbr.min_rtt = Duration::from_millis(10);
    bbr.last_cycle_start = Some(ms(0));
    bbr.pacing_gain = STARTUP_GROWTH;
    // The raised gain has not filled the pipe yet.
    bbr.update_gain_cycle_phase(ms(100), 0);
    assert_eq!(bbr.current_cycle_offset, 0);
    // It has, but a round-trip time has not passed.
    bbr.prev_in_flight_count = 10_240;
    bbr.update_gain_cycle_phase(ms(10), 0);
    assert_eq!(bbr.current_cycle_offset, 0);
    bbr.update_gain_cycle_phase(ms(11), 20_000);
    assert_eq!((bbr.current_cycle_offset, bbr.pacing_gain), (1, PROBE_RTT_GAIN));
    assert_eq!(bbr.last_cycle_start, Some(ms(11)));
    // The lowered gain is kept beyond its phase until the queue is drained.
    bbr.update_gain_cycle_phase(ms(30), 20_000);
    assert_eq!((bbr.current_cycle_offset, bbr.pacing_gain), (2, PROBE_RTT_GAIN));
    bbr.update_gain_cycle_phase(ms(31), 10_240);
    assert_eq!((bbr.current_cycle_offset, bbr.pacing_gain), (3, GAIN_ONE));
    // The phases go round.
    bbr.current_cycle_offset = 7;
    bbr.update_gain_cycle_phase(ms(50), 0);
    assert_eq!((bbr.current_cycle_offset, bbr.pacing_gain), (0, STARTUP_GROWTH));
}

#[test]
fn losses_end_a_raised_gain() {
    let mut bbr = fresh();
    bbr.min_rtt = Duration::from_millis(10);
    bbr.last_cycle_start = Some(ms(0));
    bbr.pacing_gain = STARTUP_GROWTH;
    bbr.on_loss(ms(1), 0);
    bbr.update_gain_cycle_phase(ms(11), 20_000);
    assert_eq!(bbr.current_cycle_offset, 1);
}

#[test]
fn phases_are_picked_without_phase_one() {
    let mut bbr = fresh();
    let mut seen = [false; 8];
    for i in 0..1000 {
        bbr.enter_probe_bandwidth_mode(ms(i));
        seen[bbr.current_cycle_offset as usize] = true;
    }
    assert_eq!(seen, [true, false, true, true, true, true, true, true]);
}

#[test]
fn window_is_remembered_only_outside_recovery_and_probing() {
    let mut bbr = fresh();
    bbr.cwnd = 50_000;
    bbr.mode = Mode::ProbeRtt;
    bbr.save_cwnd();
    assert_eq!(bbr.prior_cwnd, 10240);
    bbr.mode = Mode::ProbeBw;
    bbr.recovery_state = RecoveryState::Growth;
    bbr.save_cwnd();
    assert_eq!(bbr.prior_cwnd, 10240);
    bbr.recovery_state = RecoveryState::NotInRecovery;
    bbr.save_cwnd();
    assert_eq!(bbr.prior_cwnd, 50_000);
    bbr.cwnd = 100;
    bbr.restore_cwnd();
    assert_eq!(bbr.cwnd, 50_000);
}

#[test]
fn lost_bytes_leave_at_least_a_segment() {
    let mut bbr = fresh();
    bbr.cwnd = 5000;
    assert_eq!(bbr.set_cwnd_to_recover_or_restore(100, 1000, 0), Some(4000));
    assert_eq!(bbr.set_cwnd_to_recover_or_restore(100, 4000, 0), Some(1460));
    bbr.recovery_state = RecoveryState::Conservation;
    assert_eq!(bbr.set_cwnd_to_recover_or_restore(100, 4000, 700), Some(800));
    assert_eq!(bbr.set_cwnd_to_recover_or_restore(100, 4000, 700), Some(1460));
    bbr.recovery_state = RecoveryState::NotInRecovery;
    assert_eq!(bbr.set_cwnd_to_recover_or_restore(100, 4000, 700), Some(10240));
}

#[test]
fn recovery_window_counts_losses_and_growth() {
    let mut bbr = fresh();
    bbr.calculate_recovery_window(100, 0, 5000);
    assert_eq!(bbr.recovery_window, 0);
    bbr.recovery_state = RecoveryState::Conservation;
    bbr.calculate_recovery_window(100, 0, 5000);
    assert_eq!(bbr.recovery_window, 5100);
    bbr.recovery_window = 9000;
    bbr.calculate_recovery_window(100, 1000, 5000);
    assert_eq!(bbr.recovery_window, 8000);
    bbr.calculate_recovery_window(100, 8001, 0);
    assert_eq!(bbr.recovery_window, 2800);
    bbr.recovery_state = RecoveryState::Growth;
    bbr.recovery_window = 9000;
    bbr.calculate_recovery_window(100, 1000, 5000);
    assert_eq!(bbr.recovery_window, 8100);
}
