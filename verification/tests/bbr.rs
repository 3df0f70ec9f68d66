use tcp_sender::bbr::{Bbr, Mode};
use tcp_sender::rtt::RttEstimator;
use tcp_sender::time::{Duration, Instant};

const MSS: usize = 1400;

/// The readings after samples of one and the same round-trip time.
fn rtt_of(rtt_ms: i64) -> RttEstimator {
    let rtt = Duration::from_millis(rtt_ms as u64);
    RttEstimator::new(Some(rtt), rtt)
}

#[test]
fn rto_collapses_window_to_min() {
    let mut bbr = Bbr::new();
    bbr.set_mss(MSS);
    bbr.set_remote_window(64 * 1024 * 1024);
    bbr.cwnd = 4 * 1024 * 1024;
    assert_eq!(bbr.window(), 4 * 1024 * 1024);

    bbr.on_rto(Instant::from_millis(1000), 4 * 1024 * 1024);
    assert_eq!(bbr.window(), 2 * MSS, "RTO must collapse cwnd to the minimum window");
}

/// Drive `rounds` RTTs of an ACK clock: each RTT the whole current window is ACKed in
/// MSS-sized ACKs that all carry the same timestamp.
fn ack_clock(bbr: &mut Bbr, start_ms: i64, rtt_ms: i64, rounds: i64) -> Vec<usize> {
    let mut windows = Vec::new();
    for r in 0..rounds {
        let now = Instant::from_millis(start_ms + rtt_ms * (r + 1));
        let rtt = rtt_of(rtt_ms);
        let n = (bbr.window() / MSS).max(1);
        for _ in 0..n {
            bbr.post_transmit(now, MSS);
        }
        for _ in 0..n {
            bbr.on_ack(now, MSS, 0, &rtt);
        }
        windows.push(bbr.window());
    }
    windows
}

#[test]
fn rto_window_regrows_on_acks_without_jumping_back() {
    let mut bbr = Bbr::new();
    bbr.set_mss(MSS);
    bbr.set_remote_window(64 * 1024 * 1024);
    bbr.cwnd = 4 * 1024 * 1024;
    bbr.on_rto(Instant::from_millis(1000), 4 * 1024 * 1024);

    let mut prev = bbr.window();
    for w in ack_clock(&mut bbr, 1000, 10, 40) {
        // ACK-clocked regrowth: at most doubling per RTT (every acked byte may be sent
        // twice), never a jump back to the window before the timeout.
        assert!(w <= prev * 2 + MSS, "window jumped ({prev} -> {w})");
        prev = w;
    }
    assert!(prev >= 256 * 1024, "window must re-grow after RTO, got {prev}");
}

#[test]
fn bandwidth_estimate_survives_batched_acks() {
    // 100 MSS ACKed per 10 ms RTT, all ACKs of an RTT sharing one timestamp:
    // delivery rate = 100 * 1400 B / 10 ms = 14 MB/s.
    let mut bbr = Bbr::new();
    bbr.set_mss(MSS);
    bbr.set_remote_window(64 * 1024 * 1024);
    for r in 0..20i64 {
        let now = Instant::from_millis(1000 + 10 * (r + 1));
        let rtt = rtt_of(10);
        for _ in 0..100 {
            bbr.post_transmit(now, MSS);
        }
        for _ in 0..100 {
            bbr.on_ack(now, MSS, 0, &rtt);
        }
    }
    let bw = bbr.max_bandwidth.get_estimate();
    let want = 100 * MSS as u64 * 100; // bytes per second
    assert!(bw >= want * 8 / 10 && bw <= want * 12 / 10, "bw estimate {bw}, want ~{want}");
}

/// Fixed-capacity, ACK-clocked pipe: the sender tops in-flight up to the window, the pipe
/// delivers at most `cap` bytes per RTT (the rest stays queued), and the ACKs of one RTT
/// share a timestamp and report the real remaining in-flight.
fn pipe(bbr: &mut Bbr, rtt_ms: i64, cap: usize, rounds: i64) {
    let mut in_flight = 0usize;
    for r in 0..rounds {
        let now = Instant::from_millis(1000 + rtt_ms * (r + 1));
        let rtt = rtt_of(rtt_ms);
        while in_flight + MSS <= bbr.window().max(MSS) {
            bbr.post_transmit(now, MSS);
            in_flight += MSS;
        }
        // Delayed ACKs: one ACK per two segments.
        let mut delivered = 0;
        while delivered + 2 * MSS <= cap && in_flight >= 2 * MSS {
            delivered += 2 * MSS;
            in_flight -= 2 * MSS;
            bbr.on_ack(now, 2 * MSS, in_flight, &rtt);
        }
    }
}

#[test]
fn probe_rtt_exits_and_window_tracks_bdp() {
    // 100 MSS per 10 ms RTT (14 MB/s); 30 s covers several 10 s ProbeRTT cycles.
    let cap = 100 * MSS;
    let mut bbr = Bbr::new();
    bbr.set_mss(MSS);
    bbr.set_remote_window(64 * 1024 * 1024);
    pipe(&mut bbr, 10, cap, 3000);
    assert_ne!(bbr.mode, Mode::ProbeRtt, "stuck in ProbeRTT");
    let bw = bbr.max_bandwidth.get_estimate();
    let want = cap as u64 * 100;
    assert!(bw >= want * 8 / 10, "BtlBw decayed: {bw}, want ~{want}");
    assert!(bbr.window() >= cap, "window below BDP: {} < {cap}", bbr.window());
}

#[test]
fn fast_retransmit_loss_keeps_window() {
    let mut bbr = Bbr::new();
    bbr.set_mss(MSS);
    bbr.set_remote_window(64 * 1024 * 1024);
    bbr.cwnd = 4 * 1024 * 1024;
    bbr.on_loss(Instant::from_millis(1000), 4 * 1024 * 1024);
    bbr.on_dup_ack(Instant::from_millis(1000), MSS, 4 * 1024 * 1024);
    assert_eq!(bbr.window(), 4 * 1024 * 1024, "BBR stays loss-tolerant on dup-ACK loss");
}
