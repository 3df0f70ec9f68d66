//! The controller as a mathematical object: what it reads off its state, and the state that
//! each of its steps leads to.

use super::ack_aggregation::{AckAggregationState, BBR_EXTRA_ACKED_MAX_US};
use super::bw_estimation::{BandwidthEstimation, FILTER_ROUNDS, MIN_SAMPLE_INTERVAL_MICROS};
use super::gain::{
    cycle_gain, growth_target_of, scaled, DRAIN_GAIN, GAIN_CYCLE_LEN, GAIN_ONE, HIGH_GAIN,
    PROBE_BW_CWND_GAIN, PROBE_RTT_GAIN,
};
use super::min_max::MinMax;
use super::{
    Bbr, LossState, Mode, RecoveryState, INITIAL_MIN_WINDOW, INITIAL_REMOTE_WINDOW, INITIAL_WINDOW,
    MAX_SEGMENT_SIZE, MIN_RTT_EXPIRY_MICROS, MIN_RTT_FLOOR_MICROS, PROBE_RTT_MICROS, RNG_INCREMENT,
    RNG_MULTIPLIER, RNG_SEED, STARTUP_ROUNDS_WITHOUT_GROWTH,
};
use crate::rtt::RttEstimator;
use crate::time::{Duration, Instant};
use vstd::prelude::*;

verus! {

/// The larger of two byte counts.
pub open spec fn larger(a: usize, b: usize) -> usize {
    if a > b {
        a
    } else {
        b
    }
}

/// The smaller of two byte counts.
pub open spec fn smaller(a: usize, b: usize) -> usize {
    if a < b {
        a
    } else {
        b
    }
}

/// The microseconds from `start` to `now`; negative where `now` is the earlier.
pub open spec fn micros_since(now: Instant, start: Instant) -> int {
    now.micros - start.micros
}

impl Bbr {
    /// What every step keeps: the parts are well-formed; all counts of ACKed bytes agree;
    /// rounds are counted no faster than bytes, and samples are of rounds already begun; the
    /// gain cycle has the phase that it is in; and STARTUP ends as soon as the rounds without
    /// growth are used up.
    pub open spec fn wf(self) -> bool {
        &&& self.max_bandwidth.wf()
        &&& self.ack_aggregation.wf()
        &&& self.max_bandwidth.total_acked == self.acked_bytes
        &&& self.max_bandwidth.acked_at_last_window == self.acked_bytes
        &&& self.max_acked_packet_number == self.acked_bytes
        &&& self.max_bandwidth.max_filter.third.time <= self.round_count <= self.acked_bytes
        &&& self.current_cycle_offset < GAIN_CYCLE_LEN
        &&& !self.is_at_full_bandwidth ==> self.round_wo_bw_gain < STARTUP_ROUNDS_WITHOUT_GROWTH
    }

    /// A controller that has seen nothing yet.
    pub open spec fn initial() -> Self {
        Bbr {
            max_bandwidth: BandwidthEstimation {
                total_acked: 0,
                prev_total_acked: 0,
                acked_time: None,
                prev_acked_time: None,
                total_sent: 0,
                prev_total_sent: 0,
                sent_time: None,
                prev_sent_time: None,
                max_filter: MinMax::empty(FILTER_ROUNDS),
                acked_at_last_window: 0,
                interval_start: None,
                sample_interval: Duration { micros: MIN_SAMPLE_INTERVAL_MICROS },
            },
            acked_bytes: 0,
            mode: Mode::Startup,
            loss_state: LossState { lost_bytes: 0 },
            recovery_state: RecoveryState::NotInRecovery,
            recovery_window: 0,
            is_at_full_bandwidth: false,
            pacing_gain: HIGH_GAIN,
            high_gain: HIGH_GAIN,
            drain_gain: DRAIN_GAIN,
            cwnd_gain: HIGH_GAIN,
            high_cwnd_gain: HIGH_GAIN,
            last_cycle_start: None,
            current_cycle_offset: 0,
            init_cwnd: INITIAL_WINDOW,
            min_cwnd: INITIAL_MIN_WINDOW,
            prev_in_flight_count: 0,
            bytes_in_flight: 0,
            exit_probe_rtt_at: None,
            probe_rtt_last_started_at: None,
            min_rtt: Duration { micros: 0 },
            idle_restart: false,
            max_acked_packet_number: 0,
            max_sent_packet_number: 0,
            end_recovery_at_packet_number: 0,
            cwnd: INITIAL_WINDOW,
            current_round_trip_end_packet_number: 0,
            round_count: 0,
            bw_at_last_round: 0,
            round_wo_bw_gain: 0,
            ack_aggregation: AckAggregationState::empty(),
            rwnd: INITIAL_REMOTE_WINDOW,
            rng_state: RNG_SEED,
            app_limited: false,
            prior_cwnd: INITIAL_WINDOW,
            packet_conservation: false,
            prev_in_recovery: false,
            round_start: false,
        }
    }

    // ---- What is read off the state ----

    /// The estimated bottleneck bandwidth, in bytes per second.
    pub open spec fn estimate(self) -> u64 {
        self.max_bandwidth.estimate()
    }

    /// The bandwidth-delay product in microseconds times bytes per second, the least
    /// round-trip time taken as at least a millisecond.
    pub open spec fn bdp(self) -> int {
        (if self.min_rtt.micros > MIN_RTT_FLOOR_MICROS {
            self.min_rtt.micros
        } else {
            MIN_RTT_FLOOR_MICROS
        }) * self.estimate()
    }

    /// The bandwidth-delay product can be held in 64 bits.
    pub open spec fn bdp_fits(self) -> bool {
        self.bdp() <= u64::MAX
    }

    /// `gain` times the bandwidth-delay product in bytes, but no less than the minimum
    /// window; the initial window while the product is zero.
    pub open spec fn target_cwnd(self, gain: u32) -> usize {
        let bytes = scaled(gain, self.bdp() as u64);
        let cwnd = if bytes > usize::MAX {
            usize::MAX
        } else {
            bytes as usize
        };
        if cwnd == 0 {
            self.init_cwnd
        } else {
            larger(cwnd, self.min_cwnd)
        }
    }

    /// The window while probing for the round-trip time.
    pub open spec fn probe_rtt_cwnd(self) -> usize {
        self.target_cwnd(PROBE_RTT_GAIN)
    }

    /// The congestion window as the socket sees it: probing for the round-trip time only
    /// ever lowers it, and the peer's window bounds it.
    pub open spec fn effective_window(self) -> usize {
        let cwnd = if self.mode == Mode::ProbeRtt {
            smaller(self.probe_rtt_cwnd(), self.cwnd)
        } else {
            self.cwnd
        };
        smaller(cwnd, self.rwnd)
    }

    /// The window can be computed.
    pub open spec fn window_fits(self) -> bool {
        self.mode == Mode::ProbeRtt ==> self.bdp_fits()
    }

    /// ACKed-bytes mark at which everything currently in flight has been ACKed.
    pub open spec fn round_end(self) -> u64 {
        self.max_acked_packet_number.saturating_add(self.bytes_in_flight as u64)
    }

    /// Losses have been reported since the last ACK.
    pub open spec fn lossy(self) -> bool {
        self.loss_state.lost_bytes != 0
    }

    /// Losses are being recovered from.
    pub open spec fn recovering(self) -> bool {
        self.recovery_state != RecoveryState::NotInRecovery
    }

    // ---- Modes ----

    /// The next state of the pseudo-random number generator.
    pub open spec fn next_random(self) -> u32 {
        ((self.rng_state * RNG_MULTIPLIER + RNG_INCREMENT) % 0x1_0000_0000) as u32
    }

    /// The phase that the next random number picks out of 0 and 2 to 7. Phase 1 is left out:
    /// with it, increased gain and decreased gain would not follow each other.
    pub open spec fn random_phase(self) -> u8 {
        let pick = (self.next_random() / 65536) % 7;
        if pick >= 1 {
            (pick + 1) as u8
        } else {
            0
        }
    }

    /// In STARTUP, with its gains.
    pub open spec fn in_startup(self) -> Self {
        Bbr {
            mode: Mode::Startup,
            pacing_gain: self.high_gain,
            cwnd_gain: self.high_cwnd_gain,
            ..self
        }
    }

    /// Probing for bandwidth, from a random phase on.
    pub open spec fn in_probe_bw(self, now: Instant) -> Self {
        Bbr {
            mode: Mode::ProbeBw,
            cwnd_gain: PROBE_BW_CWND_GAIN,
            last_cycle_start: Some(now),
            rng_state: self.next_random(),
            current_cycle_offset: self.random_phase(),
            pacing_gain: cycle_gain(self.random_phase() as int),
            ..self
        }
    }

    /// The window is remembered, unless it is not an ordinary one.
    pub open spec fn with_saved_cwnd(self) -> Self {
        Bbr {
            prior_cwnd: if !self.recovering() && self.mode != Mode::ProbeRtt {
                self.cwnd
            } else {
                self.prior_cwnd
            },
            ..self
        }
    }

    /// The window is no smaller than the remembered one.
    pub open spec fn with_restored_cwnd(self) -> Self {
        Bbr { cwnd: larger(self.cwnd, self.prior_cwnd), ..self }
    }

    // ---- Recovery ----

    /// The window left after `lost` bytes: at least a segment.
    pub open spec fn cwnd_after_loss(self, lost: usize) -> usize {
        if lost > 0 {
            larger(self.cwnd.saturating_sub(lost), MAX_SEGMENT_SIZE)
        } else {
            self.cwnd
        }
    }

    /// Recovery has begun since the window was last computed.
    pub open spec fn enters_recovery(self) -> bool {
        self.recovering() && !self.prev_in_recovery
    }

    /// Recovery has ended since the window was last computed.
    pub open spec fn leaves_recovery(self) -> bool {
        !self.recovering() && self.prev_in_recovery
    }

    /// Packet conservation starts with recovery and ends with it; a new round starts with
    /// it too.
    pub open spec fn with_conservation(self) -> Self {
        Bbr {
            packet_conservation: if self.enters_recovery() {
                true
            } else if self.leaves_recovery() {
                false
            } else {
                self.packet_conservation
            },
            current_round_trip_end_packet_number: if self.enters_recovery() {
                self.round_end()
            } else {
                self.current_round_trip_end_packet_number
            },
            prev_in_recovery: self.recovering(),
            ..self
        }
    }

    /// The window to go on from: what is in flight and was just ACKed when recovery begins
    /// and, at least, as long as packets are conserved; no less than the remembered window
    /// when recovery ends; otherwise what losses leave of it.
    pub open spec fn recovery_cwnd(self, acked: usize, lost: usize, in_flight: usize) -> usize {
        let conserved = in_flight.saturating_add(acked);
        let cwnd = if self.enters_recovery() {
            conserved
        } else if self.leaves_recovery() {
            larger(self.cwnd_after_loss(lost), self.prior_cwnd)
        } else {
            self.cwnd_after_loss(lost)
        };
        if self.with_conservation().packet_conservation {
            larger(conserved, cwnd)
        } else {
            cwnd
        }
    }

    /// Recovery lasts until a whole round, from the last loss on, has been ACKed without
    /// another. It begins with conservation, which lasts to the start of a round.
    pub open spec fn with_recovery(self, round_start: bool) -> Self {
        let end = if self.lossy() {
            self.round_end()
        } else {
            self.end_recovery_at_packet_number
        };
        let marked = Bbr { end_recovery_at_packet_number: end, ..self };
        if !self.recovering() {
            if self.lossy() {
                Bbr {
                    recovery_state: RecoveryState::Conservation,
                    recovery_window: 0,
                    current_round_trip_end_packet_number: self.round_end(),
                    ..marked.with_saved_cwnd()
                }
            } else {
                marked
            }
        } else if !self.lossy() && self.max_acked_packet_number > end {
            Bbr { recovery_state: RecoveryState::NotInRecovery, ..marked.with_restored_cwnd() }
        } else if round_start {
            Bbr { recovery_state: RecoveryState::Growth, ..marked }
        } else {
            marked
        }
    }

    // ---- Probing for bandwidth ----

    /// The gain cycle moves on: the extra queue has been drained early, or a round-trip time
    /// has passed and a raised gain has either filled the pipe or met losses.
    pub open spec fn cycle_advances(self, now: Instant, in_flight: usize) -> bool {
        let over = self.last_cycle_start matches Some(start) && micros_since(now, start)
            > self.min_rtt.micros && micros_since(now, start) > 0;
        let unfilled = self.pacing_gain > GAIN_ONE && !self.lossy() && self.prev_in_flight_count
            < self.target_cwnd(self.pacing_gain);
        let drained = self.pacing_gain < GAIN_ONE && in_flight <= self.target_cwnd(GAIN_ONE);
        drained || (over && !unfilled)
    }

    /// The next phase of the gain cycle. Its gain is used at once, except that a lowered gain
    /// is not given up for the neutral one before the target is hit.
    pub open spec fn with_gain_cycle(self, now: Instant, in_flight: usize) -> Self {
        if self.cycle_advances(now, in_flight) {
            let phase = ((self.current_cycle_offset + 1) % (GAIN_CYCLE_LEN as int)) as u8;
            let stays_low = self.pacing_gain < GAIN_ONE && cycle_gain(phase as int) == GAIN_ONE
                && in_flight > self.target_cwnd(GAIN_ONE);
            Bbr {
                current_cycle_offset: phase,
                last_cycle_start: Some(now),
                pacing_gain: if stays_low {
                    self.pacing_gain
                } else {
                    cycle_gain(phase as int)
                },
                ..self
            }
        } else {
            self
        }
    }

    /// Nothing overflows in the decision on the gain cycle.
    pub open spec fn gain_cycle_fits(self, now: Instant) -> bool {
        &&& self.last_cycle_start matches Some(start) ==> micros_since(now, start) <= i64::MAX
        &&& self.pacing_gain < GAIN_ONE || (self.pacing_gain > GAIN_ONE && !self.lossy())
            ==> self.bdp_fits()
    }

    // ---- Leaving STARTUP ----

    /// At the end of a round: the bandwidth has grown as STARTUP expects, and the count of
    /// rounds without growth starts anew, as does the tracking of aggregation; or it has
    /// not, and after enough such rounds the full bandwidth is reached. Losses play no part.
    pub open spec fn with_growth_check(self) -> Self {
        if self.app_limited {
            self
        } else if self.estimate() >= growth_target_of(self.bw_at_last_round) {
            Bbr {
                bw_at_last_round: self.estimate(),
                round_wo_bw_gain: 0,
                ack_aggregation: AckAggregationState {
                    extra_acked: (0, 0),
                    extra_acked_win_rtts: 0,
                    ..self.ack_aggregation
                },
                ..self
            }
        } else {
            Bbr {
                round_wo_bw_gain: (self.round_wo_bw_gain + 1) as u64,
                is_at_full_bandwidth: self.is_at_full_bandwidth || self.round_wo_bw_gain + 1
                    >= STARTUP_ROUNDS_WITHOUT_GROWTH,
                ..self
            }
        }
    }

    /// The count of rounds without growth does not overflow.
    pub open spec fn growth_check_fits(self) -> bool {
        !self.app_limited && self.estimate() < growth_target_of(self.bw_at_last_round)
            ==> self.round_wo_bw_gain < u64::MAX
    }

    /// STARTUP gives way to DRAIN at full bandwidth, and DRAIN to probing for bandwidth when
    /// no more is in flight than the target.
    pub open spec fn with_startup_or_drain_left(self, now: Instant, in_flight: usize) -> Self {
        let s = if self.leaves_startup() {
            Bbr {
                mode: Mode::Drain,
                pacing_gain: self.drain_gain,
                cwnd_gain: self.high_cwnd_gain,
                ..self
            }
        } else {
            self
        };
        if s.mode == Mode::Drain && in_flight <= s.target_cwnd(GAIN_ONE) {
            s.in_probe_bw(now)
        } else {
            s
        }
    }

    /// STARTUP is over.
    pub open spec fn leaves_startup(self) -> bool {
        self.mode == Mode::Startup && self.is_at_full_bandwidth
    }

    /// The target that DRAIN is held to can be computed.
    pub open spec fn leaving_fits(self) -> bool {
        self.leaves_startup() || self.mode == Mode::Drain ==> self.bdp_fits()
    }

    // ---- Probing for the round-trip time ----

    /// The round-trip time was last probed for more than ten seconds ago, or never, and the
    /// application is not what limits the flow.
    pub open spec fn min_rtt_expired(self, now: Instant) -> bool {
        !self.app_limited && match self.probe_rtt_last_started_at {
            Some(last) => micros_since(now, last) > MIN_RTT_EXPIRY_MICROS,
            None => true,
        }
    }

    /// The time since the round-trip time was last probed for can be computed.
    pub open spec fn expiry_fits(self, now: Instant) -> bool {
        !self.app_limited ==> match self.probe_rtt_last_started_at {
            Some(last) => micros_since(now, last) <= i64::MAX,
            None => true,
        }
    }

    /// Probing for the round-trip time begins when it is due, and with the window remembered.
    pub open spec fn with_probe_rtt_entered(self, now: Instant) -> Self {
        if self.min_rtt_expired(now) && !self.idle_restart && self.mode != Mode::ProbeRtt {
            Bbr {
                mode: Mode::ProbeRtt,
                pacing_gain: GAIN_ONE,
                exit_probe_rtt_at: None,
                probe_rtt_last_started_at: Some(now),
                ..self.with_saved_cwnd()
            }
        } else {
            self
        }
    }

    /// The time to leave is fixed once little enough is in flight; at the start of a round
    /// after it, the remembered window is restored and probing ends.
    pub open spec fn with_probe_rtt(
        self,
        now: Instant,
        round_start: bool,
        in_flight: usize,
    ) -> Self {
        let s = self.with_probe_rtt_entered(now);
        if s.mode != Mode::ProbeRtt {
            s
        } else {
            match s.exit_probe_rtt_at {
                None => {
                    if in_flight < s.probe_rtt_cwnd() + MAX_SEGMENT_SIZE {
                        Bbr {
                            exit_probe_rtt_at: Some(
                                Instant { micros: (now.micros + PROBE_RTT_MICROS) as i64 },
                            ),
                            ..s
                        }
                    } else {
                        s
                    }
                },
                Some(exit) => {
                    if round_start && now.micros >= exit.micros {
                        if self.is_at_full_bandwidth {
                            s.with_restored_cwnd().in_probe_bw(now)
                        } else {
                            s.with_restored_cwnd().in_startup()
                        }
                    } else {
                        s
                    }
                },
            }
        }
    }

    /// Nothing overflows in the decision on probing for the round-trip time.
    pub open spec fn probe_rtt_fits(self, now: Instant, in_flight: usize) -> bool {
        let s = self.with_probe_rtt_entered(now);
        &&& self.expiry_fits(now)
        &&& s.mode == Mode::ProbeRtt && s.exit_probe_rtt_at is None ==> {
            &&& s.bdp_fits()
            &&& s.probe_rtt_cwnd() + MAX_SEGMENT_SIZE <= usize::MAX
            &&& in_flight < s.probe_rtt_cwnd() + MAX_SEGMENT_SIZE ==> now.micros + PROBE_RTT_MICROS
                <= i64::MAX
        }
    }

    // ---- The congestion window ----

    /// The window never ends up below the minimum.
    pub open spec fn with_cwnd(self, cwnd: usize) -> Self {
        Bbr { cwnd: larger(cwnd, self.min_cwnd), ..self }
    }

    /// The target, with the allowance for ACK aggregation.
    pub open spec fn aggregated_target(self) -> usize {
        self.target_cwnd(self.cwnd_gain).saturating_add(
            self.ack_aggregation.increment(self.estimate(), self.is_at_full_bandwidth),
        )
    }

    /// The window after `acked` bytes were ACKed: it grows by what was ACKed, up to the
    /// target once the full bandwidth is reached; before, it does not shrink, and grows
    /// while it is below the target or little has been ACKed at all. Packet conservation
    /// overrides this, and probing for the round-trip time suspends it.
    pub open spec fn with_cwnd_calculated(self, acked: usize) -> Self {
        if self.mode == Mode::ProbeRtt {
            self
        } else if acked == 0 {
            self.with_cwnd(self.cwnd)
        } else {
            let s = self.with_conservation();
            let cwnd = self.recovery_cwnd(acked, self.loss_state.lost_bytes, self.bytes_in_flight);
            let grown = cwnd.saturating_add(acked);
            if s.packet_conservation {
                s.with_cwnd(cwnd)
            } else if s.is_at_full_bandwidth {
                s.with_cwnd(smaller(s.aggregated_target(), grown))
            } else if cwnd < s.aggregated_target() || s.acked_bytes < s.init_cwnd {
                s.with_cwnd(grown)
            } else {
                s.with_cwnd(cwnd)
            }
        }
    }

    /// Nothing overflows while the window is computed.
    pub open spec fn cwnd_fits(self, acked: usize) -> bool {
        self.mode != Mode::ProbeRtt && acked != 0 && !self.with_conservation().packet_conservation
            ==> {
            &&& self.bdp_fits()
            &&& self.is_at_full_bandwidth ==> self.estimate() * BBR_EXTRA_ACKED_MAX_US <= u64::MAX
        }
    }

    /// The recovery window: it starts from what is in flight and was just ACKed, loses what
    /// is lost, in growth gains what is ACKed, and never falls below the start or the minimum.
    pub open spec fn with_recovery_window(
        self,
        acked: usize,
        lost: usize,
        in_flight: usize,
    ) -> Self {
        if !self.recovering() {
            self
        } else {
            let start = larger(in_flight.saturating_add(acked), self.min_cwnd);
            let left = if self.recovery_window >= lost {
                (self.recovery_window - lost) as usize
            } else {
                MAX_SEGMENT_SIZE
            };
            let kept = if self.recovery_state == RecoveryState::Growth {
                left.saturating_add(acked)
            } else {
                left
            };
            Bbr {
                recovery_window: if self.recovery_window == 0 {
                    start
                } else {
                    larger(kept, start)
                },
                ..self
            }
        }
    }

    // ---- Other events ----

    /// One more loss has been reported.
    pub open spec fn with_loss(self) -> Self {
        Bbr {
            loss_state: LossState { lost_bytes: self.loss_state.lost_bytes.saturating_add(1) },
            ..self
        }
    }

    /// After a retransmission timeout both the window and the remembered one are minimal.
    pub open spec fn with_rto(self) -> Self {
        Bbr {
            cwnd: self.min_cwnd,
            prior_cwnd: self.min_cwnd,
            packet_conservation: false,
            ..self.with_loss()
        }
    }

    /// `len` bytes have been sent.
    pub open spec fn with_transmit(self, now: Instant, len: usize) -> Self {
        Bbr {
            max_sent_packet_number: (self.max_sent_packet_number + 1) as u64,
            max_bandwidth: BandwidthEstimation {
                total_sent: (self.max_bandwidth.total_sent + len) as u64,
                prev_total_sent: self.max_bandwidth.total_sent,
                sent_time: Some(now),
                prev_sent_time: self.max_bandwidth.sent_time,
                ..self.max_bandwidth
            },
            ..self
        }
    }

    /// The minimum window is two segments, and the window no smaller.
    pub open spec fn with_mss(self, mss: usize) -> Self {
        let min_cwnd = (mss * 2) as usize;
        Bbr { min_cwnd, cwnd: larger(self.cwnd, min_cwnd), ..self }
    }

    /// The application limits the flow when it cannot fill the window; data after such a time
    /// is a restart from idle, with which the tracking of aggregation starts anew.
    pub open spec fn with_send_ready(self, now: Instant, bytes_available: usize) -> Self {
        let s = if self.app_limited && bytes_available > 0 {
            Bbr {
                idle_restart: true,
                ack_aggregation: AckAggregationState {
                    ack_epoch_mstamp: Some(now),
                    ack_epoch_acked: 0,
                    ..self.ack_aggregation
                },
                ..self
            }
        } else {
            self
        };
        Bbr { app_limited: bytes_available < self.effective_window(), ..s }
    }

    // ---- An ACK ----

    /// The estimation with the sampling interval that `rtt` calls for.
    pub open spec fn paced_estimation(self, rtt: RttEstimator) -> BandwidthEstimation {
        BandwidthEstimation {
            sample_interval: Duration {
                micros: vstd::math::max(
                    rtt.min.micros as int,
                    MIN_SAMPLE_INTERVAL_MICROS as int,
                ) as u64,
            },
            ..self.max_bandwidth
        }
    }

    /// Bandwidth, ACKed bytes and least round-trip time after an ACK for `len` bytes. The
    /// round-trip time is only ever lowered, once there is one.
    pub open spec fn with_measurements(self, now: Instant, len: usize, rtt: RttEstimator) -> Self {
        let sampled = self.paced_estimation(rtt).with_ack(
            now,
            len as u64,
            self.round_count,
            self.app_limited,
        );
        Bbr {
            max_acked_packet_number: self.max_acked_packet_number.saturating_add(len as u64),
            max_bandwidth: BandwidthEstimation {
                acked_at_last_window: sampled.total_acked,
                ..sampled
            },
            acked_bytes: (self.acked_bytes + len) as u64,
            min_rtt: if self.min_rtt.micros == 0 || self.min_rtt.micros > rtt.min.micros {
                rtt.min
            } else {
                self.min_rtt
            },
            ..self
        }
    }

    /// A round ends, and the next one begins, when all that was in flight at its beginning
    /// has been ACKed. Packets are conserved for no longer than a round.
    pub open spec fn with_round(self, len: usize) -> Self {
        if len > 0 && self.max_acked_packet_number >= self.current_round_trip_end_packet_number {
            Bbr {
                round_start: true,
                current_round_trip_end_packet_number: self.round_end(),
                round_count: (self.round_count + 1) as u64,
                packet_conservation: false,
                ..self
            }
        } else {
            Bbr { round_start: false, ..self }
        }
    }

    /// Measurements and round after an ACK for `len` bytes.
    pub open spec fn with_delivery(self, now: Instant, len: usize, rtt: RttEstimator) -> Self {
        self.with_measurements(now, len, rtt).with_round(len)
    }

    /// What was ACKed is held against what was expected.
    pub open spec fn with_aggregation(self, now: Instant, len: usize) -> Self {
        Bbr {
            ack_aggregation: self.ack_aggregation.with_acked(
                len as u64,
                now,
                self.round_start,
                self.estimate(),
                self.cwnd,
            ),
            ..self
        }
    }

    /// The gain cycle moves only while probing for bandwidth.
    pub open spec fn with_cycle(self, now: Instant) -> Self {
        if self.mode == Mode::ProbeBw {
            self.with_gain_cycle(now, self.bytes_in_flight)
        } else {
            self
        }
    }

    /// Growth is checked once a round, until the full bandwidth is reached.
    pub open spec fn with_growth(self) -> Self {
        if self.round_start && !self.is_at_full_bandwidth {
            self.with_growth_check()
        } else {
            self
        }
    }

    /// The model after an ACK: measurements, round, recovery and aggregation.
    pub open spec fn with_model(self, now: Instant, len: usize, rtt: RttEstimator) -> Self {
        let s = self.with_delivery(now, len, rtt);
        s.with_recovery(s.round_start).with_aggregation(now, len)
    }

    /// Nothing overflows while the model is updated.
    pub open spec fn model_fits(self, now: Instant, len: usize, rtt: RttEstimator) -> bool {
        &&& self.paced_estimation(rtt).ack_fits(now, len as u64, self.round_count, self.app_limited)
        &&& self.ack_aggregation.acked_fits(
            len as u64,
            now,
            self.with_delivery(now, len, rtt).estimate(),
        )
    }

    /// The mode, once the model has been updated.
    pub open spec fn with_mode(self, now: Instant) -> Self {
        self.with_cycle(now).with_growth().with_startup_or_drain_left(
            now,
            self.bytes_in_flight,
        ).with_probe_rtt(now, self.round_start, self.bytes_in_flight)
    }

    /// Nothing overflows while the mode is updated.
    pub open spec fn mode_fits(self, now: Instant) -> bool {
        let grown = self.with_cycle(now).with_growth();
        &&& self.mode == Mode::ProbeBw ==> self.gain_cycle_fits(now)
        &&& grown.leaving_fits()
        &&& grown.with_startup_or_drain_left(now, self.bytes_in_flight).probe_rtt_fits(
            now,
            self.bytes_in_flight,
        )
    }

    /// The windows, once model and mode have been updated; the losses up to here have then
    /// been accounted for, and new data ends a restart from idle.
    pub open spec fn with_windows(self, len: usize) -> Self {
        let s = self.with_cwnd_calculated(len).with_recovery_window(
            len,
            self.loss_state.lost_bytes,
            self.bytes_in_flight,
        );
        Bbr {
            idle_restart: s.idle_restart && len == 0,
            prev_in_flight_count: s.bytes_in_flight,
            loss_state: LossState { lost_bytes: 0 },
            ..s
        }
    }

    /// `in_flight` bytes are in flight.
    pub open spec fn with_in_flight(self, in_flight: usize) -> Self {
        Bbr { bytes_in_flight: in_flight, ..self }
    }

    /// The controller after an ACK for `len` bytes at `now`, what is then in flight being
    /// known: the model is updated, then the mode, then the windows.
    pub open spec fn with_ack_processed(self, now: Instant, len: usize, rtt: RttEstimator) -> Self {
        self.with_model(now, len, rtt).with_mode(now).with_windows(len)
    }

    /// Nothing overflows while the ACK is processed. Each step is held to its own condition,
    /// in the state in which it is taken.
    pub open spec fn processing_fits(self, now: Instant, len: usize, rtt: RttEstimator) -> bool {
        &&& self.model_fits(now, len, rtt)
        &&& self.with_model(now, len, rtt).mode_fits(now)
        &&& self.with_model(now, len, rtt).with_mode(now).cwnd_fits(len)
    }

    /// The controller after an ACK for `len` bytes at `now` that leaves `in_flight` bytes in
    /// flight.
    pub open spec fn with_ack(
        self,
        now: Instant,
        len: usize,
        in_flight: usize,
        rtt: RttEstimator,
    ) -> Self {
        self.with_in_flight(in_flight).with_ack_processed(now, len, rtt)
    }

    /// Nothing overflows while that ACK is taken in.
    pub open spec fn ack_fits(
        self,
        now: Instant,
        len: usize,
        in_flight: usize,
        rtt: RttEstimator,
    ) -> bool {
        self.with_in_flight(in_flight).processing_fits(now, len, rtt)
    }
}

/// Recovery leaves the measurements and the tracking of aggregation alone.
pub proof fn lemma_recovery_keeps(s: Bbr, round_start: bool)
    ensures
        s.with_recovery(round_start).ack_aggregation == s.ack_aggregation,
        s.with_recovery(round_start).max_bandwidth == s.max_bandwidth,
        s.with_recovery(round_start).round_start == s.round_start,
{
}

/// Measurements leave the tracking of aggregation alone.
pub proof fn lemma_delivery_keeps(s: Bbr, now: Instant, len: usize, rtt: RttEstimator)
    ensures
        s.with_delivery(now, len, rtt).ack_aggregation == s.ack_aggregation,
{
}

/// The gain cycle leaves the round and the growth of the bandwidth alone.
pub proof fn lemma_cycle_keeps(s: Bbr, now: Instant)
    ensures
        s.with_cycle(now).round_start == s.round_start,
        s.with_cycle(now).is_at_full_bandwidth == s.is_at_full_bandwidth,
        s.with_cycle(now).round_wo_bw_gain == s.round_wo_bw_gain,
{
}

} // verus!
