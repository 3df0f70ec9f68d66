//! BBR congestion control.
//!
//! Aims for reduced buffer bloat and improved performance over high bandwidth-delay product
//! networks: the window follows a model of the path, of its bottleneck bandwidth and its
//! least round-trip time. A reported loss does not change the window at once.

pub mod ack_aggregation;
pub mod aggregation_laws;
pub mod bw_estimation;
pub mod clock_laws;
pub mod estimation_laws;
pub mod gain;
pub mod laws;
pub mod min_max;
pub mod mode_laws;
pub mod model;
pub mod regrowth_laws;
pub mod window_laws;

mod steps;

use crate::rtt::RttEstimator;
use crate::time::{Duration, Instant};
use ack_aggregation::AckAggregationState;
use bw_estimation::BandwidthEstimation;
use gain::{
    growth_target, pacing_gain_of, scale, DRAIN_GAIN, GAIN_CYCLE_LEN, GAIN_ONE, HIGH_GAIN,
    PROBE_BW_CWND_GAIN, PROBE_RTT_GAIN,
};
use vstd::prelude::*;

verus! {

/// The congestion window to begin with.
pub const INITIAL_WINDOW: usize = 10240;

/// The minimum congestion window before the segment size is known.
pub const INITIAL_MIN_WINDOW: usize = 2048;

/// The peer's window before it is known.
pub const INITIAL_REMOTE_WINDOW: usize = 65536;

/// Size of a full segment.
pub const MAX_SEGMENT_SIZE: usize = 1460;

/// Rounds without growth after which STARTUP ends.
pub const STARTUP_ROUNDS_WITHOUT_GROWTH: u64 = 3;

/// How long probing for the round-trip time lasts, in microseconds.
pub const PROBE_RTT_MICROS: u64 = 200_000;

/// Age at which the least round-trip time is probed for again, in microseconds.
pub const MIN_RTT_EXPIRY_MICROS: u64 = 10_000_000;

/// Floor for the round-trip time in the bandwidth-delay product, in microseconds: samples
/// are whole milliseconds, so that a shorter path reads 0.
pub const MIN_RTT_FLOOR_MICROS: u64 = 1000;

/// Multiplier of the pseudo-random number generator.
pub const RNG_MULTIPLIER: u32 = 1103515245;

/// Increment of the pseudo-random number generator.
pub const RNG_INCREMENT: u32 = 12345;

/// Arbitrary seed of the pseudo-random number generator.
pub const RNG_SEED: u32 = 12345;

/// The phase that the controller is in.
#[derive(Debug, Clone, Copy, PartialEq, Eq, Structural)]
pub enum Mode {
    /// Startup phase of the connection.
    Startup,
    /// After achieving the highest possible bandwidth during the startup, lower the pacing
    /// rate in order to drain the queue.
    Drain,
    /// Cruising mode.
    ProbeBw,
    /// Temporarily slow down sending in order to empty the buffer and measure the real
    /// minimum RTT.
    ProbeRtt,
}

/// How the congestion control limits the amount of bytes in flight.
#[derive(Debug, Clone, Copy, PartialEq, Eq, Structural)]
pub enum RecoveryState {
    /// Do not limit.
    NotInRecovery,
    /// Allow an extra outstanding byte for each byte acknowledged.
    Conservation,
    /// Allow two extra outstanding bytes for each byte acknowledged (slow start).
    Growth,
}

impl RecoveryState {
    /// Losses are being recovered from.
    pub fn in_recovery(&self) -> (r: bool)
        ensures
            r == (*self != RecoveryState::NotInRecovery),
    {
        !matches!(self, RecoveryState::NotInRecovery)
    }
}

/// The losses since the last ACK.
#[derive(Debug, Clone, Copy, PartialEq, Eq, Structural)]
pub struct LossState {
    pub lost_bytes: usize,
}

impl LossState {
    /// Forget the losses.
    pub fn reset(&mut self)
        ensures
            final(self).lost_bytes == 0,
    {
        self.lost_bytes = 0;
    }

    /// There were losses.
    pub fn has_losses(&self) -> (r: bool)
        ensures
            r == (self.lost_bytes != 0),
    {
        self.lost_bytes != 0
    }
}

impl Default for LossState {
    fn default() -> (r: Self)
        ensures
            r.lost_bytes == 0,
    {
        LossState { lost_bytes: 0 }
    }
}

/// BBR congestion control algorithm.
#[derive(Debug, Clone, Copy)]
pub struct Bbr {
    pub max_bandwidth: BandwidthEstimation,
    pub acked_bytes: u64,
    pub mode: Mode,
    pub loss_state: LossState,
    pub recovery_state: RecoveryState,
    pub recovery_window: usize,
    pub is_at_full_bandwidth: bool,
    pub pacing_gain: u32,
    pub high_gain: u32,
    pub drain_gain: u32,
    pub cwnd_gain: u32,
    pub high_cwnd_gain: u32,
    pub last_cycle_start: Option<Instant>,
    pub current_cycle_offset: u8,
    pub init_cwnd: usize,
    pub min_cwnd: usize,
    pub prev_in_flight_count: usize,
    /// Bytes in flight after the ACK being processed, as reported by the socket.
    pub bytes_in_flight: usize,
    pub exit_probe_rtt_at: Option<Instant>,
    pub probe_rtt_last_started_at: Option<Instant>,
    pub min_rtt: Duration,
    /// Set when restarting after an idle period.
    pub idle_restart: bool,
    pub max_acked_packet_number: u64,
    pub max_sent_packet_number: u64,
    pub end_recovery_at_packet_number: u64,
    pub cwnd: usize,
    pub current_round_trip_end_packet_number: u64,
    pub round_count: u64,
    pub bw_at_last_round: u64,
    pub round_wo_bw_gain: u64,
    pub ack_aggregation: AckAggregationState,
    pub rwnd: usize,
    /// State of a linear congruential generator.
    pub rng_state: u32,
    /// The application doesn't have enough data to fill cwnd.
    pub app_limited: bool,
    /// The window before loss recovery (for restoration after recovery exits).
    pub prior_cwnd: usize,
    /// Follow the packet conservation principle during the first round of recovery.
    pub packet_conservation: bool,
    /// Whether the window was last computed in recovery.
    pub prev_in_recovery: bool,
    /// The ACK being processed started a new round trip.
    pub round_start: bool,
}

impl Bbr {
    /// A controller that has seen nothing yet.
    pub fn new() -> (r: Self)
        ensures
            r == Self::initial(),
            r.wf(),
    {
        Bbr {
            max_bandwidth: BandwidthEstimation::default(),
            acked_bytes: 0,
            mode: Mode::Startup,
            loss_state: LossState::default(),
            recovery_state: RecoveryState::NotInRecovery,
            recovery_window: 0,
            is_at_full_bandwidth: false,
            pacing_gain: HIGH_GAIN,
            high_gain: HIGH_GAIN,
            drain_gain: DRAIN_GAIN,
            cwnd_gain: HIGH_GAIN,
            high_cwnd_gain: HIGH_GAIN,
            last_cycle_start: None,
            current_cycle_offset: 0,
            init_cwnd: INITIAL_WINDOW,
            min_cwnd: INITIAL_MIN_WINDOW,
            prev_in_flight_count: 0,
            bytes_in_flight: 0,
            exit_probe_rtt_at: None,
            probe_rtt_last_started_at: None,
            min_rtt: Duration::zero(),
            idle_restart: false,
            max_acked_packet_number: 0,
            max_sent_packet_number: 0,
            end_recovery_at_packet_number: 0,
            cwnd: INITIAL_WINDOW,
            current_round_trip_end_packet_number: 0,
            round_count: 0,
            bw_at_last_round: 0,
            round_wo_bw_gain: 0,
            ack_aggregation: AckAggregationState::new(),
            rwnd: INITIAL_REMOTE_WINDOW,
            rng_state: RNG_SEED,
            app_limited: false,
            prior_cwnd: INITIAL_WINDOW,
            packet_conservation: false,
            prev_in_recovery: false,
            round_start: false,
        }
    }

    /// Simple pseudo-random number generator (LCG): a number below `max`.
    pub fn random_range(&mut self, max: u8) -> (r: u8)
        requires
            max > 0,
        ensures
            *final(self) == (Bbr { rng_state: old(self).next_random(), ..*old(self) }),
            r == (old(self).next_random() / 65536) % (max as u32),
    {
        proof {
            lemma_wrapping(self.rng_state);
        }
        self.rng_state = self.rng_state.wrapping_mul(RNG_MULTIPLIER).wrapping_add(RNG_INCREMENT);
        ((self.rng_state / 65536) % max as u32) as u8
    }

    /// Grow the window as fast as STARTUP does.
    pub fn enter_startup_mode(&mut self)
        ensures
            *final(self) == old(self).in_startup(),
    {
        self.mode = Mode::Startup;
        self.pacing_gain = self.high_gain;
        self.cwnd_gain = self.high_cwnd_gain;
    }

    /// Start probing for bandwidth, in a random phase of the gain cycle. Phase 1 is left out:
    /// with it, increased gain and decreased gain would not follow each other.
    pub fn enter_probe_bandwidth_mode(&mut self, now: Instant)
        ensures
            *final(self) == old(self).in_probe_bw(now),
    {
        self.mode = Mode::ProbeBw;
        self.cwnd_gain = PROBE_BW_CWND_GAIN;
        self.last_cycle_start = Some(now);
        let mut rand_index: u8 = self.random_range(GAIN_CYCLE_LEN - 1);
        if rand_index >= 1 {
            rand_index = rand_index + 1;
        }
        self.current_cycle_offset = rand_index;
        self.pacing_gain = pacing_gain_of(rand_index);
    }

    /// Save the current cwnd before entering recovery.
    pub fn save_cwnd(&mut self)
        ensures
            *final(self) == old(self).with_saved_cwnd(),
    {
        if self.recovery_state == RecoveryState::NotInRecovery && self.mode != Mode::ProbeRtt {
            self.prior_cwnd = self.cwnd;
        }
    }

    /// Restore cwnd when exiting recovery.
    pub fn restore_cwnd(&mut self)
        ensures
            *final(self) == old(self).with_restored_cwnd(),
    {
        self.cwnd = self.cwnd.max(self.prior_cwnd);
    }

    /// Packet conservation: handle recovery and restoration of cwnd.
    ///
    /// On the first round of recovery, follow the packet conservation principle: send P
    /// packets per P packets acked. After that, slow-start and send at most 2*P packets per
    /// P packets acked.
    pub fn set_cwnd_to_recover_or_restore(
        &mut self,
        bytes_acked: usize,
        bytes_lost: usize,
        bytes_in_flight: usize,
    ) -> (r: Option<usize>)
        ensures
            *final(self) == old(self).with_conservation(),
            r == Some(old(self).recovery_cwnd(bytes_acked, bytes_lost, bytes_in_flight)),
    {
        let in_recovery: bool = self.recovery_state.in_recovery();
        let mut cwnd: usize = self.cwnd;
        // An ACK for P pkts should release at most 2*P packets. First, here we deduct the
        // number of lost packets. Then, in calculate_cwnd() we slow start up toward the
        // target cwnd.
        if bytes_lost > 0 {
            cwnd = cwnd.saturating_sub(bytes_lost).max(MAX_SEGMENT_SIZE);
        }
        if in_recovery && !self.prev_in_recovery {
            // Starting 1st round of recovery, so do packet conservation, and start a new
            // round now.
            self.packet_conservation = true;
            self.current_round_trip_end_packet_number = self.round_end_mark();
            // Cut unused cwnd from app behavior or other factors.
            cwnd = bytes_in_flight.saturating_add(bytes_acked);
        } else if !in_recovery && self.prev_in_recovery {
            // Exiting loss recovery; restore the cwnd saved before recovery.
            cwnd = cwnd.max(self.prior_cwnd);
            self.packet_conservation = false;
        }
        self.prev_in_recovery = in_recovery;
        // If using packet conservation, ensure cwnd >= inflight + acked.
        if self.packet_conservation {
            Some(bytes_in_flight.saturating_add(bytes_acked).max(cwnd))
        } else {
            Some(cwnd)
        }
    }

    /// Enter or leave recovery, or move on within it.
    pub fn update_recovery_state(&mut self, is_round_start: bool)
        ensures
            *final(self) == old(self).with_recovery(is_round_start),
            old(self).wf() ==> final(self).wf(),
    {
        let has_losses: bool = self.loss_state.has_losses();
        // Exit recovery when there are no losses for a round.
        if has_losses {
            self.end_recovery_at_packet_number = self.round_end_mark();
        }
        match self.recovery_state {
            RecoveryState::NotInRecovery => {
                // Enter conservation on the first loss.
                if has_losses {
                    self.save_cwnd();
                    self.recovery_state = RecoveryState::Conservation;
                    // This will cause the recovery window to be set to the correct value in
                    // calculate_recovery_window().
                    self.recovery_window = 0;
                    // Since the conservation phase is meant to be lasting for a whole round,
                    // extend the current round as if it were started right now.
                    self.current_round_trip_end_packet_number = self.round_end_mark();
                }
            },
            RecoveryState::Growth | RecoveryState::Conservation => {
                if self.recovery_state == RecoveryState::Conservation && is_round_start {
                    self.recovery_state = RecoveryState::Growth;
                }
                // Exit recovery if appropriate.
                if !has_losses && self.max_acked_packet_number
                    > self.end_recovery_at_packet_number {
                    self.restore_cwnd();
                    self.recovery_state = RecoveryState::NotInRecovery;
                }
            },
        }
    }

    /// Move the gain cycle on when its phase is over.
    pub fn update_gain_cycle_phase(&mut self, now: Instant, in_flight: usize)
        requires
            old(self).wf(),
            old(self).gain_cycle_fits(now),
        ensures
            *final(self) == old(self).with_gain_cycle(now, in_flight),
            final(self).wf(),
    {
        // In most cases, the cycle is advanced after an RTT passes.
        let mut should_advance_gain_cycling: bool = match self.last_cycle_start {
            Some(last_cycle_start) => {
                if now.micros > last_cycle_start.micros {
                    now.since(last_cycle_start).micros > self.min_rtt.micros
                } else {
                    false
                }
            },
            None => false,
        };
        // If the pacing gain is above 1, the connection is trying to probe the bandwidth by
        // increasing the number of bytes in flight to at least pacing_gain * BDP. Make sure
        // that it actually reaches the target, as long as there are no losses suggesting
        // that the buffers are not able to hold that much.
        if self.pacing_gain > GAIN_ONE && !self.loss_state.has_losses() && self.prev_in_flight_count
            < self.get_target_cwnd(self.pacing_gain) {
            should_advance_gain_cycling = false;
        }
        // If the pacing gain is below 1, the connection is trying to drain the extra queue
        // which could have been incurred by probing prior to it. If the number of bytes in
        // flight falls down to the estimated BDP value earlier, conclude that the queue has
        // been successfully drained and exit this cycle early.
        if self.pacing_gain < GAIN_ONE && in_flight <= self.get_target_cwnd(GAIN_ONE) {
            should_advance_gain_cycling = true;
        }
        if should_advance_gain_cycling {
            self.current_cycle_offset = (self.current_cycle_offset + 1) % GAIN_CYCLE_LEN;
            self.last_cycle_start = Some(now);
            // Stay in low gain mode until the target BDP is hit. Low gain mode will be
            // exited immediately when the target BDP is achieved.
            if self.pacing_gain < GAIN_ONE && pacing_gain_of(self.current_cycle_offset) == GAIN_ONE
                && in_flight > self.get_target_cwnd(GAIN_ONE) {
                return;
            }
            self.pacing_gain = pacing_gain_of(self.current_cycle_offset);
        }
    }

    /// Leave STARTUP at full bandwidth, and DRAIN when the queue has been drained.
    pub fn maybe_exit_startup_or_drain(&mut self, now: Instant, in_flight: usize)
        requires
            old(self).wf(),
            old(self).leaving_fits(),
        ensures
            *final(self) == old(self).with_startup_or_drain_left(now, in_flight),
            final(self).wf(),
    {
        if self.mode == Mode::Startup && self.is_at_full_bandwidth {
            self.mode = Mode::Drain;
            self.pacing_gain = self.drain_gain;
            self.cwnd_gain = self.high_cwnd_gain;
        }
        if self.mode == Mode::Drain && in_flight <= self.get_target_cwnd(GAIN_ONE) {
            self.enter_probe_bandwidth_mode(now);
        }
    }

    /// It is time to probe for the round-trip time again.
    pub fn is_min_rtt_expired(&self, now: Instant) -> (r: bool)
        requires
            self.expiry_fits(now),
        ensures
            r == self.min_rtt_expired(now),
    {
        if self.app_limited {
            return false;
        }
        match self.probe_rtt_last_started_at {
            Some(last) => {
                if now.micros > last.micros {
                    now.since(last).micros > MIN_RTT_EXPIRY_MICROS
                } else {
                    false
                }
            },
            None => true,
        }
    }

    /// Start probing for the round-trip time when it is time to, and stop when it has lasted
    /// long enough.
    pub fn maybe_enter_or_exit_probe_rtt(
        &mut self,
        now: Instant,
        is_round_start: bool,
        bytes_in_flight: usize,
        _app_limited: bool,
    )
        requires
            old(self).wf(),
            old(self).probe_rtt_fits(now, bytes_in_flight),
        ensures
            *final(self) == old(self).with_probe_rtt(now, is_round_start, bytes_in_flight),
            final(self).wf(),
    {
        let min_rtt_expired: bool = self.is_min_rtt_expired(now);
        // Enter ProbeRTT if min_rtt expired, not restarting from idle, and not already in
        // ProbeRTT.
        if min_rtt_expired && !self.idle_restart && self.mode != Mode::ProbeRtt {
            self.save_cwnd();
            self.mode = Mode::ProbeRtt;
            self.pacing_gain = GAIN_ONE;
            // Do not decide on the time to exit ProbeRTT until the bytes in flight are at
            // the target small value.
            self.exit_probe_rtt_at = None;
            self.probe_rtt_last_started_at = Some(now);
        }
        if self.mode == Mode::ProbeRtt {
            match self.exit_probe_rtt_at {
                None => {
                    // If the window has reached the appropriate size, schedule exiting
                    // ProbeRTT. An extra packet is allowed for.
                    if bytes_in_flight < self.get_probe_rtt_cwnd() + MAX_SEGMENT_SIZE {
                        self.exit_probe_rtt_at = Some(
                            now.plus(Duration { micros: PROBE_RTT_MICROS }),
                        );
                    }
                },
                Some(exit_time) => {
                    if is_round_start && now.micros >= exit_time.micros {
                        self.restore_cwnd();
                        if !self.is_at_full_bandwidth {
                            self.enter_startup_mode();
                        } else {
                            self.enter_probe_bandwidth_mode(now);
                        }
                    }
                },
            }
        }
    }

    /// `gain` times the bandwidth-delay product, within limits.
    pub fn get_target_cwnd(&self, gain: u32) -> (r: usize)
        requires
            self.bdp_fits(),
        ensures
            r == self.target_cwnd(gain),
    {
        let bw: u64 = self.max_bandwidth.get_estimate();
        let min_rtt_us: u64 = self.min_rtt.micros.max(MIN_RTT_FLOOR_MICROS);
        let bdp: u64 = min_rtt_us * bw;
        let bytes: u64 = scale(gain, bdp);
        let cwnd: usize = if bytes > usize::MAX as u64 {
            usize::MAX
        } else {
            bytes as usize
        };
        // The BDP estimate will be zero if no bandwidth samples are available yet.
        if cwnd == 0 {
            return self.init_cwnd;
        }
        cwnd.max(self.min_cwnd)
    }

    /// The window while probing for the round-trip time.
    pub fn get_probe_rtt_cwnd(&self) -> (r: usize)
        requires
            self.bdp_fits(),
        ensures
            r == self.probe_rtt_cwnd(),
    {
        self.get_target_cwnd(PROBE_RTT_GAIN)
    }

    /// The congestion window after `bytes_acked` bytes were ACKed.
    pub fn calculate_cwnd(&mut self, bytes_acked: usize)
        requires
            old(self).wf(),
            old(self).cwnd_fits(bytes_acked),
        ensures
            *final(self) == old(self).with_cwnd_calculated(bytes_acked),
            final(self).wf(),
    {
        if self.mode == Mode::ProbeRtt {
            return;
        }
        // No packet fully ACKed; just apply caps.
        if bytes_acked == 0 {
            if self.cwnd < self.min_cwnd {
                self.cwnd = self.min_cwnd;
            }
            return;
        }
        // Handle recovery and restoration with packet conservation.
        let bytes_lost: usize = self.loss_state.lost_bytes;
        let bytes_in_flight: usize = self.bytes_in_flight;
        if let Some(new_cwnd) = self.set_cwnd_to_recover_or_restore(
            bytes_acked,
            bytes_lost,
            bytes_in_flight,
        ) {
            self.cwnd = new_cwnd;
            // If packet conservation is active, skip normal cwnd growth and just enforce
            // the minimum.
            if self.packet_conservation {
                if self.cwnd < self.min_cwnd {
                    self.cwnd = self.min_cwnd;
                }
                return;
            }
        }
        // Normal cwnd calculation: compute the target cwnd based on the BDP, and add the
        // ACK aggregation increment.
        let bw: u64 = self.max_bandwidth.get_estimate();
        let target_window: usize = self.get_target_cwnd(self.cwnd_gain).saturating_add(
            self.ack_aggregation.ack_aggregation_cwnd(bw, self.is_at_full_bandwidth),
        );
        // Slow start cwnd toward the target cwnd.
        if self.is_at_full_bandwidth {
            // Only cut cwnd if we filled the pipe.
            self.cwnd = target_window.min(self.cwnd.saturating_add(bytes_acked));
        } else if self.cwnd < target_window || self.acked_bytes < self.init_cwnd as u64 {
            // If the connection is not yet out of the startup phase, do not decrease the
            // window.
            self.cwnd = self.cwnd.saturating_add(bytes_acked);
        }
        // Enforce the limits on the congestion window.
        if self.cwnd < self.min_cwnd {
            self.cwnd = self.min_cwnd;
        }
    }

    /// The recovery window after `bytes_acked` bytes were ACKed and `bytes_lost` were lost.
    pub fn calculate_recovery_window(
        &mut self,
        bytes_acked: usize,
        bytes_lost: usize,
        in_flight: usize,
    )
        ensures
            *final(self) == old(self).with_recovery_window(bytes_acked, bytes_lost, in_flight),
            old(self).wf() ==> final(self).wf(),
    {
        if !self.recovery_state.in_recovery() {
            return;
        }
        // Set up the initial recovery window.
        if self.recovery_window == 0 {
            self.recovery_window = self.min_cwnd.max(in_flight.saturating_add(bytes_acked));
            return;
        }
        // Remove losses from the recovery window, while accounting for a potential integer
        // underflow.
        if self.recovery_window >= bytes_lost {
            self.recovery_window = self.recovery_window - bytes_lost;
        } else {
            self.recovery_window = MAX_SEGMENT_SIZE;
        }
        // In conservation, just subtracting losses is sufficient. In growth, release
        // additional bytes_acked to achieve a slow-start-like behavior.
        if self.recovery_state == RecoveryState::Growth {
            self.recovery_window = self.recovery_window.saturating_add(bytes_acked);
        }
        // Ensure that we always allow to send at least an MSS or bytes_acked in response,
        // whichever is larger.
        self.recovery_window = self.recovery_window.max(in_flight.saturating_add(bytes_acked)).max(
            self.min_cwnd,
        );
    }

    /// STARTUP is not left merely because loss recovery was entered, only on sustained lack
    /// of bandwidth growth: on a lossy path the first loss would otherwise lock the window
    /// at what STARTUP has reached so far.
    pub fn check_if_full_bw_reached(&mut self)
        requires
            old(self).growth_check_fits(),
        ensures
            *final(self) == old(self).with_growth_check(),
            old(self).wf() ==> final(self).wf(),
    {
        if self.app_limited {
            return;
        }
        let target: u64 = growth_target(self.bw_at_last_round);
        let bw: u64 = self.max_bandwidth.get_estimate();
        if bw >= target {
            self.bw_at_last_round = bw;
            self.round_wo_bw_gain = 0;
            // Reset ACK aggregation tracking when bandwidth increases.
            self.ack_aggregation.extra_acked = (0, 0);
            self.ack_aggregation.extra_acked_win_rtts = 0;
            return;
        }
        self.round_wo_bw_gain = self.round_wo_bw_gain + 1;
        if self.round_wo_bw_gain >= STARTUP_ROUNDS_WITHOUT_GROWTH {
            self.is_at_full_bandwidth = true;
        }
    }

    /// Take the measurements that an ACK allows.
    fn observe_delivery(&mut self, now: Instant, len: usize, rtt: &RttEstimator) -> (r: usize)
        requires
            old(self).wf(),
            old(self).paced_estimation(*rtt).ack_fits(
                now,
                len as u64,
                old(self).round_count,
                old(self).app_limited,
            ),
        ensures
            *final(self) == old(self).with_measurements(now, len, *rtt),
            final(self).wf(),
            r == len,
            len > 0 ==> final(self).round_count < final(self).acked_bytes,
    {
        let bytes: u64 = len as u64;
        self.max_acked_packet_number = self.max_acked_packet_number.saturating_add(bytes);
        // Update the bandwidth estimation with the app-limited state.
        let round: u64 = self.round_count;
        let app_limited: bool = self.app_limited;
        let mut estimation = self.max_bandwidth;
        estimation.set_sample_interval(rtt.min_rtt());
        assert(estimation == old(self).paced_estimation(*rtt));
        estimation.on_ack(now, now, bytes, round, app_limited);
        self.acked_bytes = self.acked_bytes + bytes;
        // Update min_rtt from the estimator's windowed minimum.
        let current_min_rtt = rtt.min_rtt();
        if self.min_rtt.micros == 0 || self.min_rtt.micros > current_min_rtt.micros {
            self.min_rtt = current_min_rtt;
        }
        // End of acks processing.
        let bytes_acked: usize = estimation.bytes_acked_this_window() as usize;
        estimation.end_acks(round, app_limited);
        self.max_bandwidth = estimation;
        bytes_acked
    }

    /// Track the round.
    ///
    /// Rounds and recovery are accounted in ACKed *bytes* against a target of "everything in
    /// flight when the round started has been ACKed". One ACK routinely covers several
    /// segments and retransmits add sends, so that counts of ACKs and of sends would drift
    /// apart.
    fn track_round(&mut self, bytes_acked: usize)
        requires
            old(self).wf(),
            bytes_acked > 0 ==> old(self).round_count < old(self).acked_bytes,
        ensures
            *final(self) == old(self).with_round(bytes_acked),
            final(self).wf(),
    {
        self.round_start = false;
        if bytes_acked > 0 {
            let is_round_start: bool = self.max_acked_packet_number
                >= self.current_round_trip_end_packet_number;
            if is_round_start {
                self.round_start = true;
                self.current_round_trip_end_packet_number = self.round_end_mark();
                self.round_count = self.round_count + 1;
                // Reset packet conservation on round start.
                self.packet_conservation = false;
            }
        }
    }

    /// Hold what was ACKed against what was expected.
    fn track_aggregation(&mut self, now: Instant, bytes_acked: usize)
        requires
            old(self).wf(),
            old(self).ack_aggregation.acked_fits(bytes_acked as u64, now, old(self).estimate()),
        ensures
            *final(self) == old(self).with_aggregation(now, bytes_acked),
            final(self).wf(),
    {
        let estimate: u64 = self.max_bandwidth.get_estimate();
        let round_start: bool = self.round_start;
        let cwnd: usize = self.cwnd;
        self.ack_aggregation.update_ack_aggregation(
            bytes_acked as u64,
            now,
            round_start,
            estimate,
            cwnd,
        );
    }

    /// Update the model from an ACK.
    fn update_model(&mut self, now: Instant, len: usize, rtt: &RttEstimator) -> (r: usize)
        requires
            old(self).wf(),
            old(self).model_fits(now, len, *rtt),
        ensures
            *final(self) == old(self).with_model(now, len, *rtt),
            final(self).wf(),
            r == len,
    {
        let bytes_acked: usize = self.observe_delivery(now, len, rtt);
        self.track_round(bytes_acked);
        proof {
            model::lemma_recovery_keeps(*self, self.round_start);
            model::lemma_delivery_keeps(*old(self), now, len, *rtt);
        }
        self.update_recovery_state(self.round_start);
        self.track_aggregation(now, bytes_acked);
        bytes_acked
    }

    /// Update the mode, the model being up to date.
    fn update_mode(&mut self, now: Instant)
        requires
            old(self).wf(),
            old(self).mode_fits(now),
        ensures
            *final(self) == old(self).with_mode(now),
            final(self).wf(),
    {
        let in_flight: usize = self.bytes_in_flight;
        let round_start: bool = self.round_start;
        let app_limited: bool = self.app_limited;
        if self.mode == Mode::ProbeBw {
            self.update_gain_cycle_phase(now, in_flight);
        }
        proof {
            model::lemma_cycle_keeps(*old(self), now);
        }
        if self.round_start && !self.is_at_full_bandwidth {
            self.check_if_full_bw_reached();
        }
        self.maybe_exit_startup_or_drain(now, in_flight);
        self.maybe_enter_or_exit_probe_rtt(now, round_start, in_flight, app_limited);
    }

    /// Recalculate the windows, model and mode being up to date.
    fn update_windows(&mut self, bytes_acked: usize)
        requires
            old(self).wf(),
            old(self).cwnd_fits(bytes_acked),
        ensures
            *final(self) == old(self).with_windows(bytes_acked),
            final(self).wf(),
    {
        let bytes_lost: usize = self.loss_state.lost_bytes;
        let in_flight: usize = self.bytes_in_flight;
        self.calculate_cwnd(bytes_acked);
        self.calculate_recovery_window(bytes_acked, bytes_lost, in_flight);
        // Reset idle_restart after processing new data delivery.
        if bytes_acked > 0 {
            self.idle_restart = false;
        }
        self.prev_in_flight_count = self.bytes_in_flight;
        self.loss_state.reset();
    }

    /// Process an ACK for `len` bytes at `now`, what is then in flight being known.
    pub fn on_ack_impl(&mut self, now: Instant, len: usize, rtt: &RttEstimator)
        requires
            old(self).wf(),
            old(self).processing_fits(now, len, *rtt),
        ensures
            *final(self) == old(self).with_ack_processed(now, len, *rtt),
            final(self).wf(),
    {
        let bytes_acked: usize = self.update_model(now, len, rtt);
        self.update_mode(now);
        self.update_windows(bytes_acked);
    }

    /// ACKed-bytes mark at which everything currently in flight has been ACKed.
    pub fn round_end_mark(&self) -> (r: u64)
        ensures
            r == self.round_end(),
    {
        self.max_acked_packet_number.saturating_add(self.bytes_in_flight as u64)
    }

    /// `len` bytes were transmitted.
    pub fn on_transmit_impl(&mut self, now: Instant, len: usize)
        requires
            old(self).max_sent_packet_number < u64::MAX,
            old(self).max_bandwidth.total_sent + len <= u64::MAX,
        ensures
            *final(self) == old(self).with_transmit(now, len),
            old(self).wf() ==> final(self).wf(),
    {
        let bytes: u64 = len as u64;
        let packet_number: u64 = self.max_sent_packet_number + 1;
        self.max_sent_packet_number = packet_number;
        self.max_bandwidth.on_sent(now, bytes);
    }

    /// The congestion window. A reported loss does not change it at once, and it is not capped
    /// to the recovery window: on a persistently lossy path it would otherwise stay pinned at
    /// what is in flight. Probing for the round-trip time only ever lowers it, so that the
    /// collapse after a timeout is not bypassed while probing.
    pub fn window(&self) -> (r: usize)
        requires
            self.window_fits(),
        ensures
            r == self.effective_window(),
    {
        let cwnd: usize = if self.mode == Mode::ProbeRtt {
            self.get_probe_rtt_cwnd().min(self.cwnd)
        } else {
            self.cwnd
        };
        cwnd.min(self.rwnd)
    }

    /// The peer advertised a window. The largest counts.
    pub fn set_remote_window(&mut self, remote_window: usize)
        ensures
            *final(self) == (Bbr {
                rwnd: model::larger(old(self).rwnd, remote_window),
                ..*old(self)
            }),
            final(self).rwnd >= remote_window && final(self).rwnd >= old(self).rwnd,
            final(self).rwnd == remote_window || final(self).rwnd == old(self).rwnd,
            old(self).wf() ==> final(self).wf(),
    {
        if self.rwnd < remote_window {
            self.rwnd = remote_window;
        }
    }

    /// An ACK for `len` bytes arrived at `now` and leaves `in_flight` bytes in flight.
    pub fn on_ack(&mut self, now: Instant, len: usize, in_flight: usize, rtt: &RttEstimator)
        requires
            old(self).wf(),
            old(self).ack_fits(now, len, in_flight, *rtt),
        ensures
            *final(self) == old(self).with_ack(now, len, in_flight, *rtt),
            final(self).wf(),
    {
        self.bytes_in_flight = in_flight;
        self.on_ack_impl(now, len, rtt);
    }

    /// Three duplicate ACKs reported a loss. Like each further duplicate ACK, it only feeds
    /// the recovery-state machine; the target cwnd is not cut.
    pub fn on_loss(&mut self, _now: Instant, _in_flight: usize)
        ensures
            *final(self) == old(self).with_loss(),
            old(self).wf() ==> final(self).wf(),
    {
        self.loss_state.lost_bytes = self.loss_state.lost_bytes.saturating_add(1);
    }

    /// A further duplicate ACK arrived.
    pub fn on_dup_ack(&mut self, _now: Instant, _len: usize, _in_flight: usize)
        ensures
            *final(self) == old(self).with_loss(),
            old(self).wf() ==> final(self).wf(),
    {
        self.loss_state.lost_bytes = self.loss_state.lost_bytes.saturating_add(1);
    }

    /// A retransmission timeout means the ACK clock is gone and every outstanding byte is
    /// presumed lost. Loss tolerance does not extend to this case: collapse to the minimum
    /// window and let `calculate_cwnd` slow-start back toward the target on returning ACKs.
    /// The window before the timeout is deliberately not restored on recovery exit.
    pub fn on_rto(&mut self, _now: Instant, _in_flight: usize)
        ensures
            *final(self) == old(self).with_rto(),
            old(self).wf() ==> final(self).wf(),
    {
        self.loss_state.lost_bytes = self.loss_state.lost_bytes.saturating_add(1);
        self.cwnd = self.min_cwnd;
        self.prior_cwnd = self.min_cwnd;
        self.packet_conservation = false;
    }

    /// Nothing needs doing before a transmission.
    pub fn pre_transmit(&mut self, _now: Instant)
        ensures
            *final(self) == *old(self),
    {
    }

    /// `len` bytes were transmitted.
    pub fn post_transmit(&mut self, now: Instant, len: usize)
        requires
            old(self).max_sent_packet_number < u64::MAX,
            old(self).max_bandwidth.total_sent + len <= u64::MAX,
        ensures
            *final(self) == old(self).with_transmit(now, len),
            old(self).wf() ==> final(self).wf(),
    {
        self.on_transmit_impl(now, len);
    }

    /// Set the maximum segment size: the minimum window is two segments.
    pub fn set_mss(&mut self, mss: usize)
        requires
            mss * 2 <= usize::MAX,
        ensures
            *final(self) == old(self).with_mss(mss),
            old(self).wf() ==> final(self).wf(),
    {
        self.min_cwnd = mss * 2;
        if self.cwnd < self.min_cwnd {
            self.cwnd = self.min_cwnd;
        }
    }

    /// The application has `bytes_available` bytes to send. It limits the flow when they do
    /// not fill the window; data after such a time is a restart from idle.
    pub fn on_send_ready(&mut self, now: Instant, bytes_available: usize)
        requires
            old(self).window_fits(),
        ensures
            *final(self) == old(self).with_send_ready(now, bytes_available),
            old(self).wf() ==> final(self).wf(),
    {
        if self.app_limited && bytes_available > 0 {
            self.idle_restart = true;
            // Reset the ACK aggregation epoch on idle restart.
            self.ack_aggregation.ack_epoch_mstamp = Some(now);
            self.ack_aggregation.ack_epoch_acked = 0;
        }
        let cwnd: usize = self.window();
        self.app_limited = bytes_available < cwnd;
    }

    /// Pacing is disabled: the flow is clocked by ACKs alone.
    pub fn pacing_rate(&self) -> (r: u64)
        ensures
            r == 0,
    {
        0
    }
}

proof fn lemma_wrapping(x: u32)
    ensures
        x.wrapping_mul(RNG_MULTIPLIER).wrapping_add(RNG_INCREMENT) == ((x * RNG_MULTIPLIER
            + RNG_INCREMENT) % 0x1_0000_0000) as u32,
{
    let product = x * RNG_MULTIPLIER;
    vstd::arithmetic::div_mod::lemma_add_mod_noop(product, RNG_INCREMENT as int, 0x1_0000_0000);
}

} // verus!
