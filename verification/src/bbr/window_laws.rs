//! Laws of the congestion window and of recovery, in the fields and numbers that an ACK finds
//! and leaves.

use super::gain::{law_scaling_is_off_by_at_most_a_byte, scaled};
use super::steps::{
    lemma_cwnd, lemma_delivery, lemma_mode, lemma_model, lemma_recovery, lemma_windows,
};
use super::{Bbr, Mode, RecoveryState};
use crate::rtt::RttEstimator;
use crate::time::Instant;
use vstd::math::{max, min};
use vstd::prelude::*;

verus! {

// ---- The target ----

/// The target is the gain, in units of `2^-25`, times the bandwidth, times the least round-trip
/// time, which counts as at least a millisecond: to a byte, and no less than the minimum window.
/// Without bandwidth it is the initial window.
pub proof fn law_target_is_gain_times_bandwidth_times_delay(s: Bbr, gain: u32)
    requires
        max(s.min_rtt.micros as int, 1000) * s.max_bandwidth.max_filter.first.value <= u64::MAX,
    ensures
        ({
            let bandwidth = s.max_bandwidth.max_filter.first.value;
            let bytes = gain * (max(s.min_rtt.micros as int, 1000) * bandwidth)
                / 33_554_432_000_000;
            let target = s.target_cwnd(gain);
            &&& bandwidth == 0 ==> target == s.init_cwnd
            &&& bytes >= 2 ==> target >= min(bytes - 1, usize::MAX as int)
            &&& bytes >= 2 ==> target >= s.min_cwnd
            &&& bytes >= 2 ==> target <= max(bytes + 1, s.min_cwnd as int)
            &&& bytes < 2 ==> target == s.init_cwnd || target == max(1, s.min_cwnd as int)
                || target == max(2, s.min_cwnd as int)
        }),
{
    let bandwidth = s.max_bandwidth.max_filter.first.value;
    let micros = max(s.min_rtt.micros as int, 1000);
    assert(0 <= micros * bandwidth) by (nonlinear_arith)
        requires
            micros >= 0,
            bandwidth >= 0,
    ;
    assert(s.bdp() == micros * bandwidth);
    let bdp = s.bdp() as u64;
    law_scaling_is_off_by_at_most_a_byte(gain, bdp);
    if bandwidth == 0 {
        assert(micros * 0 == 0);
        assert(scaled(gain, 0) == 0) by {
            assert(super::gain::nearest(0, 1) * 1 == 0);
            assert(super::gain::spacing(0) == 1);
            assert(super::gain::to_double(0) == 0);
            assert(gain * 0 == 0);
            let d = super::gain::UNITS_PER_BYTE as int;
            assert(super::gain::magnification(0, d) == 1);
            assert(0 * 1 == 0);
            assert(0int / d == 0 && 0int % d == 0) by (nonlinear_arith)
                requires
                    d > 0,
            ;
            assert(super::gain::nearest(0, d) == 0);
        }
    }
    let bytes = gain * bdp / 33_554_432_000_000;
    assert(bytes >= 0) by (nonlinear_arith)
        requires
            bytes == gain * bdp / 33_554_432_000_000,
    ;
}

/// While the round-trip time is probed for, the window is three quarters of the product of
/// bandwidth and delay.
pub proof fn law_probing_window_is_three_quarters(s: Bbr)
    requires
        max(s.min_rtt.micros as int, 1000) * s.max_bandwidth.max_filter.first.value <= u64::MAX,
    ensures
        ({
            let bandwidth = s.max_bandwidth.max_filter.first.value;
            let bytes = 3 * (max(s.min_rtt.micros as int, 1000) * bandwidth) / 4_000_000;
            let window = s.probe_rtt_cwnd();
            &&& bandwidth == 0 ==> window == s.init_cwnd
            &&& bytes >= 2 ==> window >= min(bytes - 1, usize::MAX as int)
            &&& bytes >= 2 ==> s.min_cwnd <= window <= max(bytes + 1, s.min_cwnd as int)
        }),
{
    law_target_is_gain_times_bandwidth_times_delay(s, 0x180_0000);
    let product = max(s.min_rtt.micros as int, 1000) * s.max_bandwidth.max_filter.first.value;
    assert(0x180_0000 * product / 33_554_432_000_000 == 3 * product / 4_000_000);
}

/// Aggregation raises the target only at full bandwidth, and then by the larger excess of both
/// windows, as far as a tenth of a second of the bandwidth allows.
pub proof fn law_target_with_aggregation(s: Bbr)
    requires
        s.ack_aggregation.wf(),
        s.max_bandwidth.max_filter.first.value / 10 <= usize::MAX,
        s.max_bandwidth.max_filter.first.value * 100_000 <= u64::MAX,
    ensures
        ({
            let excess = max(
                s.ack_aggregation.extra_acked.0 as int,
                s.ack_aggregation.extra_acked.1 as int,
            );
            let raise = if s.is_at_full_bandwidth {
                min(excess, s.max_bandwidth.max_filter.first.value as int / 10)
            } else {
                0
            };
            s.aggregated_target() == min(
                s.target_cwnd(s.cwnd_gain) + raise,
                usize::MAX as int,
            )
        }),
{
    let bw = s.max_bandwidth.max_filter.first.value;
    assert(bw * 100_000 / 1_000_000 == bw / 10);
}

// ---- The window after an ACK ----

/// What losses leave of a window: they are taken off it, down to a segment.
pub open spec fn less_losses(cwnd: int, lost: int) -> int {
    if lost == 0 {
        cwnd
    } else {
        max(cwnd - lost, 1460)
    }
}

/// The window that an ACK for `acked` bytes makes, once model and mode are known. Recovery
/// starts from what is in flight and was ACKed. Otherwise losses are taken off the window, the
/// end of recovery brings the remembered one back, and the rest is conservation, or growth by
/// what was ACKed: at full bandwidth as far as the target, before that while the window is
/// below the target or less than the initial window was ACKed in all. Without bytes ACKed, and
/// while the round-trip time is probed for, nothing of this happens.
pub proof fn law_window_that_an_ack_makes(p: Bbr, acked: usize)
    ensures
        ({
            let r = p.with_cwnd_calculated(acked);
            let recovering = p.recovery_state != RecoveryState::NotInRecovery;
            let ending = !recovering && p.prev_in_recovery;
            let lost = p.loss_state.lost_bytes;
            let conserved = min(p.bytes_in_flight + acked, usize::MAX as int);
            let base = if ending {
                max(less_losses(p.cwnd as int, lost as int), p.prior_cwnd as int)
            } else {
                less_losses(p.cwnd as int, lost as int)
            };
            let grown = min(base + acked, usize::MAX as int);
            if p.mode == Mode::ProbeRtt {
                r == p
            } else if acked == 0 {
                r == (Bbr { cwnd: max(p.cwnd as int, p.min_cwnd as int) as usize, ..p })
            } else {
                &&& r.prev_in_recovery == recovering
                &&& recovering && !p.prev_in_recovery ==> {
                    &&& r.packet_conservation
                    &&& r.cwnd == max(conserved, p.min_cwnd as int)
                    &&& r.current_round_trip_end_packet_number == min(
                        p.max_acked_packet_number + p.bytes_in_flight,
                        u64::MAX as int,
                    )
                }
                &&& !(recovering && !p.prev_in_recovery) ==> {
                    &&& r.packet_conservation == (p.packet_conservation && !ending)
                    &&& r.current_round_trip_end_packet_number
                        == p.current_round_trip_end_packet_number
                    &&& r.packet_conservation ==> r.cwnd == max(
                        max(base, conserved),
                        p.min_cwnd as int,
                    )
                    &&& !r.packet_conservation && p.is_at_full_bandwidth ==> r.cwnd == max(
                        min(grown, r.aggregated_target() as int),
                        p.min_cwnd as int,
                    )
                    &&& !r.packet_conservation && !p.is_at_full_bandwidth ==> r.cwnd == max(
                        if base < r.aggregated_target() || p.acked_bytes < p.init_cwnd {
                            grown
                        } else {
                            base
                        },
                        p.min_cwnd as int,
                    )
                }
            }
        }),
{
    let r = p.with_cwnd_calculated(acked);
    assert(r.aggregated_target() == p.with_conservation().aggregated_target());
}

/// The window to go on from, whatever is ACKed, lost and in flight: losses are taken off, down
/// to a segment, recovery starts from what is in flight and was ACKed, its end brings back the
/// remembered window, and conservation keeps it at what is in flight and was ACKed.
pub proof fn law_window_to_go_on_from(p: Bbr, acked: usize, lost: usize, in_flight: usize)
    ensures
        ({
            let recovering = p.recovery_state != RecoveryState::NotInRecovery;
            let conserved = min(in_flight + acked, usize::MAX as int);
            let left = less_losses(p.cwnd as int, lost as int);
            let cwnd = p.recovery_cwnd(acked, lost, in_flight);
            &&& recovering && !p.prev_in_recovery ==> cwnd == conserved
            &&& !recovering && p.prev_in_recovery ==> cwnd == max(left, p.prior_cwnd as int)
            &&& recovering == p.prev_in_recovery ==> cwnd == (if p.packet_conservation {
                max(left, conserved)
            } else {
                left
            })
        }),
{
}

/// A lossy ACK lowers the window by no more than the bytes reported lost, once recovery has
/// been entered: before the full bandwidth is reached not below what they leave, and then not
/// below that or the target.
pub proof fn law_lossy_ack_lowers_by_what_was_lost(
    s: Bbr,
    now: Instant,
    len: usize,
    in_flight: usize,
    rtt: RttEstimator,
)
    requires
        s.loss_state.lost_bytes > 0,
        s.prev_in_recovery,
        len > 0,
        s.with_ack(now, len, in_flight, rtt).mode != Mode::ProbeRtt,
    ensures
        ({
            let t = s.with_ack(now, len, in_flight, rtt);
            let left = s.cwnd - s.loss_state.lost_bytes;
            &&& t.packet_conservation || !t.is_at_full_bandwidth ==> t.cwnd >= left
            &&& t.cwnd >= min(left, t.aggregated_target() as int)
        }),
{
    let i = s.with_in_flight(in_flight);
    let m = i.with_model(now, len, rtt);
    let p = m.with_mode(now);
    lemma_model(i, now, len, rtt);
    lemma_mode(m, now);
    lemma_windows(p, len);
    lemma_same_target(p, len);
    law_window_that_an_ack_makes(p, len);
}

/// Outside recovery, and without losses, an ACK lowers the window only at full bandwidth, and
/// only to the target; it raises the window by what is ACKed, and by no more. Where it ends
/// probing for the round-trip time, it goes on from the larger of the window and the
/// remembered one.
pub proof fn law_lossless_ack_moves_toward_the_target(
    s: Bbr,
    now: Instant,
    len: usize,
    in_flight: usize,
    rtt: RttEstimator,
)
    requires
        s.loss_state.lost_bytes == 0,
        s.recovery_state == RecoveryState::NotInRecovery,
        !s.prev_in_recovery,
        !s.packet_conservation,
        s.with_ack(now, len, in_flight, rtt).mode != Mode::ProbeRtt,
        len > 0,
    ensures
        ({
            let t = s.with_ack(now, len, in_flight, rtt);
            let target = t.aggregated_target();
            let base = if s.mode == Mode::ProbeRtt {
                max(s.cwnd as int, s.prior_cwnd as int)
            } else {
                s.cwnd as int
            };
            let grown = min(base + len, usize::MAX as int);
            &&& !t.packet_conservation
            &&& t.is_at_full_bandwidth ==> t.cwnd == max(
                min(grown, target as int),
                s.min_cwnd as int,
            )
            &&& !t.is_at_full_bandwidth && (base < target || t.acked_bytes < s.init_cwnd)
                ==> t.cwnd == max(grown, s.min_cwnd as int)
            &&& !t.is_at_full_bandwidth && base >= target && t.acked_bytes >= s.init_cwnd
                ==> t.cwnd == max(base, s.min_cwnd as int)
        }),
{
    let i = s.with_in_flight(in_flight);
    let d = i.with_delivery(now, len, rtt);
    let m = i.with_model(now, len, rtt);
    let p = m.with_mode(now);
    lemma_delivery(i, now, len, rtt);
    lemma_model(i, now, len, rtt);
    lemma_conservation(i, now, len, rtt);
    lemma_mode(m, now);
    lemma_windows(p, len);
    lemma_same_target(p, len);
    law_window_that_an_ack_makes(p, len);
}

/// An ACK without new data only lifts the window to the minimum, except that it may find
/// recovery or probing at their end.
pub proof fn law_ack_without_data_keeps_the_window(
    s: Bbr,
    now: Instant,
    in_flight: usize,
    rtt: RttEstimator,
)
    requires
        s.mode != Mode::ProbeRtt,
        s.recovery_state == RecoveryState::NotInRecovery,
    ensures
        s.with_ack(now, 0, in_flight, rtt).cwnd == (if s.with_ack(now, 0, in_flight, rtt).mode
            == Mode::ProbeRtt {
            s.cwnd as int
        } else {
            max(s.cwnd as int, s.min_cwnd as int)
        }),
        !s.with_ack(now, 0, in_flight, rtt).round_start,
{
    let i = s.with_in_flight(in_flight);
    let m = i.with_model(now, 0, rtt);
    let p = m.with_mode(now);
    lemma_delivery(i, now, 0, rtt);
    lemma_model(i, now, 0, rtt);
    lemma_mode(m, now);
    lemma_windows(p, 0);
    law_window_that_an_ack_makes(p, 0);
}

/// While the round-trip time is probed for, the congestion window stands still.
pub proof fn law_probing_keeps_the_window(
    s: Bbr,
    now: Instant,
    len: usize,
    in_flight: usize,
    rtt: RttEstimator,
)
    requires
        s.with_ack(now, len, in_flight, rtt).mode == Mode::ProbeRtt,
        s.recovery_state == RecoveryState::NotInRecovery,
    ensures
        s.with_ack(now, len, in_flight, rtt).cwnd == s.cwnd,
{
    let i = s.with_in_flight(in_flight);
    let m = i.with_model(now, len, rtt);
    let p = m.with_mode(now);
    lemma_delivery(i, now, len, rtt);
    lemma_model(i, now, len, rtt);
    lemma_mode(m, now);
    lemma_windows(p, len);
    law_window_that_an_ack_makes(p, len);
}

// ---- Recovery ----

/// Recovery begins with conservation at the first loss, goes over to growth where a round
/// starts, and ends when a round without losses has been ACKed.
pub proof fn law_recovery_goes_from_conservation_to_growth(
    s: Bbr,
    now: Instant,
    len: usize,
    in_flight: usize,
    rtt: RttEstimator,
)
    requires
        s.acked_bytes + len + in_flight <= u64::MAX,
        s.max_acked_packet_number == s.acked_bytes,
    ensures
        ({
            let t = s.with_ack(now, len, in_flight, rtt);
            let lossy = s.loss_state.lost_bytes != 0;
            t.recovery_state == (if s.recovery_state == RecoveryState::NotInRecovery {
                if lossy {
                    RecoveryState::Conservation
                } else {
                    RecoveryState::NotInRecovery
                }
            } else if !lossy && s.acked_bytes + len > s.end_recovery_at_packet_number {
                RecoveryState::NotInRecovery
            } else if t.round_start {
                RecoveryState::Growth
            } else {
                s.recovery_state
            })
        }),
{
    let i = s.with_in_flight(in_flight);
    let d = i.with_delivery(now, len, rtt);
    let m = i.with_model(now, len, rtt);
    lemma_delivery(i, now, len, rtt);
    assert(d.max_acked_packet_number == s.acked_bytes + len);
    lemma_model(i, now, len, rtt);
    lemma_mode(m, now);
    lemma_windows(m.with_mode(now), len);
}

/// The window is remembered when the first loss starts recovery, and when probing for the
/// round-trip time begins outside recovery; at no other ACK does the remembered one change.
pub proof fn law_window_is_remembered(
    s: Bbr,
    now: Instant,
    len: usize,
    in_flight: usize,
    rtt: RttEstimator,
)
    ensures
        ({
            let t = s.with_ack(now, len, in_flight, rtt);
            let was_recovering = s.recovery_state != RecoveryState::NotInRecovery;
            let is_recovering = t.recovery_state != RecoveryState::NotInRecovery;
            &&& s.loss_state.lost_bytes != 0 && !was_recovering && s.mode != Mode::ProbeRtt
                ==> t.prior_cwnd == s.cwnd
            &&& s.mode != Mode::ProbeRtt && t.mode == Mode::ProbeRtt && !is_recovering
                ==> t.prior_cwnd == (if was_recovering {
                max(s.cwnd as int, s.prior_cwnd as int)
            } else {
                s.cwnd as int
            })
            &&& s.mode == Mode::ProbeRtt || (was_recovering && is_recovering) || (
            s.loss_state.lost_bytes == 0 && t.mode != Mode::ProbeRtt) ==> t.prior_cwnd
                == s.prior_cwnd
        }),
{
    let i = s.with_in_flight(in_flight);
    let m = i.with_model(now, len, rtt);
    let p = m.with_mode(now);
    lemma_delivery(i, now, len, rtt);
    lemma_model(i, now, len, rtt);
    lemma_mode(m, now);
    lemma_windows(p, len);
}

/// Where recovery ends, the window is at least the larger of what it was and what was
/// remembered; at full bandwidth only as far as the target. Packets are no longer conserved.
pub proof fn law_end_of_recovery_restores_the_window(
    s: Bbr,
    now: Instant,
    len: usize,
    in_flight: usize,
    rtt: RttEstimator,
)
    requires
        s.recovery_state != RecoveryState::NotInRecovery,
        s.loss_state.lost_bytes == 0,
        s.with_ack(now, len, in_flight, rtt).recovery_state == RecoveryState::NotInRecovery,
    ensures
        ({
            let t = s.with_ack(now, len, in_flight, rtt);
            let restored = max(s.cwnd as int, s.prior_cwnd as int);
            &&& !t.is_at_full_bandwidth || t.mode == Mode::ProbeRtt || len == 0 ==> t.cwnd
                >= restored
            &&& t.cwnd >= min(restored, t.aggregated_target() as int)
            &&& t.mode == Mode::ProbeRtt ==> t.cwnd == restored
            &&& t.mode != Mode::ProbeRtt && len > 0 && s.prev_in_recovery
                ==> !t.packet_conservation
        }),
{
    let i = s.with_in_flight(in_flight);
    let m = i.with_model(now, len, rtt);
    let p = m.with_mode(now);
    lemma_delivery(i, now, len, rtt);
    lemma_model(i, now, len, rtt);
    lemma_mode(m, now);
    lemma_windows(p, len);
    lemma_same_target(p, len);
    law_window_that_an_ack_makes(p, len);
}

/// Packets are conserved from the ACK that starts recovery on, until a round starts or recovery
/// ends.
pub proof fn law_packets_are_conserved_for_a_round(
    s: Bbr,
    now: Instant,
    len: usize,
    in_flight: usize,
    rtt: RttEstimator,
)
    ensures
        ({
            let t = s.with_ack(now, len, in_flight, rtt);
            let recovering = t.recovery_state != RecoveryState::NotInRecovery;
            let kept = s.packet_conservation && !t.round_start;
            t.packet_conservation == (if t.mode == Mode::ProbeRtt || len == 0 {
                kept
            } else if recovering && !s.prev_in_recovery {
                true
            } else {
                kept && (recovering || !s.prev_in_recovery)
            })
        }),
{
    let i = s.with_in_flight(in_flight);
    let m = i.with_model(now, len, rtt);
    let p = m.with_mode(now);
    lemma_model(i, now, len, rtt);
    lemma_conservation(i, now, len, rtt);
    lemma_mode(m, now);
    lemma_windows(p, len);
    law_window_that_an_ack_makes(p, len);
}

/// While packets are conserved, the window is what is in flight and was just ACKed, or what
/// losses leave of it, or the minimum, whichever is most.
pub proof fn law_conserved_window(
    s: Bbr,
    now: Instant,
    len: usize,
    in_flight: usize,
    rtt: RttEstimator,
)
    requires
        s.prev_in_recovery,
        s.mode != Mode::ProbeRtt,
        s.with_ack(now, len, in_flight, rtt).mode != Mode::ProbeRtt,
        len > 0,
        s.with_ack(now, len, in_flight, rtt).packet_conservation,
    ensures
        s.with_ack(now, len, in_flight, rtt).cwnd == max(
            max(
                min(in_flight + len, usize::MAX as int),
                less_losses(s.cwnd as int, s.loss_state.lost_bytes as int),
            ),
            s.min_cwnd as int,
        ),
{
    let i = s.with_in_flight(in_flight);
    let m = i.with_model(now, len, rtt);
    let p = m.with_mode(now);
    lemma_model(i, now, len, rtt);
    lemma_conservation(i, now, len, rtt);
    lemma_mode(m, now);
    lemma_windows(p, len);
    law_window_that_an_ack_makes(p, len);
}

/// The recovery window is set up, when recovery starts, from what is in flight and was ACKed;
/// then losses are taken off it, growth adds what is ACKed, and it never falls below that
/// start or the minimum. Outside recovery it stands still.
pub proof fn law_recovery_window(
    s: Bbr,
    now: Instant,
    len: usize,
    in_flight: usize,
    rtt: RttEstimator,
)
    ensures
        ({
            let t = s.with_ack(now, len, in_flight, rtt);
            let fresh = s.recovery_window == 0 || s.recovery_state == RecoveryState::NotInRecovery;
            let lost = s.loss_state.lost_bytes;
            let start = max(min(in_flight + len, usize::MAX as int), s.min_cwnd as int);
            let left = if s.recovery_window >= lost {
                s.recovery_window - lost
            } else {
                1460
            };
            let kept = if t.recovery_state == RecoveryState::Growth {
                min(left + len, usize::MAX as int)
            } else {
                left
            };
            t.recovery_window == (if t.recovery_state == RecoveryState::NotInRecovery {
                s.recovery_window as int
            } else if fresh {
                start
            } else {
                max(kept, start)
            })
        }),
{
    let i = s.with_in_flight(in_flight);
    let d = i.with_delivery(now, len, rtt);
    let m = i.with_model(now, len, rtt);
    let p = m.with_mode(now);
    lemma_delivery(i, now, len, rtt);
    lemma_model(i, now, len, rtt);
    assert(d.recovery_window == s.recovery_window);
    lemma_recovery_window_of_model(d);
    assert(m.recovery_window == d.with_recovery(d.round_start).recovery_window);
    lemma_mode(m, now);
    lemma_mode_keeps_recovery_window(m, now);
    lemma_windows(p, len);
    lemma_cwnd(p, len);
    let c = p.with_cwnd_calculated(len);
    assert(p.with_windows(len).recovery_window == c.with_recovery_window(
        len,
        p.loss_state.lost_bytes,
        p.bytes_in_flight,
    ).recovery_window);
}

proof fn lemma_recovery_window_of_model(d: Bbr)
    ensures
        ({
            let r = d.with_recovery(d.round_start);
            r.recovery_window == if d.recovery_state == RecoveryState::NotInRecovery
                && d.loss_state.lost_bytes != 0 {
                0
            } else {
                d.recovery_window
            }
        }),
{
}

proof fn lemma_mode_keeps_recovery_window(m: Bbr, now: Instant)
    ensures
        m.with_mode(now).recovery_window == m.recovery_window,
{
    let c = m.with_cycle(now);
    let g = c.with_growth();
    let l = g.with_startup_or_drain_left(now, m.bytes_in_flight);
    super::steps::lemma_cycle(m, now);
    super::steps::lemma_growth_step(c);
    super::steps::lemma_leaving(g, now, m.bytes_in_flight);
    super::steps::lemma_probe_rtt(l, now, m.round_start, m.bytes_in_flight);
}

/// What the model makes of conservation: it ends where a round starts.
proof fn lemma_conservation(i: Bbr, now: Instant, len: usize, rtt: RttEstimator)
    ensures
        ({
            let m = i.with_model(now, len, rtt);
            m.packet_conservation == (i.packet_conservation && !m.round_start)
        }),
{
    let d = i.with_delivery(now, len, rtt);
    lemma_delivery(i, now, len, rtt);
    assert(d.packet_conservation == (i.packet_conservation && !d.round_start));
    lemma_recovery(d);
    assert(d.with_recovery(d.round_start).packet_conservation == d.packet_conservation);
}

/// The windows leave the target alone.
proof fn lemma_same_target(p: Bbr, len: usize)
    ensures
        p.with_windows(len).aggregated_target() == p.with_cwnd_calculated(len).aggregated_target(),
        p.with_windows(len).acked_bytes == p.acked_bytes,
{
    lemma_cwnd(p, len);
    lemma_windows(p, len);
}

} // verus!
