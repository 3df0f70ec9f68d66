//! Laws of the modes, of the gain cycle and of what an ACK records, in the fields and numbers
//! that it finds and leaves.

use super::bw_estimation::BandwidthEstimation;
use super::estimation_laws::law_sampling_interval;
use super::gain::{growth_target_of, law_growth_target_is_a_quarter_more};
use super::steps::{
    lemma_cycle, lemma_delivery, lemma_growth_step, lemma_leaving, lemma_mode, lemma_model,
    lemma_probe_rtt, lemma_recovery, lemma_windows,
};
use super::window_laws::law_window_that_an_ack_makes;
use super::{Bbr, Mode, RecoveryState};
use crate::rtt::RttEstimator;
use crate::time::{Duration, Instant};
use vstd::math::max;
use vstd::prelude::*;

verus! {

// ---- Leaving STARTUP ----

/// At the start of a round, unless the application limits the flow, a bandwidth below the
/// expected growth is a round without growth: the bandwidth to be exceeded stays, the count
/// goes up by one, and the third such round in a row makes the bandwidth full.
pub proof fn law_rounds_without_growth_are_counted(
    s: Bbr,
    now: Instant,
    len: usize,
    in_flight: usize,
    rtt: RttEstimator,
)
    requires
        s.wf(),
        !s.is_at_full_bandwidth,
        !s.app_limited,
        s.with_ack(now, len, in_flight, rtt).round_start,
        s.with_ack(now, len, in_flight, rtt).max_bandwidth.max_filter.first.value
            < growth_target_of(s.bw_at_last_round),
    ensures
        ({
            let t = s.with_ack(now, len, in_flight, rtt);
            &&& t.bw_at_last_round == s.bw_at_last_round
            &&& t.round_wo_bw_gain == s.round_wo_bw_gain + 1
            &&& t.is_at_full_bandwidth <==> s.round_wo_bw_gain + 1 >= 3
        }),
{
    lemma_growth_of_ack(s, now, len, in_flight, rtt);
}

/// At the start of a round, unless the application limits the flow, a bandwidth that has grown
/// as expected becomes the one to be exceeded, the count of rounds without growth starts anew,
/// and so does the tracking of aggregation.
pub proof fn law_growth_starts_the_count_anew(
    s: Bbr,
    now: Instant,
    len: usize,
    in_flight: usize,
    rtt: RttEstimator,
)
    requires
        !s.is_at_full_bandwidth,
        !s.app_limited,
        s.with_ack(now, len, in_flight, rtt).round_start,
        s.with_ack(now, len, in_flight, rtt).max_bandwidth.max_filter.first.value
            >= growth_target_of(s.bw_at_last_round),
    ensures
        ({
            let t = s.with_ack(now, len, in_flight, rtt);
            &&& t.bw_at_last_round == t.max_bandwidth.max_filter.first.value
            &&& t.round_wo_bw_gain == 0
            &&& !t.is_at_full_bandwidth
            &&& t.ack_aggregation.extra_acked == (0u64, 0u64)
            &&& t.ack_aggregation.extra_acked_win_rtts == 0
        }),
{
    lemma_growth_of_ack(s, now, len, in_flight, rtt);
}

/// Within a round, while the application limits the flow, and once the bandwidth is full,
/// growth is not looked at.
pub proof fn law_growth_is_looked_at_once_a_round(
    s: Bbr,
    now: Instant,
    len: usize,
    in_flight: usize,
    rtt: RttEstimator,
)
    requires
        s.is_at_full_bandwidth || s.app_limited || !s.with_ack(
            now,
            len,
            in_flight,
            rtt,
        ).round_start,
    ensures
        ({
            let t = s.with_ack(now, len, in_flight, rtt);
            &&& t.bw_at_last_round == s.bw_at_last_round
            &&& t.round_wo_bw_gain == s.round_wo_bw_gain
            &&& t.is_at_full_bandwidth == s.is_at_full_bandwidth
        }),
{
    lemma_growth_of_ack(s, now, len, in_flight, rtt);
}

/// In plain numbers: a bandwidth clearly below five quarters of the one to be exceeded has not
/// grown as expected, one clearly above them has.
pub proof fn law_growth_is_by_a_quarter(bandwidth: u64, last: u64)
    requires
        last < 0x4_0000_0000_0000,
    ensures
        4 * bandwidth + 8 <= 5 * last ==> bandwidth < growth_target_of(last),
        4 * bandwidth >= 5 * last + 4 ==> bandwidth >= growth_target_of(last),
        last == 0 ==> bandwidth >= growth_target_of(last),
{
    law_growth_target_is_a_quarter_more(last);
}

proof fn lemma_growth_of_ack(
    s: Bbr,
    now: Instant,
    len: usize,
    in_flight: usize,
    rtt: RttEstimator,
)
    ensures
        ({
            let t = s.with_ack(now, len, in_flight, rtt);
            let m = s.with_in_flight(in_flight).with_model(now, len, rtt);
            let g = m.with_growth();
            &&& t.bw_at_last_round == g.bw_at_last_round
            &&& t.round_wo_bw_gain == g.round_wo_bw_gain
            &&& t.is_at_full_bandwidth == g.is_at_full_bandwidth
            &&& t.ack_aggregation == g.ack_aggregation
            &&& t.max_bandwidth == m.max_bandwidth
            &&& t.round_start == m.round_start
            &&& m.app_limited == s.app_limited
            &&& m.is_at_full_bandwidth == s.is_at_full_bandwidth
            &&& m.bw_at_last_round == s.bw_at_last_round
            &&& m.round_wo_bw_gain == s.round_wo_bw_gain
        }),
{
    let i = s.with_in_flight(in_flight);
    let m = i.with_model(now, len, rtt);
    let p = m.with_mode(now);
    let c = m.with_cycle(now);
    let g = c.with_growth();
    let l = g.with_startup_or_drain_left(now, m.bytes_in_flight);
    lemma_model(i, now, len, rtt);
    lemma_cycle(m, now);
    lemma_growth_step(c);
    assert(g.bw_at_last_round == m.with_growth().bw_at_last_round);
    assert(g.ack_aggregation == m.with_growth().ack_aggregation);
    lemma_leaving(g, now, m.bytes_in_flight);
    lemma_probe_rtt(l, now, m.round_start, m.bytes_in_flight);
    lemma_mode(m, now);
    lemma_windows(p, len);
}

// ---- STARTUP, DRAIN and probing for bandwidth ----

/// STARTUP goes on until the bandwidth is full. DRAIN then lasts while more is in flight than
/// the product of bandwidth and delay, and gives way to probing for bandwidth, which goes on.
pub proof fn law_modes_give_way(
    s: Bbr,
    now: Instant,
    len: usize,
    in_flight: usize,
    rtt: RttEstimator,
)
    requires
        s.mode != Mode::ProbeRtt,
        s.with_ack(now, len, in_flight, rtt).mode != Mode::ProbeRtt,
    ensures
        ({
            let t = s.with_ack(now, len, in_flight, rtt);
            let drained = in_flight <= t.target_cwnd(0x200_0000);
            &&& t.mode == (match s.mode {
                Mode::Startup => if !t.is_at_full_bandwidth {
                    Mode::Startup
                } else if drained {
                    Mode::ProbeBw
                } else {
                    Mode::Drain
                },
                Mode::Drain => if drained {
                    Mode::ProbeBw
                } else {
                    Mode::Drain
                },
                _ => Mode::ProbeBw,
            })
            &&& t.mode == s.mode && s.mode != Mode::ProbeBw ==> t.pacing_gain == s.pacing_gain
                && t.last_cycle_start == s.last_cycle_start && t.current_cycle_offset
                == s.current_cycle_offset
            &&& t.mode == s.mode ==> t.cwnd_gain == s.cwnd_gain && t.rng_state == s.rng_state
            &&& s.mode == Mode::Startup && t.mode == Mode::Drain ==> t.pacing_gain == s.drain_gain
                && t.cwnd_gain == s.high_cwnd_gain
            &&& s.mode != Mode::ProbeBw && t.mode == Mode::ProbeBw ==> probing_begins(s, t, now)
        }),
{
    lemma_modes_of_ack(s, now, len, in_flight, rtt);
    let m = s.with_in_flight(in_flight).with_model(now, len, rtt);
    let c = m.with_cycle(now);
    let g = c.with_growth();
    let l = g.with_startup_or_drain_left(now, in_flight);
    lemma_cycle(m, now);
    lemma_cycle_outside(m, now);
    lemma_growth_step(c);
    lemma_leaving(g, now, in_flight);
    lemma_leaving_table(g, now, in_flight);
    lemma_unprobed(l, now, m.round_start, in_flight);
}

proof fn lemma_cycle_outside(m: Bbr, now: Instant)
    ensures
        m.mode != Mode::ProbeBw ==> m.with_cycle(now) == m,
{
}

/// Where neither before nor afterwards the round-trip time is probed for, that step does
/// nothing.
proof fn lemma_unprobed(l: Bbr, now: Instant, round_start: bool, in_flight: usize)
    requires
        l.mode != Mode::ProbeRtt,
    ensures
        l.with_probe_rtt(now, round_start, in_flight).mode != Mode::ProbeRtt ==> l.with_probe_rtt(
            now,
            round_start,
            in_flight,
        ) == l,
{
}

proof fn lemma_leaving_table(g: Bbr, now: Instant, in_flight: usize)
    ensures
        ({
            let l = g.with_startup_or_drain_left(now, in_flight);
            let drained = in_flight <= g.target_cwnd(0x200_0000);
            let leaves = g.mode == Mode::Startup && g.is_at_full_bandwidth;
            &&& (leaves || g.mode == Mode::Drain) && drained ==> l.mode == Mode::ProbeBw
                && probing_begins(g, l, now)
            &&& leaves && !drained ==> l.mode == Mode::Drain && l.pacing_gain == g.drain_gain
                && l.cwnd_gain == g.high_cwnd_gain && l.rng_state == g.rng_state
            &&& !leaves && !(g.mode == Mode::Drain && drained) ==> l == g
        }),
{
    let s = if g.leaves_startup() {
        Bbr {
            mode: Mode::Drain,
            pacing_gain: g.drain_gain,
            cwnd_gain: g.high_cwnd_gain,
            ..g
        }
    } else {
        g
    };
    assert(s.target_cwnd(0x200_0000) == g.target_cwnd(0x200_0000));
}

/// Probing for bandwidth begins: the window gain is 2, the next random number picks the phase
/// out of 0 and 2 to 7, and the pacing gain is that of the phase.
pub open spec fn probing_begins(s: Bbr, t: Bbr, now: Instant) -> bool {
    let random = (s.rng_state * 1_103_515_245 + 12_345) % 0x1_0000_0000;
    let pick = random / 65_536 % 7;
    &&& t.rng_state == random
    &&& t.current_cycle_offset == if pick == 0 {
        0
    } else {
        pick + 1
    }
    &&& t.pacing_gain == if t.current_cycle_offset == 0 {
        0x280_0000u32
    } else {
        0x200_0000
    }
    &&& t.cwnd_gain == 0x400_0000
    &&& t.last_cycle_start == Some(now)
}

proof fn lemma_modes_of_ack(
    s: Bbr,
    now: Instant,
    len: usize,
    in_flight: usize,
    rtt: RttEstimator,
)
    ensures
        ({
            let t = s.with_ack(now, len, in_flight, rtt);
            let i = s.with_in_flight(in_flight);
            let m = i.with_model(now, len, rtt);
            let g = m.with_cycle(now).with_growth();
            let l = g.with_startup_or_drain_left(now, in_flight);
            let p = l.with_probe_rtt(now, m.round_start, in_flight);
            &&& m == (Bbr {
                mode: s.mode,
                pacing_gain: s.pacing_gain,
                cwnd_gain: s.cwnd_gain,
                high_gain: s.high_gain,
                drain_gain: s.drain_gain,
                high_cwnd_gain: s.high_cwnd_gain,
                last_cycle_start: s.last_cycle_start,
                current_cycle_offset: s.current_cycle_offset,
                rng_state: s.rng_state,
                prev_in_flight_count: s.prev_in_flight_count,
                loss_state: s.loss_state,
                exit_probe_rtt_at: s.exit_probe_rtt_at,
                probe_rtt_last_started_at: s.probe_rtt_last_started_at,
                app_limited: s.app_limited,
                idle_restart: s.idle_restart,
                ..m
            })
            &&& t == (Bbr {
                mode: p.mode,
                pacing_gain: p.pacing_gain,
                cwnd_gain: p.cwnd_gain,
                last_cycle_start: p.last_cycle_start,
                current_cycle_offset: p.current_cycle_offset,
                rng_state: p.rng_state,
                is_at_full_bandwidth: g.is_at_full_bandwidth,
                exit_probe_rtt_at: p.exit_probe_rtt_at,
                probe_rtt_last_started_at: p.probe_rtt_last_started_at,
                ..t
            })
            &&& g.is_at_full_bandwidth == l.is_at_full_bandwidth
            &&& t.round_start == m.round_start
            &&& forall|gain: u32| #[trigger] t.target_cwnd(gain) == m.target_cwnd(gain)
            &&& forall|gain: u32| #[trigger] l.target_cwnd(gain) == m.target_cwnd(gain)
            &&& forall|gain: u32| #[trigger] g.target_cwnd(gain) == m.target_cwnd(gain)
            &&& m.min_rtt == t.min_rtt
        }),
{
    let i = s.with_in_flight(in_flight);
    let d = i.with_delivery(now, len, rtt);
    let m = i.with_model(now, len, rtt);
    let p = m.with_mode(now);
    let c = m.with_cycle(now);
    let g = c.with_growth();
    let l = g.with_startup_or_drain_left(now, m.bytes_in_flight);
    lemma_model(i, now, len, rtt);
    lemma_model_gains(s, now, len, in_flight, rtt);
    lemma_cycle(m, now);
    lemma_growth_step(c);
    lemma_leaving(g, now, m.bytes_in_flight);
    lemma_probe_rtt(l, now, m.round_start, m.bytes_in_flight);
    lemma_windows(p, len);
}

proof fn lemma_model_gains(
    s: Bbr,
    now: Instant,
    len: usize,
    in_flight: usize,
    rtt: RttEstimator,
)
    ensures
        ({
            let m = s.with_in_flight(in_flight).with_model(now, len, rtt);
            &&& m.pacing_gain == s.pacing_gain
            &&& m.cwnd_gain == s.cwnd_gain
            &&& m.high_gain == s.high_gain
            &&& m.drain_gain == s.drain_gain
            &&& m.high_cwnd_gain == s.high_cwnd_gain
            &&& m.last_cycle_start == s.last_cycle_start
            &&& m.current_cycle_offset == s.current_cycle_offset
            &&& m.rng_state == s.rng_state
            &&& m.prev_in_flight_count == s.prev_in_flight_count
        }),
{
    let i = s.with_in_flight(in_flight);
    let d = i.with_delivery(now, len, rtt);
    assert(d.pacing_gain == s.pacing_gain);
    assert(d.rng_state == s.rng_state);
}

// ---- The gain cycle ----

/// While probing for bandwidth, the cycle moves on to the next of its eight phases when a
/// round-trip time has passed. A raised gain is not given up before it has filled the pipe,
/// unless there are losses; a lowered one is given up as soon as the queue is drained, and not
/// for the neutral one before.
pub proof fn law_gain_cycle(
    s: Bbr,
    now: Instant,
    len: usize,
    in_flight: usize,
    rtt: RttEstimator,
)
    requires
        s.mode == Mode::ProbeBw,
        s.with_ack(now, len, in_flight, rtt).mode == Mode::ProbeBw,
        s.current_cycle_offset < 8,
    ensures
        ({
            let t = s.with_ack(now, len, in_flight, rtt);
            let passed = s.last_cycle_start matches Some(start) && now.micros > start.micros
                && now.micros - start.micros > t.min_rtt.micros;
            let raised = s.pacing_gain > 0x200_0000;
            let lowered = s.pacing_gain < 0x200_0000;
            let filled = s.prev_in_flight_count >= t.target_cwnd(s.pacing_gain);
            let drained = in_flight <= t.target_cwnd(0x200_0000);
            let moves = if lowered {
                passed || drained
            } else if raised {
                passed && (filled || s.loss_state.lost_bytes != 0)
            } else {
                passed
            };
            &&& !moves ==> t.current_cycle_offset == s.current_cycle_offset && t.last_cycle_start
                == s.last_cycle_start && t.pacing_gain == s.pacing_gain
            &&& moves ==> t.last_cycle_start == Some(now)
            &&& moves ==> t.current_cycle_offset == (if s.current_cycle_offset == 7 {
                0int
            } else {
                s.current_cycle_offset + 1
            })
            &&& moves ==> t.pacing_gain == (if t.current_cycle_offset == 0 {
                0x280_0000
            } else if t.current_cycle_offset == 1 {
                0x180_0000
            } else if lowered && !drained {
                s.pacing_gain
            } else {
                0x200_0000
            })
        }),
{
    lemma_modes_of_ack(s, now, len, in_flight, rtt);
    let m = s.with_in_flight(in_flight).with_model(now, len, rtt);
    let c = m.with_cycle(now);
    let g = c.with_growth();
    lemma_growth_step(c);
    assert(m.bytes_in_flight == in_flight) by {
        lemma_model(s.with_in_flight(in_flight), now, len, rtt);
    }
}

// ---- Probing for the round-trip time ----

/// Probing for the round-trip time begins exactly when it was last begun more than ten seconds
/// ago, or never, the application does not limit the flow and no restart from idle is under
/// way. The pacing gain is then 1, and the beginning is recorded.
pub proof fn law_probing_the_round_trip_time_begins(
    s: Bbr,
    now: Instant,
    len: usize,
    in_flight: usize,
    rtt: RttEstimator,
)
    requires
        s.mode != Mode::ProbeRtt,
    ensures
        ({
            let t = s.with_ack(now, len, in_flight, rtt);
            &&& t.mode == Mode::ProbeRtt <==> !s.app_limited && !s.idle_restart && match
                s.probe_rtt_last_started_at {
                Some(last) => now.micros - last.micros > 10_000_000,
                None => true,
            }
            &&& t.mode == Mode::ProbeRtt ==> t.pacing_gain == 0x200_0000
                && t.probe_rtt_last_started_at == Some(now) && time_to_leave(t, None, now, in_flight)
            &&& t.mode != Mode::ProbeRtt ==> t.probe_rtt_last_started_at
                == s.probe_rtt_last_started_at && t.exit_probe_rtt_at == s.exit_probe_rtt_at
        }),
{
    lemma_modes_of_ack(s, now, len, in_flight, rtt);
    lemma_entry(s, now, len, in_flight, rtt);
}

/// The time to leave is fixed, 200 ms ahead, as soon as less is in flight than the window of
/// probing and a segment; what was fixed before stays.
pub open spec fn time_to_leave(
    t: Bbr,
    before: Option<Instant>,
    now: Instant,
    in_flight: usize,
) -> bool {
    match before {
        Some(exit) => t.exit_probe_rtt_at == Some(exit),
        None => if in_flight < t.target_cwnd(0x180_0000) + 1460 {
            now.micros + 200_000 <= i64::MAX ==> t.exit_probe_rtt_at == Some(
                Instant { micros: (now.micros + 200_000) as i64 },
            )
        } else {
            t.exit_probe_rtt_at is None
        },
    }
}

/// Probing for the round-trip time ends with the first ACK that starts a round at or after the
/// time to leave: with STARTUP and its gains, or at full bandwidth with probing for bandwidth.
/// Until then it goes on.
pub proof fn law_probing_the_round_trip_time_ends(
    s: Bbr,
    now: Instant,
    len: usize,
    in_flight: usize,
    rtt: RttEstimator,
)
    requires
        s.mode == Mode::ProbeRtt,
    ensures
        ({
            let t = s.with_ack(now, len, in_flight, rtt);
            let over = s.exit_probe_rtt_at matches Some(exit) && now.micros >= exit.micros
                && t.round_start;
            &&& t.mode == (if !over {
                Mode::ProbeRtt
            } else if t.is_at_full_bandwidth {
                Mode::ProbeBw
            } else {
                Mode::Startup
            })
            &&& t.probe_rtt_last_started_at == s.probe_rtt_last_started_at
            &&& time_to_leave(t, s.exit_probe_rtt_at, now, in_flight)
            &&& t.mode == Mode::ProbeRtt ==> t.pacing_gain == s.pacing_gain && t.cwnd_gain
                == s.cwnd_gain && t.rng_state == s.rng_state
            &&& t.mode == Mode::Startup ==> t.pacing_gain == s.high_gain && t.cwnd_gain
                == s.high_cwnd_gain
            &&& t.mode == Mode::ProbeBw ==> probing_begins(s, t, now)
        }),
{
    lemma_modes_of_ack(s, now, len, in_flight, rtt);
    lemma_entry(s, now, len, in_flight, rtt);
}

proof fn lemma_entry(s: Bbr, now: Instant, len: usize, in_flight: usize, rtt: RttEstimator)
    ensures
        ({
            let m = s.with_in_flight(in_flight).with_model(now, len, rtt);
            let g = m.with_cycle(now).with_growth();
            let l = g.with_startup_or_drain_left(now, in_flight);
            let e = l.with_probe_rtt_entered(now);
            &&& e.probe_rtt_cwnd() == m.target_cwnd(0x180_0000)
            &&& l.app_limited == s.app_limited
            &&& l.idle_restart == s.idle_restart
            &&& l.probe_rtt_last_started_at == s.probe_rtt_last_started_at
            &&& l.exit_probe_rtt_at == s.exit_probe_rtt_at
            &&& s.mode == Mode::ProbeRtt ==> l.mode == Mode::ProbeRtt && l.pacing_gain
                == s.pacing_gain && l.cwnd_gain == s.cwnd_gain && l.rng_state == s.rng_state
                && l.high_gain == s.high_gain && l.high_cwnd_gain == s.high_cwnd_gain
            &&& s.mode != Mode::ProbeRtt ==> l.mode != Mode::ProbeRtt
        }),
{
    lemma_modes_of_ack(s, now, len, in_flight, rtt);
    let m = s.with_in_flight(in_flight).with_model(now, len, rtt);
    let c = m.with_cycle(now);
    let g = c.with_growth();
    lemma_cycle(m, now);
    lemma_growth_step(c);
    lemma_leaving(g, now, in_flight);
}

// ---- What an ACK records ----

/// What an ACK counts and records, and what it leaves alone.
pub proof fn law_ack_is_recorded(
    s: Bbr,
    now: Instant,
    len: usize,
    in_flight: usize,
    rtt: RttEstimator,
)
    requires
        s.acked_bytes + len <= u64::MAX,
        s.max_bandwidth.total_acked == s.acked_bytes,
        s.max_acked_packet_number == s.acked_bytes,
    ensures
        ({
            let t = s.with_ack(now, len, in_flight, rtt);
            &&& t.acked_bytes == s.acked_bytes + len
            &&& t.max_acked_packet_number == s.acked_bytes + len
            &&& t.max_bandwidth.total_acked == s.acked_bytes + len
            &&& t.max_bandwidth.prev_total_acked == s.acked_bytes
            &&& t.max_bandwidth.acked_at_last_window == s.acked_bytes + len
            &&& t.max_bandwidth.acked_time == Some(now)
            &&& t.max_bandwidth.prev_acked_time == s.max_bandwidth.acked_time
            &&& t.max_bandwidth.sample_interval.micros == max(rtt.min.micros as int, 1000)
            &&& t.max_bandwidth.total_sent == s.max_bandwidth.total_sent
            &&& t.max_bandwidth.prev_total_sent == s.max_bandwidth.prev_total_sent
            &&& t.max_bandwidth.sent_time == s.max_bandwidth.sent_time
            &&& t.max_bandwidth.prev_sent_time == s.max_bandwidth.prev_sent_time
            &&& t.bytes_in_flight == in_flight
            &&& t.prev_in_flight_count == in_flight
            &&& t.loss_state.lost_bytes == 0
            &&& t.app_limited == s.app_limited
            &&& t.max_sent_packet_number == s.max_sent_packet_number
            &&& t.high_gain == s.high_gain
            &&& t.drain_gain == s.drain_gain
            &&& t.high_cwnd_gain == s.high_cwnd_gain
            &&& t.min_rtt.micros == (if s.min_rtt.micros == 0 || rtt.min.micros
                < s.min_rtt.micros {
                rtt.min.micros
            } else {
                s.min_rtt.micros
            })
        }),
{
    let i = s.with_in_flight(in_flight);
    let d = i.with_delivery(now, len, rtt);
    let m = i.with_model(now, len, rtt);
    let p = m.with_mode(now);
    lemma_model(i, now, len, rtt);
    lemma_model_gains(s, now, len, in_flight, rtt);
    assert(d.acked_bytes == s.acked_bytes + len);
    assert(d.max_acked_packet_number == s.acked_bytes + len);
    assert(d.max_sent_packet_number == s.max_sent_packet_number);
    lemma_counts(d);
    lemma_mode_counts(m, now);
    lemma_mode(m, now);
    lemma_windows(p, len);
}

/// The bandwidth is estimated from every ACK, with the sampling interval of the moment, as part
/// of the round that the ACK finds.
pub proof fn law_ack_feeds_the_estimation(
    s: Bbr,
    now: Instant,
    len: usize,
    in_flight: usize,
    rtt: RttEstimator,
)
    ensures
        ({
            let t = s.with_ack(now, len, in_flight, rtt);
            let e = BandwidthEstimation {
                sample_interval: Duration {
                    micros: if rtt.min.micros >= 1000 {
                        rtt.min.micros
                    } else {
                        1000
                    },
                },
                ..s.max_bandwidth
            };
            let fed = e.with_ack(now, len as u64, s.round_count, s.app_limited);
            &&& t.max_bandwidth.max_filter == fed.max_filter
            &&& t.max_bandwidth.interval_start == fed.interval_start
        }),
{
    let i = s.with_in_flight(in_flight);
    let m = i.with_model(now, len, rtt);
    lemma_model(i, now, len, rtt);
    lemma_mode(m, now);
    lemma_windows(m.with_mode(now), len);
    law_sampling_interval(i, rtt);
}

/// Aggregation is tracked from every ACK, held against the bandwidth that it leads to and the
/// window of the moment. Growth of the bandwidth empties what was tracked, but not the epoch.
pub proof fn law_ack_feeds_the_aggregation(
    s: Bbr,
    now: Instant,
    len: usize,
    in_flight: usize,
    rtt: RttEstimator,
)
    requires
        s.recovery_state == RecoveryState::NotInRecovery,
    ensures
        ({
            let t = s.with_ack(now, len, in_flight, rtt);
            let bandwidth = t.max_bandwidth.max_filter.first.value;
            let fed = s.ack_aggregation.with_acked(
                len as u64,
                now,
                t.round_start,
                bandwidth,
                s.cwnd,
            );
            let grows = !s.is_at_full_bandwidth && !s.app_limited && t.round_start && bandwidth
                >= growth_target_of(s.bw_at_last_round);
            &&& t.ack_aggregation.ack_epoch_mstamp == fed.ack_epoch_mstamp
            &&& t.ack_aggregation.ack_epoch_acked == fed.ack_epoch_acked
            &&& t.ack_aggregation.extra_acked_win_idx == fed.extra_acked_win_idx
            &&& !grows ==> t.ack_aggregation == fed
            &&& grows ==> t.ack_aggregation.extra_acked == (0u64, 0u64)
                && t.ack_aggregation.extra_acked_win_rtts == 0
        }),
{
    let i = s.with_in_flight(in_flight);
    let d = i.with_delivery(now, len, rtt);
    let m = i.with_model(now, len, rtt);
    lemma_delivery(i, now, len, rtt);
    lemma_model(i, now, len, rtt);
    lemma_growth_of_ack(s, now, len, in_flight, rtt);
    super::model::lemma_delivery_keeps(i, now, len, rtt);
    super::model::lemma_recovery_keeps(d, d.round_start);
    let r = d.with_recovery(d.round_start);
    lemma_recovery(d);
    assert(r.cwnd == s.cwnd);
    assert(m.ack_aggregation == s.ack_aggregation.with_acked(
        len as u64,
        now,
        m.round_start,
        m.estimate(),
        s.cwnd,
    ));
}

/// The end of a round is marked, at what has been ACKed and all that is in flight, where a round
/// starts and where losses start recovery; at other ACKs that find the window informed of
/// recovery the mark stays.
pub proof fn law_round_mark(
    s: Bbr,
    now: Instant,
    len: usize,
    in_flight: usize,
    rtt: RttEstimator,
)
    requires
        s.acked_bytes + len + in_flight <= u64::MAX,
        s.max_acked_packet_number == s.acked_bytes,
    ensures
        ({
            let t = s.with_ack(now, len, in_flight, rtt);
            let recovering = t.recovery_state != RecoveryState::NotInRecovery;
            let enters = s.recovery_state == RecoveryState::NotInRecovery
                && s.loss_state.lost_bytes != 0;
            let informs = recovering && !s.prev_in_recovery && t.mode != Mode::ProbeRtt && len > 0;
            t.current_round_trip_end_packet_number == (if t.round_start || enters || informs {
                s.acked_bytes + len + in_flight
            } else {
                s.current_round_trip_end_packet_number as int
            })
        }),
{
    let i = s.with_in_flight(in_flight);
    let d = i.with_delivery(now, len, rtt);
    let m = i.with_model(now, len, rtt);
    let p = m.with_mode(now);
    lemma_delivery(i, now, len, rtt);
    lemma_model(i, now, len, rtt);
    assert(d.max_acked_packet_number == s.acked_bytes + len);
    assert(d.current_round_trip_end_packet_number == if d.round_start {
        d.round_end()
    } else {
        s.current_round_trip_end_packet_number
    });
    lemma_counts(d);
    lemma_mark(d);
    lemma_mode(m, now);
    lemma_windows(p, len);
    law_window_that_an_ack_makes(p, len);
    let c = p.with_cwnd_calculated(len);
    assert(p.with_windows(len).current_round_trip_end_packet_number
        == c.current_round_trip_end_packet_number);
}

proof fn lemma_mark(d: Bbr)
    ensures
        d.with_recovery(d.round_start).current_round_trip_end_packet_number == if d.recovery_state
            == RecoveryState::NotInRecovery && d.loss_state.lost_bytes != 0 {
            d.round_end()
        } else {
            d.current_round_trip_end_packet_number
        },
{
}

proof fn lemma_counts(d: Bbr)
    ensures
        d.with_recovery(d.round_start).acked_bytes == d.acked_bytes,
        d.with_recovery(d.round_start).max_acked_packet_number == d.max_acked_packet_number,
        d.with_recovery(d.round_start).max_sent_packet_number == d.max_sent_packet_number,
{
}

proof fn lemma_mode_counts(m: Bbr, now: Instant)
    ensures
        m.with_mode(now).acked_bytes == m.acked_bytes,
        m.with_mode(now).max_sent_packet_number == m.max_sent_packet_number,
        m.with_mode(now).high_gain == m.high_gain,
        m.with_mode(now).drain_gain == m.drain_gain,
        m.with_mode(now).high_cwnd_gain == m.high_cwnd_gain,
{
    let c = m.with_cycle(now);
    let g = c.with_growth();
    let l = g.with_startup_or_drain_left(now, m.bytes_in_flight);
    lemma_cycle(m, now);
    lemma_growth_step(c);
    lemma_leaving(g, now, m.bytes_in_flight);
    lemma_probe_rtt(l, now, m.round_start, m.bytes_in_flight);
}

// ---- Other events ----

/// The application limits the flow exactly when it has less to send than the window holds: the
/// smaller of the congestion window and the peer's, and while the round-trip time is probed for
/// of the window of probing too. Data after such a time restarts from idle, with a new epoch of
/// aggregation. Nothing else changes.
pub proof fn law_application_limits_what_does_not_fill_the_window(
    s: Bbr,
    now: Instant,
    bytes_available: usize,
)
    ensures
        ({
            let t = s.with_send_ready(now, bytes_available);
            let restarts = s.app_limited && bytes_available > 0;
            &&& t.app_limited <==> bytes_available < s.effective_window()
            &&& t.app_limited <==> bytes_available < s.cwnd && bytes_available < s.rwnd && (s.mode
                == Mode::ProbeRtt ==> bytes_available < s.target_cwnd(0x180_0000))
            &&& t.idle_restart == (s.idle_restart || restarts)
            &&& restarts ==> t.ack_aggregation.ack_epoch_mstamp == Some(now)
                && t.ack_aggregation.ack_epoch_acked == 0 && t.ack_aggregation.extra_acked
                == s.ack_aggregation.extra_acked && t.ack_aggregation.extra_acked_win_idx
                == s.ack_aggregation.extra_acked_win_idx && t.ack_aggregation.extra_acked_win_rtts
                == s.ack_aggregation.extra_acked_win_rtts
            &&& !restarts ==> t.ack_aggregation == s.ack_aggregation
            &&& t == (Bbr {
                app_limited: t.app_limited,
                idle_restart: t.idle_restart,
                ack_aggregation: t.ack_aggregation,
                ..s
            })
        }),
{
}

/// The window is the smallest of the congestion window, the peer's and, while the round-trip
/// time is probed for, the window of probing.
pub proof fn law_window_is_the_smallest(s: Bbr, n: int)
    ensures
        n <= s.effective_window() <==> n <= s.cwnd && n <= s.rwnd && (s.mode == Mode::ProbeRtt
            ==> n <= s.target_cwnd(0x180_0000)),
{
}

/// A loss and a duplicate ACK count as one, and change nothing else.
pub proof fn law_loss_is_counted(s: Bbr)
    ensures
        s.with_loss() == (Bbr { loss_state: s.with_loss().loss_state, ..s }),
        s.loss_state.lost_bytes < usize::MAX ==> s.with_loss().loss_state.lost_bytes
            == s.loss_state.lost_bytes + 1,
        s.loss_state.lost_bytes == usize::MAX ==> s.with_loss().loss_state.lost_bytes
            == usize::MAX,
{
}

/// A timeout sets the window and the remembered one to the minimum, ends conservation, counts
/// as a loss, and changes nothing else.
pub proof fn law_timeout(s: Bbr)
    ensures
        s.with_rto() == (Bbr {
            cwnd: s.min_cwnd,
            prior_cwnd: s.min_cwnd,
            packet_conservation: false,
            loss_state: s.with_loss().loss_state,
            ..s
        }),
{
}

/// The minimum window is two segments, and the window is raised to it.
pub proof fn law_segment_size(s: Bbr, mss: usize)
    requires
        mss + mss <= usize::MAX,
    ensures
        ({
            let t = s.with_mss(mss);
            &&& t.min_cwnd == mss + mss
            &&& t.cwnd == max(s.cwnd as int, mss + mss)
            &&& t == (Bbr { min_cwnd: t.min_cwnd, cwnd: t.cwnd, ..s })
        }),
{
}

/// A transmission is counted, with its bytes and its time, and changes nothing else.
pub proof fn law_transmission_is_counted(s: Bbr, now: Instant, len: usize)
    requires
        s.max_sent_packet_number < u64::MAX,
        s.max_bandwidth.total_sent + len <= u64::MAX,
    ensures
        ({
            let t = s.with_transmit(now, len);
            &&& t.max_sent_packet_number == s.max_sent_packet_number + 1
            &&& t.max_bandwidth.total_sent == s.max_bandwidth.total_sent + len
            &&& t.max_bandwidth.prev_total_sent == s.max_bandwidth.total_sent
            &&& t.max_bandwidth.sent_time == Some(now)
            &&& t.max_bandwidth.prev_sent_time == s.max_bandwidth.sent_time
            &&& t.max_bandwidth.max_filter == s.max_bandwidth.max_filter
            &&& t.max_bandwidth.total_acked == s.max_bandwidth.total_acked
            &&& t.max_bandwidth.interval_start == s.max_bandwidth.interval_start
            &&& t.max_bandwidth.acked_at_last_window == s.max_bandwidth.acked_at_last_window
            &&& t.max_bandwidth.sample_interval == s.max_bandwidth.sample_interval
            &&& t == (Bbr {
                max_sent_packet_number: t.max_sent_packet_number,
                max_bandwidth: t.max_bandwidth,
                ..s
            })
        }),
{
}

/// What a fresh controller holds.
pub proof fn law_fresh_controller()
    ensures
        ({
            let s = Bbr::initial();
            &&& s.mode == Mode::Startup
            &&& s.recovery_state == RecoveryState::NotInRecovery
            &&& s.cwnd == 10_240 && s.init_cwnd == 10_240 && s.prior_cwnd == 10_240
            &&& s.min_cwnd == 2048 && s.rwnd == 65_536
            &&& s.high_gain == 96_804_536 && s.high_cwnd_gain == 96_804_536
            &&& s.pacing_gain == 96_804_536 && s.cwnd_gain == 96_804_536
            &&& s.drain_gain == 11_630_652
            &&& s.rng_state == 12_345
            &&& s.max_bandwidth.max_filter.window == 10
            &&& s.max_bandwidth.max_filter.first.value == 0
            &&& s.max_bandwidth.sample_interval.micros == 1000
            &&& s.max_bandwidth.interval_start is None
            &&& s.acked_bytes == 0 && s.round_count == 0 && s.bw_at_last_round == 0
            &&& s.round_wo_bw_gain == 0 && s.min_rtt.micros == 0
            &&& !s.is_at_full_bandwidth && !s.app_limited && !s.idle_restart
            &&& !s.packet_conservation && !s.prev_in_recovery && !s.round_start
            &&& s.last_cycle_start is None && s.probe_rtt_last_started_at is None
            &&& s.exit_probe_rtt_at is None && s.loss_state.lost_bytes == 0
            &&& s.ack_aggregation.extra_acked == (0u64, 0u64)
            &&& s.ack_aggregation.ack_epoch_mstamp is None
            &&& s.ack_aggregation.ack_epoch_acked == 0
        }),
{
}

} // verus!
