//! What each step of the controller changes, and what it leaves alone.

use super::laws::{conserving, modes_in_order};
use super::model::larger;
use super::{Bbr, LossState, Mode, MAX_SEGMENT_SIZE};
use crate::rtt::RttEstimator;
use crate::time::Instant;
use vstd::prelude::*;

verus! {

/// What of the state the model leaves alone, and what recovery makes of the windows.
pub proof fn lemma_model(i: Bbr, now: Instant, len: usize, rtt: RttEstimator)
    ensures
        ({
            let m = i.with_model(now, len, rtt);
            let d = i.with_delivery(now, len, rtt);
            &&& m.min_cwnd == i.min_cwnd
            &&& m.init_cwnd == i.init_cwnd
            &&& m.rwnd == i.rwnd
            &&& m.bytes_in_flight == i.bytes_in_flight
            &&& m.loss_state == i.loss_state
            &&& m.mode == i.mode
            &&& m.is_at_full_bandwidth == i.is_at_full_bandwidth
            &&& m.round_wo_bw_gain == i.round_wo_bw_gain
            &&& m.bw_at_last_round == i.bw_at_last_round
            &&& m.app_limited == i.app_limited
            &&& m.idle_restart == i.idle_restart
            &&& m.exit_probe_rtt_at == i.exit_probe_rtt_at
            &&& m.probe_rtt_last_started_at == i.probe_rtt_last_started_at
            &&& m.prev_in_recovery == i.prev_in_recovery
            &&& m.max_bandwidth == d.max_bandwidth
            &&& m.min_rtt == d.min_rtt
            &&& m.round_start == d.round_start
            &&& m.prior_cwnd == if !i.recovering() && i.lossy() && i.mode != Mode::ProbeRtt {
                i.cwnd
            } else {
                i.prior_cwnd
            }
            &&& i.lossy() ==> m.recovering()
            &&& !i.lossy() && !i.recovering() ==> !m.recovering()
            &&& m.cwnd == if i.recovering() && !m.recovering() {
                larger(i.cwnd, i.prior_cwnd)
            } else {
                i.cwnd
            }
        }),
{
    let d = i.with_delivery(now, len, rtt);
    lemma_delivery(i, now, len, rtt);
    lemma_recovery(d);
}

pub proof fn lemma_delivery(i: Bbr, now: Instant, len: usize, rtt: RttEstimator)
    ensures
        ({
            let d = i.with_delivery(now, len, rtt);
            &&& d.min_cwnd == i.min_cwnd
            &&& d.init_cwnd == i.init_cwnd
            &&& d.rwnd == i.rwnd
            &&& d.bytes_in_flight == i.bytes_in_flight
            &&& d.loss_state == i.loss_state
            &&& d.mode == i.mode
            &&& d.is_at_full_bandwidth == i.is_at_full_bandwidth
            &&& d.round_wo_bw_gain == i.round_wo_bw_gain
            &&& d.bw_at_last_round == i.bw_at_last_round
            &&& d.app_limited == i.app_limited
            &&& d.idle_restart == i.idle_restart
            &&& d.exit_probe_rtt_at == i.exit_probe_rtt_at
            &&& d.probe_rtt_last_started_at == i.probe_rtt_last_started_at
            &&& d.prev_in_recovery == i.prev_in_recovery
            &&& d.prior_cwnd == i.prior_cwnd
            &&& d.cwnd == i.cwnd
            &&& d.recovery_state == i.recovery_state
            &&& d.end_recovery_at_packet_number == i.end_recovery_at_packet_number
        }),
{
}

pub proof fn lemma_recovery(d: Bbr)
    ensures
        ({
            let r = d.with_recovery(d.round_start);
            &&& r.min_cwnd == d.min_cwnd
            &&& r.init_cwnd == d.init_cwnd
            &&& r.rwnd == d.rwnd
            &&& r.bytes_in_flight == d.bytes_in_flight
            &&& r.loss_state == d.loss_state
            &&& r.mode == d.mode
            &&& r.is_at_full_bandwidth == d.is_at_full_bandwidth
            &&& r.round_wo_bw_gain == d.round_wo_bw_gain
            &&& r.bw_at_last_round == d.bw_at_last_round
            &&& r.app_limited == d.app_limited
            &&& r.idle_restart == d.idle_restart
            &&& r.exit_probe_rtt_at == d.exit_probe_rtt_at
            &&& r.probe_rtt_last_started_at == d.probe_rtt_last_started_at
            &&& r.prev_in_recovery == d.prev_in_recovery
            &&& r.max_bandwidth == d.max_bandwidth
            &&& r.min_rtt == d.min_rtt
            &&& r.round_start == d.round_start
            &&& r.prior_cwnd == if !d.recovering() && d.lossy() && d.mode != Mode::ProbeRtt {
                d.cwnd
            } else {
                d.prior_cwnd
            }
            &&& d.lossy() ==> r.recovering()
            &&& !d.lossy() && !d.recovering() ==> !r.recovering()
            &&& r.cwnd == if d.recovering() && !r.recovering() {
                larger(d.cwnd, d.prior_cwnd)
            } else {
                d.cwnd
            }
        }),
{
}

/// What of the state the choice of the mode leaves alone, and what it makes of the rest.
pub proof fn lemma_mode(m: Bbr, now: Instant)
    ensures
        ({
            let p = m.with_mode(now);
            &&& p.min_cwnd == m.min_cwnd
            &&& p.init_cwnd == m.init_cwnd
            &&& p.rwnd == m.rwnd
            &&& p.bytes_in_flight == m.bytes_in_flight
            &&& p.loss_state == m.loss_state
            &&& p.round_start == m.round_start
            &&& p.max_bandwidth == m.max_bandwidth
            &&& p.app_limited == m.app_limited
            &&& p.idle_restart == m.idle_restart
            &&& p.min_rtt == m.min_rtt
            &&& p.prev_in_recovery == m.prev_in_recovery
            &&& p.recovery_state == m.recovery_state
            &&& p.end_recovery_at_packet_number == m.end_recovery_at_packet_number
            &&& p.packet_conservation == m.packet_conservation
            &&& p.current_round_trip_end_packet_number == m.current_round_trip_end_packet_number
            &&& p.max_acked_packet_number == m.max_acked_packet_number
            &&& p.round_count == m.round_count
            &&& p.prior_cwnd == if m.mode != Mode::ProbeRtt && p.mode == Mode::ProbeRtt
                && !m.recovering() {
                m.cwnd
            } else {
                m.prior_cwnd
            }
            &&& p.cwnd == if m.mode == Mode::ProbeRtt && p.mode != Mode::ProbeRtt {
                larger(m.cwnd, m.prior_cwnd)
            } else {
                m.cwnd
            }
            &&& p.is_at_full_bandwidth == m.with_growth().is_at_full_bandwidth
            &&& p.round_wo_bw_gain == m.with_growth().round_wo_bw_gain
            &&& m.is_at_full_bandwidth ==> p.is_at_full_bandwidth
            &&& modes_in_order(m) ==> modes_in_order(p)
            &&& m.mode != Mode::ProbeRtt ==> (p.mode == Mode::ProbeRtt <==> m.min_rtt_expired(now)
                && !m.idle_restart)
            &&& m.mode == Mode::ProbeRtt ==> match m.exit_probe_rtt_at {
                None => p.mode == Mode::ProbeRtt && (p.exit_probe_rtt_at is Some
                    <==> m.bytes_in_flight < m.probe_rtt_cwnd() + MAX_SEGMENT_SIZE),
                Some(exit) => p.mode == (if m.round_start && now.micros >= exit.micros {
                    if p.is_at_full_bandwidth {
                        Mode::ProbeBw
                    } else {
                        Mode::Startup
                    }
                } else {
                    Mode::ProbeRtt
                }),
            }
            &&& m.min_cwnd <= m.init_cwnd ==> m.probe_rtt_cwnd() >= m.min_cwnd
        }),
{
    let c = m.with_cycle(now);
    let g = c.with_growth();
    let l = g.with_startup_or_drain_left(now, m.bytes_in_flight);
    lemma_cycle(m, now);
    lemma_growth_step(c);
    lemma_leaving(g, now, m.bytes_in_flight);
    lemma_probe_rtt(l, now, m.round_start, m.bytes_in_flight);
    assert(g.is_at_full_bandwidth == m.with_growth().is_at_full_bandwidth);
    assert(g.round_wo_bw_gain == m.with_growth().round_wo_bw_gain);
}

pub proof fn lemma_cycle(m: Bbr, now: Instant)
    ensures
        m.with_cycle(now) == (Bbr {
            current_cycle_offset: m.with_cycle(now).current_cycle_offset,
            last_cycle_start: m.with_cycle(now).last_cycle_start,
            pacing_gain: m.with_cycle(now).pacing_gain,
            ..m
        }),
{
}

pub proof fn lemma_growth_step(c: Bbr)
    ensures
        c.with_growth() == (Bbr {
            bw_at_last_round: c.with_growth().bw_at_last_round,
            round_wo_bw_gain: c.with_growth().round_wo_bw_gain,
            is_at_full_bandwidth: c.with_growth().is_at_full_bandwidth,
            ack_aggregation: c.with_growth().ack_aggregation,
            ..c
        }),
        c.is_at_full_bandwidth ==> c.with_growth().is_at_full_bandwidth,
{
}

pub proof fn lemma_leaving(g: Bbr, now: Instant, in_flight: usize)
    ensures
        ({
            let l = g.with_startup_or_drain_left(now, in_flight);
            &&& l == (Bbr {
                mode: l.mode,
                pacing_gain: l.pacing_gain,
                cwnd_gain: l.cwnd_gain,
                last_cycle_start: l.last_cycle_start,
                rng_state: l.rng_state,
                current_cycle_offset: l.current_cycle_offset,
                ..g
            })
            &&& g.mode == Mode::ProbeRtt ==> l == g
            &&& g.mode != Mode::ProbeRtt ==> l.mode != Mode::ProbeRtt
            &&& modes_in_order(g) ==> modes_in_order(l)
        }),
{
}

pub proof fn lemma_probe_rtt(l: Bbr, now: Instant, round_start: bool, in_flight: usize)
    ensures
        ({
            let p = l.with_probe_rtt(now, round_start, in_flight);
            &&& p == (Bbr {
                mode: p.mode,
                pacing_gain: p.pacing_gain,
                cwnd_gain: p.cwnd_gain,
                last_cycle_start: p.last_cycle_start,
                rng_state: p.rng_state,
                current_cycle_offset: p.current_cycle_offset,
                exit_probe_rtt_at: p.exit_probe_rtt_at,
                probe_rtt_last_started_at: p.probe_rtt_last_started_at,
                prior_cwnd: p.prior_cwnd,
                cwnd: p.cwnd,
                ..l
            })
            &&& p.prior_cwnd == if l.mode != Mode::ProbeRtt && p.mode == Mode::ProbeRtt
                && !l.recovering() {
                l.cwnd
            } else {
                l.prior_cwnd
            }
            &&& p.cwnd == if l.mode == Mode::ProbeRtt && p.mode != Mode::ProbeRtt {
                larger(l.cwnd, l.prior_cwnd)
            } else {
                l.cwnd
            }
            &&& modes_in_order(l) ==> modes_in_order(p)
            &&& l.mode != Mode::ProbeRtt ==> (p.mode == Mode::ProbeRtt <==> l.min_rtt_expired(now)
                && !l.idle_restart)
            &&& l.mode == Mode::ProbeRtt ==> match l.exit_probe_rtt_at {
                None => p.mode == Mode::ProbeRtt && (p.exit_probe_rtt_at is Some <==> in_flight
                    < l.probe_rtt_cwnd() + MAX_SEGMENT_SIZE),
                Some(exit) => p.mode == (if round_start && now.micros >= exit.micros {
                    if l.is_at_full_bandwidth {
                        Mode::ProbeBw
                    } else {
                        Mode::Startup
                    }
                } else {
                    Mode::ProbeRtt
                }),
            }
        }),
{
}

/// What of the state the windows leave alone, and their bounds.
pub proof fn lemma_windows(p: Bbr, len: usize)
    ensures
        ({
            let w = p.with_windows(len);
            &&& w == (Bbr {
                cwnd: w.cwnd,
                packet_conservation: w.packet_conservation,
                current_round_trip_end_packet_number: w.current_round_trip_end_packet_number,
                prev_in_recovery: w.prev_in_recovery,
                recovery_window: w.recovery_window,
                idle_restart: w.idle_restart,
                prev_in_flight_count: p.bytes_in_flight,
                loss_state: LossState { lost_bytes: 0 },
                ..p
            })
            &&& p.mode == Mode::ProbeRtt ==> w.cwnd == p.cwnd
            &&& p.mode != Mode::ProbeRtt ==> w.cwnd >= p.min_cwnd
            &&& w.cwnd == p.with_cwnd_calculated(len).cwnd
            &&& w.packet_conservation == p.with_cwnd_calculated(len).packet_conservation
        }),
{
    lemma_cwnd(p, len);
}

pub proof fn lemma_cwnd(p: Bbr, len: usize)
    ensures
        ({
            let c = p.with_cwnd_calculated(len);
            &&& c == (Bbr {
                cwnd: c.cwnd,
                packet_conservation: c.packet_conservation,
                current_round_trip_end_packet_number: c.current_round_trip_end_packet_number,
                prev_in_recovery: c.prev_in_recovery,
                ..p
            })
            &&& p.mode == Mode::ProbeRtt ==> c.cwnd == p.cwnd
            &&& p.mode != Mode::ProbeRtt ==> c.cwnd >= p.min_cwnd
        }),
{
}

/// What the windows make of recovery as they last saw it.
pub proof fn lemma_windows_prev(p: Bbr, len: usize)
    ensures
        ({
            let w = p.with_windows(len);
            &&& w.prev_in_recovery == if p.mode == Mode::ProbeRtt || len == 0 {
                p.prev_in_recovery
            } else {
                p.recovering()
            }
            &&& len == 0 ==> w.cwnd >= p.cwnd
        }),
{
}

pub proof fn lemma_cwnd_bound(p: Bbr, len: usize, bound: int)
    requires
        p.cwnd <= bound,
        p.prev_in_recovery ==> p.prior_cwnd <= bound,
        p.min_cwnd <= bound,
        p.lossy() ==> MAX_SEGMENT_SIZE <= bound,
        conserving(p.with_cwnd_calculated(len), len) ==> p.bytes_in_flight <= bound,
    ensures
        p.with_cwnd_calculated(len).cwnd <= bound + len,
{
}



/// Without losses the model starts no recovery and does not lower the window.
pub proof fn lemma_lossless_model(
    s: Bbr,
    now: Instant,
    len: usize,
    in_flight: usize,
    rtt: RttEstimator,
)
    requires
        !s.lossy(),
        s.recovering() ==> s.prev_in_recovery,
    ensures
        ({
            let m = s.with_in_flight(in_flight).with_model(now, len, rtt);
            &&& !m.lossy()
            &&& !m.enters_recovery()
            &&& m.cwnd >= s.cwnd
        }),
{
    let i = s.with_in_flight(in_flight);
    let d = i.with_delivery(now, len, rtt);
    lemma_delivery(i, now, len, rtt);
    lemma_model(i, now, len, rtt);
    assert(d.recovery_state == s.recovery_state);
}

} // verus!
