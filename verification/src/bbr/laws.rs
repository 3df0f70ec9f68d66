//! Laws of the controller.

use super::gain::{
    growth_target_of, law_scaling_is_off_by_at_most_a_byte, GAIN_CYCLE_LEN, PROBE_RTT_GAIN,
};
use super::model::{larger, smaller};
use super::steps::{
    lemma_cwnd, lemma_cwnd_bound, lemma_cycle, lemma_delivery, lemma_growth_step, lemma_leaving,
    lemma_lossless_model, lemma_mode, lemma_model, lemma_probe_rtt, lemma_recovery, lemma_windows, lemma_windows_prev,
};
use super::{
    Bbr, Mode, MAX_SEGMENT_SIZE, PROBE_RTT_MICROS, STARTUP_ROUNDS_WITHOUT_GROWTH,
};
use crate::rtt::RttEstimator;
use crate::time::Instant;
use vstd::prelude::*;

verus! {

/// An ACK as the socket reports it.
pub struct AckEvent {
    pub now: Instant,
    pub len: usize,
    pub in_flight: usize,
    pub rtt: RttEstimator,
}

/// The controller after the ACKs, from the first to the last.
pub open spec fn after_acks(s: Bbr, acks: Seq<AckEvent>) -> Bbr
    decreases acks.len(),
{
    if acks.len() == 0 {
        s
    } else {
        let e = acks.last();
        after_acks(s, acks.drop_last()).with_ack(e.now, e.len, e.in_flight, e.rtt)
    }
}

/// The bytes that the ACKs cover.
pub open spec fn total_len(acks: Seq<AckEvent>) -> int
    decreases acks.len(),
{
    if acks.len() == 0 {
        0
    } else {
        total_len(acks.drop_last()) + acks.last().len
    }
}

/// The remembered window may yet be restored: recovery or probing for the round-trip time
/// have still to end, or recovery has ended unnoticed by the window.
pub open spec fn restorable(s: Bbr) -> bool {
    s.recovering() || s.prev_in_recovery || s.mode == Mode::ProbeRtt
}

/// The ACK for `len` bytes that led to `t` was answered by packet conservation: the window is
/// at least what is in flight and was just ACKed.
pub open spec fn conserving(t: Bbr, len: usize) -> bool {
    t.packet_conservation && t.mode != Mode::ProbeRtt && len > 0
}

/// Whenever packets are conserved, no more is in flight than `base` and what was ACKed before.
pub open spec fn in_flight_keeps_to(s: Bbr, acks: Seq<AckEvent>, base: int) -> bool
    decreases acks.len(),
{
    acks.len() > 0 ==> {
        &&& in_flight_keeps_to(s, acks.drop_last(), base)
        &&& conserving(after_acks(s, acks), acks.last().len) ==> acks.last().in_flight <= base
            + total_len(acks.drop_last())
    }
}

/// DRAIN and probing for bandwidth come only after the full bandwidth was reached.
pub open spec fn modes_in_order(s: Bbr) -> bool {
    s.mode == Mode::Drain || s.mode == Mode::ProbeBw ==> s.is_at_full_bandwidth
}

// ---- The window ----

/// The window never exceeds the congestion window or the peer's window, and while probing
/// for the round-trip time not the window of that either.
pub proof fn law_window_is_bounded(s: Bbr)
    ensures
        s.effective_window() <= s.cwnd,
        s.effective_window() <= s.rwnd,
        s.mode == Mode::ProbeRtt ==> s.effective_window() <= s.probe_rtt_cwnd(),
        s.effective_window() == s.cwnd || s.effective_window() == s.rwnd || (s.mode
            == Mode::ProbeRtt && s.effective_window() == s.probe_rtt_cwnd()),
{
}

/// A retransmission timeout collapses the window to the minimum, in every mode, and the
/// window before it is not kept for later.
pub proof fn law_rto_collapses_the_window(s: Bbr)
    ensures
        s.with_rto().effective_window() <= s.min_cwnd,
        s.mode != Mode::ProbeRtt ==> s.with_rto().effective_window() == smaller(
            s.min_cwnd,
            s.rwnd,
        ),
        s.with_rto().cwnd == s.min_cwnd,
        s.with_rto().prior_cwnd == s.min_cwnd,
{
}

/// A loss found by duplicate ACKs, and each further duplicate ACK, leaves the window as it is.
pub proof fn law_loss_keeps_the_window(s: Bbr)
    ensures
        s.with_loss().effective_window() == s.effective_window(),
        s.with_loss().lossy(),
{
    assert(s.with_loss().probe_rtt_cwnd() == s.probe_rtt_cwnd());
}

/// The minimum, the initial and the peer's window are not changed by an ACK, and the
/// congestion window, if it was not below the minimum, is not below it afterwards. No loss is
/// then left to be accounted for.
pub proof fn law_ack_keeps_the_minimum(
    s: Bbr,
    now: Instant,
    len: usize,
    in_flight: usize,
    rtt: RttEstimator,
)
    ensures
        s.with_ack(now, len, in_flight, rtt).min_cwnd == s.min_cwnd,
        s.with_ack(now, len, in_flight, rtt).init_cwnd == s.init_cwnd,
        s.with_ack(now, len, in_flight, rtt).rwnd == s.rwnd,
        s.cwnd >= s.min_cwnd ==> s.with_ack(now, len, in_flight, rtt).cwnd >= s.min_cwnd,
        !s.with_ack(now, len, in_flight, rtt).lossy(),
{
    let m = s.with_in_flight(in_flight).with_model(now, len, rtt);
    let p = m.with_mode(now);
    lemma_model(s.with_in_flight(in_flight), now, len, rtt);
    lemma_mode(m, now);
    lemma_windows(p, len);
}

/// The congestion window starts out at no less than the minimum, and the events other than an
/// ACK keep it there.
pub proof fn law_other_events_keep_the_minimum(
    s: Bbr,
    now: Instant,
    len: usize,
    mss: usize,
    bytes_available: usize,
)
    requires
        s.cwnd >= s.min_cwnd,
        mss * 2 <= usize::MAX,
    ensures
        Bbr::initial().cwnd >= Bbr::initial().min_cwnd,
        s.with_loss().cwnd >= s.with_loss().min_cwnd,
        s.with_rto().cwnd >= s.with_rto().min_cwnd,
        s.with_mss(mss).cwnd >= s.with_mss(mss).min_cwnd,
        s.with_transmit(now, len).cwnd >= s.with_transmit(now, len).min_cwnd,
        s.with_send_ready(now, bytes_available).cwnd >= s.with_send_ready(
            now,
            bytes_available,
        ).min_cwnd,
{
}

/// An ACK for P bytes lets the window grow by no more than P, beyond the window that was
/// in use, the one that may be restored, what is in flight where packets are conserved, and
/// the segment that losses leave.
pub proof fn law_ack_growth_is_bounded(
    s: Bbr,
    now: Instant,
    len: usize,
    in_flight: usize,
    rtt: RttEstimator,
    bound: int,
)
    requires
        s.cwnd <= bound,
        restorable(s) ==> s.prior_cwnd <= bound,
        conserving(s.with_ack(now, len, in_flight, rtt), len) ==> in_flight <= bound,
        s.min_cwnd <= bound,
        s.lossy() ==> MAX_SEGMENT_SIZE <= bound,
    ensures
        ({
            let t = s.with_ack(now, len, in_flight, rtt);
            &&& t.cwnd <= bound + len
            &&& restorable(t) ==> t.prior_cwnd <= bound
            &&& !t.lossy()
        }),
{
    let i = s.with_in_flight(in_flight);
    let m = i.with_model(now, len, rtt);
    let p = m.with_mode(now);
    lemma_model(i, now, len, rtt);
    lemma_mode(m, now);
    lemma_windows(p, len);
    lemma_cwnd_bound(p, len, bound);
}

/// The window grows no faster than the ACKs: after ACKs for `n` bytes it is at most `n` more
/// than the windows that it starts from. Where packets are conserved, what is in flight is
/// taken to keep to that bound too, as a sender that respects the window sees to.
pub proof fn law_window_grows_no_faster_than_acks(s: Bbr, acks: Seq<AckEvent>, base: int)
    requires
        s.cwnd <= base,
        restorable(s) ==> s.prior_cwnd <= base,
        s.min_cwnd <= base,
        s.lossy() ==> MAX_SEGMENT_SIZE <= base,
        in_flight_keeps_to(s, acks, base),
    ensures
        after_acks(s, acks).cwnd <= base + total_len(acks),
        after_acks(s, acks).effective_window() <= base + total_len(acks),
        restorable(after_acks(s, acks)) ==> after_acks(s, acks).prior_cwnd <= base + total_len(
            acks,
        ),
        after_acks(s, acks).min_cwnd == s.min_cwnd,
        after_acks(s, acks).rwnd == s.rwnd,
        acks.len() > 0 ==> !after_acks(s, acks).lossy(),
        total_len(acks) >= 0,
    decreases acks.len(),
{
    if acks.len() > 0 {
        let before = acks.drop_last();
        let e = acks.last();
        law_window_grows_no_faster_than_acks(s, before, base);
        let t = after_acks(s, before);
        law_ack_growth_is_bounded(
            t,
            e.now,
            e.len,
            e.in_flight,
            e.rtt,
            base + total_len(before),
        );
        law_ack_keeps_the_minimum(t, e.now, e.len, e.in_flight, e.rtt);
    }
}

/// In a round in which no more than the window (or a segment) is ACKed, the window grows to at
/// most twice what it was and a segment. No larger window is to be restored, probing for the
/// round-trip time does not hold the window down, and where packets are conserved no more is
/// in flight than the window allows.
pub proof fn law_window_at_most_doubles_in_a_round(s: Bbr, acks: Seq<AckEvent>, segment: usize)
    requires
        segment <= s.min_cwnd <= s.cwnd,
        restorable(s) ==> s.prior_cwnd <= s.cwnd,
        s.lossy() ==> MAX_SEGMENT_SIZE <= s.cwnd + segment,
        s.effective_window() == smaller(s.cwnd, s.rwnd),
        total_len(acks) <= larger(s.effective_window(), segment),
        in_flight_keeps_to(s, acks, window_or_segment(s)),
    ensures
        after_acks(s, acks).effective_window() <= 2 * s.effective_window() + segment,
{
    law_window_grows_no_faster_than_acks(s, acks, window_or_segment(s));
    law_window_is_bounded(after_acks(s, acks));
}

/// The congestion window, or the segment that losses leave where that is more.
pub open spec fn window_or_segment(s: Bbr) -> int {
    if s.lossy() {
        larger(s.cwnd, MAX_SEGMENT_SIZE) as int
    } else {
        s.cwnd as int
    }
}

/// After a retransmission timeout the window regrows with the ACKs, by no more than they
/// cover, and never jumps back to what it was before: whatever it was, `n` bytes ACKed make
/// at most `n` more than the minimum (or a segment, where that is more). Where packets are
/// conserved, what is in flight is taken to keep to that bound, as a sender that respects the
/// window sees to.
pub proof fn law_window_regrows_with_acks_after_rto(s: Bbr, acks: Seq<AckEvent>)
    requires
        in_flight_keeps_to(s.with_rto(), acks, larger(s.min_cwnd, MAX_SEGMENT_SIZE) as int),
    ensures
        after_acks(s.with_rto(), acks).cwnd <= larger(s.min_cwnd, MAX_SEGMENT_SIZE) + total_len(
            acks,
        ),
        after_acks(s.with_rto(), acks).effective_window() <= larger(s.min_cwnd, MAX_SEGMENT_SIZE)
            + total_len(acks),
{
    law_window_grows_no_faster_than_acks(
        s.with_rto(),
        acks,
        larger(s.min_cwnd, MAX_SEGMENT_SIZE) as int,
    );
}

/// After a retransmission timeout, and whatever ACKs arrived since, a round in which no more
/// than the window (or a segment) is ACKed makes the window at most twice what it was and a
/// segment. This leaves out rounds that start while probing for the round-trip time holds the
/// window down, what is in flight beyond the window where packets are conserved, and, in the
/// first round, segments so small that the one that losses leave is more than three of them.
pub proof fn law_window_at_most_doubles_in_a_round_after_rto(
    s: Bbr,
    before: Seq<AckEvent>,
    round: Seq<AckEvent>,
    segment: usize,
)
    requires
        segment <= s.min_cwnd,
        before.len() == 0 ==> MAX_SEGMENT_SIZE <= s.min_cwnd + segment,
        ({
            let a = after_acks(s.with_rto(), before);
            &&& a.effective_window() == smaller(a.cwnd, a.rwnd)
            &&& total_len(round) <= larger(a.effective_window(), segment)
            &&& in_flight_keeps_to(a, round, window_or_segment(a))
        }),
    ensures
        after_acks(after_acks(s.with_rto(), before), round).effective_window() <= 2 * after_acks(
            s.with_rto(),
            before,
        ).effective_window() + segment,
{
    lemma_nothing_to_jump_back_to(s.with_rto(), before);
    law_window_at_most_doubles_in_a_round(after_acks(s.with_rto(), before), round, segment);
}

/// No window above the present one can come back: after a timeout, and as long as only ACKs
/// follow.
pub open spec fn nothing_to_jump_back_to(s: Bbr) -> bool {
    &&& s.min_cwnd <= s.cwnd
    &&& s.lossy() ==> s.cwnd <= s.min_cwnd && s.prior_cwnd <= s.min_cwnd
    &&& s.recovering() ==> s.prior_cwnd <= s.min_cwnd
    &&& restorable(s) ==> s.prior_cwnd <= s.cwnd
}

/// A timeout leaves no window to jump back to, and ACKs do not bring one about.
pub proof fn law_nothing_to_jump_back_to(
    s: Bbr,
    now: Instant,
    len: usize,
    in_flight: usize,
    rtt: RttEstimator,
)
    ensures
        nothing_to_jump_back_to(s.with_rto()),
        nothing_to_jump_back_to(s) ==> nothing_to_jump_back_to(
            s.with_ack(now, len, in_flight, rtt),
        ),
{
    if nothing_to_jump_back_to(s) {
        let i = s.with_in_flight(in_flight);
        let m = i.with_model(now, len, rtt);
        let p = m.with_mode(now);
        lemma_model(i, now, len, rtt);
        lemma_mode(m, now);
        lemma_windows(p, len);
        lemma_windows_prev(p, len);
    }
}

proof fn lemma_nothing_to_jump_back_to(s: Bbr, acks: Seq<AckEvent>)
    requires
        nothing_to_jump_back_to(s),
    ensures
        nothing_to_jump_back_to(after_acks(s, acks)),
        after_acks(s, acks).min_cwnd == s.min_cwnd,
        acks.len() > 0 ==> !after_acks(s, acks).lossy(),
    decreases acks.len(),
{
    if acks.len() > 0 {
        lemma_nothing_to_jump_back_to(s, acks.drop_last());
        let t = after_acks(s, acks.drop_last());
        let e = acks.last();
        law_nothing_to_jump_back_to(t, e.now, e.len, e.in_flight, e.rtt);
        law_ack_keeps_the_minimum(t, e.now, e.len, e.in_flight, e.rtt);
    }
}

// ---- Modes ----

/// STARTUP does not end because of losses. An ACK finds the full bandwidth reached only if
/// it ends a round, the application does not limit the flow, and in that round, as in as many
/// before it as it takes, the bandwidth has not grown as expected.
pub proof fn law_full_bandwidth_needs_rounds_without_growth(
    s: Bbr,
    now: Instant,
    len: usize,
    in_flight: usize,
    rtt: RttEstimator,
)
    requires
        s.wf(),
        !s.is_at_full_bandwidth,
        s.with_ack(now, len, in_flight, rtt).is_at_full_bandwidth,
    ensures
        s.round_wo_bw_gain + 1 == STARTUP_ROUNDS_WITHOUT_GROWTH,
        !s.app_limited,
        s.with_ack(now, len, in_flight, rtt).round_start,
        s.with_ack(now, len, in_flight, rtt).estimate() < growth_target_of(s.bw_at_last_round),
{
    let m = s.with_in_flight(in_flight).with_model(now, len, rtt);
    let p = m.with_mode(now);
    lemma_model(s.with_in_flight(in_flight), now, len, rtt);
    lemma_mode(m, now);
    lemma_windows(p, len);
}

/// Losses reported before an ACK play no part in whether the ACK finds the full bandwidth
/// reached, nor in the count of rounds without growth.
pub proof fn law_losses_do_not_end_startup(
    s: Bbr,
    now: Instant,
    len: usize,
    in_flight: usize,
    rtt: RttEstimator,
)
    ensures
        s.with_loss().with_ack(now, len, in_flight, rtt).is_at_full_bandwidth == s.with_ack(
            now,
            len,
            in_flight,
            rtt,
        ).is_at_full_bandwidth,
        s.with_loss().with_ack(now, len, in_flight, rtt).round_wo_bw_gain == s.with_ack(
            now,
            len,
            in_flight,
            rtt,
        ).round_wo_bw_gain,
{
    let i1 = s.with_in_flight(in_flight);
    let i2 = s.with_loss().with_in_flight(in_flight);
    let m1 = i1.with_model(now, len, rtt);
    let m2 = i2.with_model(now, len, rtt);
    lemma_model(i1, now, len, rtt);
    lemma_model(i2, now, len, rtt);
    lemma_losses_do_not_count(i1, i2, now, len, rtt);
    lemma_mode(m1, now);
    lemma_mode(m2, now);
    lemma_windows(m1.with_mode(now), len);
    lemma_windows(m2.with_mode(now), len);
}

proof fn lemma_losses_do_not_count(
    i1: Bbr,
    i2: Bbr,
    now: Instant,
    len: usize,
    rtt: RttEstimator,
)
    requires
        i2 == (Bbr { loss_state: i2.loss_state, ..i1 }),
    ensures
        i1.with_delivery(now, len, rtt).max_bandwidth == i2.with_delivery(
            now,
            len,
            rtt,
        ).max_bandwidth,
        i1.with_delivery(now, len, rtt).round_start == i2.with_delivery(now, len, rtt).round_start,
{
}

/// Once reached, the full bandwidth stays reached; and DRAIN and probing for bandwidth only
/// come after it. Both hold of every state that ACKs lead to.
pub proof fn law_modes_come_in_order(
    s: Bbr,
    now: Instant,
    len: usize,
    in_flight: usize,
    rtt: RttEstimator,
)
    requires
        modes_in_order(s),
    ensures
        modes_in_order(s.with_ack(now, len, in_flight, rtt)),
        s.is_at_full_bandwidth ==> s.with_ack(now, len, in_flight, rtt).is_at_full_bandwidth,
        modes_in_order(Bbr::initial()),
{
    let m = s.with_in_flight(in_flight).with_model(now, len, rtt);
    let p = m.with_mode(now);
    lemma_model(s.with_in_flight(in_flight), now, len, rtt);
    lemma_mode(m, now);
    lemma_windows(p, len);
}

/// Probing for the round-trip time ends: with little enough in flight the time to leave is
/// fixed, and the first ACK that starts a round after that time, and no other, leaves the
/// mode. Unless the pipe is full or losses are recovered from, the remembered window is then
/// back in use.
pub proof fn law_probe_rtt_ends(
    s: Bbr,
    now: Instant,
    len: usize,
    in_flight: usize,
    rtt: RttEstimator,
)
    requires
        s.mode == Mode::ProbeRtt,
    ensures
        ({
            let t = s.with_ack(now, len, in_flight, rtt);
            match s.exit_probe_rtt_at {
                None => {
                    &&& t.mode == Mode::ProbeRtt
                    &&& t.exit_probe_rtt_at is Some <==> in_flight < t.probe_rtt_cwnd()
                        + MAX_SEGMENT_SIZE
                    &&& s.min_cwnd <= s.init_cwnd ==> t.probe_rtt_cwnd() >= s.min_cwnd
                },
                Some(exit) => {
                    &&& t.mode != Mode::ProbeRtt <==> t.round_start && now.micros >= exit.micros
                    &&& t.mode != Mode::ProbeRtt ==> t.mode == (if t.is_at_full_bandwidth {
                        Mode::ProbeBw
                    } else {
                        Mode::Startup
                    })
                    &&& t.mode == Mode::Startup && !s.recovering() && !s.lossy() ==> t.cwnd
                        >= s.prior_cwnd
                },
            }
        }),
{
    let i = s.with_in_flight(in_flight);
    let d = i.with_delivery(now, len, rtt);
    let m = i.with_model(now, len, rtt);
    let p = m.with_mode(now);
    lemma_delivery(i, now, len, rtt);
    lemma_model(i, now, len, rtt);
    assert(d.recovery_state == s.recovery_state);
    lemma_mode(m, now);
    lemma_windows(p, len);
    if !s.recovering() && !s.lossy() {
        assert(!p.recovering() && !p.lossy());
        assert(m.prior_cwnd == s.prior_cwnd);
    }
}

/// Probing for the round-trip time begins with the first ACK after it has become due: it was
/// last begun more than ten seconds ago, or never, the application does not limit the flow,
/// and no restart from idle is under way.
pub proof fn law_probe_rtt_begins_when_due(
    s: Bbr,
    now: Instant,
    len: usize,
    in_flight: usize,
    rtt: RttEstimator,
)
    requires
        s.mode != Mode::ProbeRtt,
    ensures
        s.with_ack(now, len, in_flight, rtt).mode == Mode::ProbeRtt <==> s.min_rtt_expired(now)
            && !s.idle_restart,
{
    let i = s.with_in_flight(in_flight);
    let m = i.with_model(now, len, rtt);
    lemma_model(i, now, len, rtt);
    lemma_mode(m, now);
    lemma_windows(m.with_mode(now), len);
    assert(m.min_rtt_expired(now) == s.min_rtt_expired(now));
}

/// Probing for bandwidth begins in a phase out of 0 and 2 to 7, never in phase 1.
pub proof fn law_first_phase(s: Bbr)
    ensures
        s.random_phase() < GAIN_CYCLE_LEN,
        s.random_phase() != 1,
{
}

// ---- Rounds and recovery ----

/// A round starts with the ACK that brings the ACKed bytes up to all that was in flight when
/// the round before it started, and only then is a round counted.
pub proof fn law_rounds_count_what_was_in_flight(
    s: Bbr,
    now: Instant,
    len: usize,
    in_flight: usize,
    rtt: RttEstimator,
)
    requires
        s.acked_bytes + len + in_flight <= u64::MAX,
        s.max_acked_packet_number == s.acked_bytes,
        s.round_count < u64::MAX,
    ensures
        ({
            let t = s.with_ack(now, len, in_flight, rtt);
            &&& t.round_start <==> len > 0 && s.acked_bytes + len
                >= s.current_round_trip_end_packet_number
            &&& t.round_start ==> t.current_round_trip_end_packet_number == s.acked_bytes + len
                + in_flight
            &&& t.round_count == s.round_count + (if t.round_start {
                1int
            } else {
                0
            })
        }),
{
    let i = s.with_in_flight(in_flight);
    let d = i.with_delivery(now, len, rtt);
    let m = i.with_model(now, len, rtt);
    lemma_delivery(i, now, len, rtt);
    assert(d.max_acked_packet_number == s.acked_bytes + len);
    lemma_model(i, now, len, rtt);
    lemma_mode(m, now);
    lemma_windows(m.with_mode(now), len);
    lemma_rounds(i, now, len, rtt);
}

proof fn lemma_rounds(i: Bbr, now: Instant, len: usize, rtt: RttEstimator)
    ensures
        ({
            let d = i.with_delivery(now, len, rtt);
            let m = i.with_model(now, len, rtt);
            let p = m.with_mode(now);
            let w = p.with_windows(len);
            &&& w.round_count == d.round_count
            &&& w.current_round_trip_end_packet_number == d.current_round_trip_end_packet_number
                || w.current_round_trip_end_packet_number == d.round_end()
        }),
{
    let d = i.with_delivery(now, len, rtt);
    let m = i.with_model(now, len, rtt);
    lemma_delivery(i, now, len, rtt);
    lemma_recovery(d);
    lemma_mode(m, now);
    lemma_cwnd(m.with_mode(now), len);
}

/// Losses start recovery, or keep it up, until more has been ACKed than was in flight when
/// the last of them was accounted for; recovery ends as soon as that is so.
pub proof fn law_recovery_lasts_a_round_without_losses(
    s: Bbr,
    now: Instant,
    len: usize,
    in_flight: usize,
    rtt: RttEstimator,
)
    requires
        s.acked_bytes + len + in_flight <= u64::MAX,
        s.max_acked_packet_number == s.acked_bytes,
    ensures
        ({
            let t = s.with_ack(now, len, in_flight, rtt);
            &&& s.lossy() ==> t.recovering() && t.end_recovery_at_packet_number == s.acked_bytes
                + len + in_flight
            &&& !s.lossy() ==> t.end_recovery_at_packet_number == s.end_recovery_at_packet_number
            &&& !s.lossy() ==> (t.recovering() <==> s.recovering() && s.acked_bytes + len
                <= s.end_recovery_at_packet_number)
            &&& !t.lossy()
        }),
{
    let i = s.with_in_flight(in_flight);
    let d = i.with_delivery(now, len, rtt);
    let m = i.with_model(now, len, rtt);
    lemma_delivery(i, now, len, rtt);
    assert(d.max_acked_packet_number == s.acked_bytes + len);
    assert(d.recovery_state == s.recovery_state);
    assert(d.end_recovery_at_packet_number == s.end_recovery_at_packet_number);
    lemma_mode(m, now);
    lemma_windows(m.with_mode(now), len);
}

/// Recovery starts with packet conservation: the window is what is in flight and was just
/// ACKed, so that as much is sent as is ACKed, but no less than the minimum.
pub proof fn law_recovery_starts_with_conservation(
    s: Bbr,
    now: Instant,
    len: usize,
    in_flight: usize,
    rtt: RttEstimator,
)
    requires
        s.lossy(),
        !s.prev_in_recovery,
        len > 0,
        s.with_ack(now, len, in_flight, rtt).mode != Mode::ProbeRtt,
    ensures
        s.with_ack(now, len, in_flight, rtt).cwnd == larger(
            in_flight.saturating_add(len),
            s.min_cwnd,
        ),
        s.with_ack(now, len, in_flight, rtt).packet_conservation,
{
    let i = s.with_in_flight(in_flight);
    let d = i.with_delivery(now, len, rtt);
    let m = i.with_model(now, len, rtt);
    let p = m.with_mode(now);
    lemma_delivery(i, now, len, rtt);
    lemma_model(i, now, len, rtt);
    assert(m.recovering());
    lemma_mode(m, now);
    lemma_windows(p, len);
    assert(p.enters_recovery());
}

/// With no new losses, and none whose recovery has yet to be entered, an ACK does not lower
/// the congestion window before the full bandwidth is reached.
pub proof fn law_startup_keeps_the_window(
    s: Bbr,
    now: Instant,
    len: usize,
    in_flight: usize,
    rtt: RttEstimator,
)
    requires
        !s.lossy(),
        s.recovering() ==> s.prev_in_recovery,
        !s.with_ack(now, len, in_flight, rtt).is_at_full_bandwidth,
    ensures
        s.with_ack(now, len, in_flight, rtt).cwnd >= s.cwnd,
{
    let m = s.with_in_flight(in_flight).with_model(now, len, rtt);
    lemma_lossless_model(s, now, len, in_flight, rtt);
    lemma_mode(m, now);
    lemma_windows(m.with_mode(now), len);
}

/// Once the full bandwidth is reached, an ACK leaves the congestion window at no more than
/// the target (and the minimum), except while packets are conserved or the round-trip time is
/// probed for.
pub proof fn law_full_bandwidth_caps_the_window(
    s: Bbr,
    now: Instant,
    len: usize,
    in_flight: usize,
    rtt: RttEstimator,
)
    requires
        len > 0,
        s.with_ack(now, len, in_flight, rtt).is_at_full_bandwidth,
        s.with_ack(now, len, in_flight, rtt).mode != Mode::ProbeRtt,
        !s.with_ack(now, len, in_flight, rtt).packet_conservation,
    ensures
        s.with_ack(now, len, in_flight, rtt).cwnd <= larger(
            s.with_ack(now, len, in_flight, rtt).aggregated_target(),
            s.min_cwnd,
        ),
{
    let i = s.with_in_flight(in_flight);
    let m = i.with_model(now, len, rtt);
    let p = m.with_mode(now);
    lemma_model(i, now, len, rtt);
    lemma_mode(m, now);
    lemma_windows(p, len);
}

/// The least round-trip time, once known, only falls.
pub proof fn law_min_rtt_only_falls(
    s: Bbr,
    now: Instant,
    len: usize,
    in_flight: usize,
    rtt: RttEstimator,
)
    requires
        s.min_rtt.micros != 0,
    ensures
        s.with_ack(now, len, in_flight, rtt).min_rtt.micros == if rtt.min.micros
            < s.min_rtt.micros {
            rtt.min.micros
        } else {
            s.min_rtt.micros
        },
{
    let i = s.with_in_flight(in_flight);
    let m = i.with_model(now, len, rtt);
    lemma_model(i, now, len, rtt);
    lemma_mode(m, now);
    lemma_windows(m.with_mode(now), len);
}

/// A restart from idle is over with the first ACK for new data, and not before.
pub proof fn law_idle_restart_ends_with_new_data(
    s: Bbr,
    now: Instant,
    len: usize,
    in_flight: usize,
    rtt: RttEstimator,
)
    ensures
        s.with_ack(now, len, in_flight, rtt).idle_restart <==> s.idle_restart && len == 0,
{
    let i = s.with_in_flight(in_flight);
    let m = i.with_model(now, len, rtt);
    lemma_model(i, now, len, rtt);
    lemma_mode(m, now);
    lemma_windows(m.with_mode(now), len);
}

// ---- Ordinary values ----

/// No instant that the controller remembers lies before the start of time.
pub open spec fn stamped_from_zero(s: Bbr) -> bool {
    &&& s.last_cycle_start matches Some(t) ==> t.micros >= 0
    &&& s.probe_rtt_last_started_at matches Some(t) ==> t.micros >= 0
    &&& s.ack_aggregation.ack_epoch_mstamp matches Some(t) ==> t.micros >= 0
    &&& s.max_bandwidth.interval_start matches Some((t, _)) ==> t.micros >= 0
}

/// ACKs are taken in without overflow as long as all values are ordinary: instants are not
/// negative, no more than 16 TiB were ACKed on the connection, the bandwidth is then below
/// 4 GiB per second and the bandwidth-delay product at most a gigabyte, and the epoch of
/// aggregation is no older than an hour. Instants that are not negative stay so.
pub proof fn law_ordinary_acks_fit(
    s: Bbr,
    now: Instant,
    len: usize,
    in_flight: usize,
    rtt: RttEstimator,
)
    requires
        s.wf(),
        stamped_from_zero(s),
        0 <= now.micros <= i64::MAX - PROBE_RTT_MICROS,
        s.acked_bytes + len <= 0x1000_0000_0000,
        s.with_in_flight(in_flight).with_delivery(now, len, rtt).estimate() < 0x1_0000_0000,
        s.with_in_flight(in_flight).with_delivery(now, len, rtt).bdp() <= 0x3_8000_0000_0000,
        s.ack_aggregation.epoch_micros(now) <= 3_600_000_000,
        s.init_cwnd <= 0x4000_0000,
        s.min_cwnd <= 0x4000_0000,
    ensures
        s.ack_fits(now, len, in_flight, rtt),
        stamped_from_zero(s.with_ack(now, len, in_flight, rtt)),
{
    let i = s.with_in_flight(in_flight);
    let d = i.with_delivery(now, len, rtt);
    let m = i.with_model(now, len, rtt);
    let c = m.with_cycle(now);
    let g = c.with_growth();
    let l = g.with_startup_or_drain_left(now, m.bytes_in_flight);
    let p = m.with_mode(now);
    lemma_delivery(i, now, len, rtt);
    lemma_model(i, now, len, rtt);
    lemma_mode(m, now);
    lemma_cycle(m, now);
    lemma_growth_step(c);
    lemma_leaving(g, now, m.bytes_in_flight);
    lemma_probe_rtt(l, now, m.round_start, m.bytes_in_flight);
    lemma_windows(p, len);
    lemma_model_stamps(i, now, len, rtt);
    lemma_mode_stamps(m, now);
    assert(i.model_fits(now, len, rtt)) by {
        let bandwidth = d.estimate();
        let micros = s.ack_aggregation.epoch_micros(now);
        assert(bandwidth * micros <= 0x1_0000_0000 * 3_600_000_000) by (nonlinear_arith)
            requires
                0 <= bandwidth < 0x1_0000_0000,
                0 <= micros <= 3_600_000_000,
        ;
    }
    let e = l.with_probe_rtt_entered(now);
    assert(e.bdp() == d.bdp() && e.init_cwnd == s.init_cwnd && e.min_cwnd == s.min_cwnd);
    assert(e.probe_rtt_cwnd() <= 0xC000_0000) by {
        let bdp = e.bdp() as u64;
        law_scaling_is_off_by_at_most_a_byte(PROBE_RTT_GAIN, bdp);
        assert(PROBE_RTT_GAIN * bdp == 0x180_0000 * bdp);
    }
    assert(m.mode_fits(now));
    assert(p.cwnd_fits(len));
}

proof fn lemma_model_stamps(i: Bbr, now: Instant, len: usize, rtt: RttEstimator)
    requires
        stamped_from_zero(i),
        now.micros >= 0,
    ensures
        stamped_from_zero(i.with_model(now, len, rtt)),
{
    let d = i.with_delivery(now, len, rtt);
    assert(stamped_from_zero(d));
    lemma_recovery_stamps(d);
}

proof fn lemma_recovery_stamps(d: Bbr)
    ensures
        ({
            let r = d.with_recovery(d.round_start);
            &&& r.last_cycle_start == d.last_cycle_start
            &&& r.probe_rtt_last_started_at == d.probe_rtt_last_started_at
            &&& r.ack_aggregation == d.ack_aggregation
            &&& r.max_bandwidth == d.max_bandwidth
        }),
{
}

proof fn lemma_mode_stamps(m: Bbr, now: Instant)
    requires
        stamped_from_zero(m),
        now.micros >= 0,
    ensures
        stamped_from_zero(m.with_mode(now)),
{
    let c = m.with_cycle(now);
    let g = c.with_growth();
    let l = g.with_startup_or_drain_left(now, m.bytes_in_flight);
    assert(stamped_from_zero(c));
    lemma_growth_step(c);
    assert(g.ack_aggregation.ack_epoch_mstamp == c.ack_aggregation.ack_epoch_mstamp);
    lemma_leaving(g, now, m.bytes_in_flight);
    assert(l.last_cycle_start == g.last_cycle_start || l.last_cycle_start == Some(now));
    lemma_probe_rtt_stamps(l, now, m.round_start, m.bytes_in_flight);
}

proof fn lemma_probe_rtt_stamps(l: Bbr, now: Instant, round_start: bool, in_flight: usize)
    ensures
        ({
            let p = l.with_probe_rtt(now, round_start, in_flight);
            &&& p.last_cycle_start == l.last_cycle_start || p.last_cycle_start == Some(now)
            &&& p.probe_rtt_last_started_at == l.probe_rtt_last_started_at
                || p.probe_rtt_last_started_at == Some(now)
            &&& p.ack_aggregation == l.ack_aggregation
            &&& p.max_bandwidth == l.max_bandwidth
        }),
{
}

} // verus!
