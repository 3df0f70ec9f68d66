//! The law of the ACK clock: the window regrows because the ACKs of one round raise the target
//! of the next.

use super::estimation_laws::{
    law_app_limited_samples_only_raise, law_estimate_reaches_the_sample,
};
use super::gain::{
    law_scaling_is_off_by_at_most_a_byte, PROBE_BW_CWND_GAIN, UNITS_PER_BYTE,
};
use super::laws::{after_acks, total_len, AckEvent};
use super::regrowth_laws::{
    after_rounds, follows_target, law_window_regrows_up_to_the_target, settled, target_reaches,
};
use super::steps::{
    lemma_cycle, lemma_growth_step, lemma_leaving, lemma_mode, lemma_model, lemma_probe_rtt,
    lemma_recovery, lemma_windows,
};
use super::Bbr;
use crate::time::Instant;
use vstd::arithmetic::power2::{lemma_pow2_pos, lemma_pow2_unfold, pow2};
use vstd::math::min;
use vstd::prelude::*;

verus! {

/// The ACKs of a round: each is for one segment, all carry the same timestamp, and the
/// round-trip time is `period`. Each is taken in without overflow, and leaves the window free
/// to follow its target.
pub open spec fn clocked_round(
    s: Bbr,
    acks: Seq<AckEvent>,
    now: Instant,
    period: u64,
    segment: usize,
) -> bool
    decreases acks.len(),
{
    acks.len() > 0 ==> {
        let before = after_acks(s, acks.drop_last());
        let e = acks.last();
        &&& clocked_round(s, acks.drop_last(), now, period, segment)
        &&& e.now == now
        &&& e.len == segment
        &&& e.rtt.min.micros == period
        &&& before.wf()
        &&& before.ack_fits(e.now, e.len, e.in_flight, e.rtt)
        &&& follows_target(after_acks(s, acks))
    }
}

/// The gains of the window are at least 2, as those of the controller are.
pub open spec fn gains_reach_two(s: Bbr) -> bool {
    s.cwnd_gain >= PROBE_BW_CWND_GAIN && s.high_cwnd_gain >= PROBE_BW_CWND_GAIN
}

/// The running sampling interval was begun at `start`, and with one segment more has seen at
/// least `delivered` bytes; no loss waits to be accounted for.
pub open spec fn awaits(
    s: Bbr,
    start: Instant,
    period: u64,
    segment: usize,
    delivered: int,
) -> bool {
    &&& settled(s)
    &&& gains_reach_two(s)
    &&& s.min_rtt.micros == period
    &&& match s.max_bandwidth.interval_start {
        Some((begun, acked)) => {
            &&& begun == start
            &&& s.max_bandwidth.total_acked - acked + segment >= delivered
        },
        None => false,
    }
}

/// Rounds that follow each other at the distance of a round-trip time, and in each of which the
/// window is ACKed, as far as it holds whole segments.
pub open spec fn clocked_rounds(
    s: Bbr,
    rounds: Seq<Seq<AckEvent>>,
    period: u64,
    segment: usize,
) -> bool
    decreases rounds.len(),
{
    rounds.len() > 0 ==> {
        let before = after_rounds(s, rounds.drop_last());
        let round = rounds.last();
        &&& clocked_rounds(s, rounds.drop_last(), period, segment)
        &&& round.len() > 0
        &&& rounds.len() > 1 ==> round[0].now.micros == rounds.drop_last().last()[0].now.micros
            + period
        &&& clocked_round(before, round, round[0].now, period, segment)
        &&& (round.len() + 1) * segment > before.cwnd
    }
}

/// The segments that the window holds after `n` rounds, but for three bytes: two, and what the
/// `more` segments come to that double with every other round, from the first one on.
pub open spec fn regrown(n: nat, more: nat) -> nat {
    2 + pow2((n + 1) / 2) * more
}

/// The segments that the last of `n` rounds has delivered at the next ACK.
pub open spec fn carried(n: nat, more: nat) -> nat {
    1 + pow2(n / 2) * more
}

/// The ACK clock regrows the window: where rounds of ACKs follow each other at the distance of
/// a round-trip time, of a millisecond to a second, and each ACKs the whole segments of the
/// window, what the window holds above two segments doubles with every other round. It starts
/// from `more` segments above two, the round at `start` having delivered one less in all; three
/// bytes are lost to rounding. Nothing is asked of the target: the ACKs themselves raise it.
pub proof fn law_ack_clock_regrows_the_window(
    s: Bbr,
    rounds: Seq<Seq<AckEvent>>,
    start: Instant,
    period: u64,
    segment: usize,
    more: nat,
)
    requires
        1000 <= period <= 1_000_000,
        segment >= 3,
        s.cwnd >= (2 + more) * segment - 3,
        awaits(s, start, period, segment, (1 + more) * segment),
        rounds.len() > 0 ==> rounds[0][0].now.micros == start.micros + period,
        clocked_rounds(s, rounds, period, segment),
        regrown(rounds.len(), more) * segment <= usize::MAX,
    ensures
        after_rounds(s, rounds).cwnd >= regrown(rounds.len(), more) * segment - 3,
        awaits(
            after_rounds(s, rounds),
            if rounds.len() == 0 {
                start
            } else {
                rounds.last()[0].now
            },
            period,
            segment,
            carried(rounds.len(), more) * segment,
        ),
    decreases rounds.len(),
{
    let n = rounds.len();
    if n == 0 {
        assert(pow2(0) == 1) by {
            vstd::arithmetic::power2::lemma2_to64();
        }
        assert(regrown(n, more) == 2 + more && carried(n, more) == 1 + more) by {
            assert(1 * more == more);
        }
    } else {
        let earlier = rounds.drop_last();
        let before = after_rounds(s, earlier);
        let round = rounds.last();
        let now = round[0].now;
        let begun = if earlier.len() == 0 {
            start
        } else {
            earlier.last()[0].now
        };
        let x = regrown((n - 1) as nat, more);
        let y = carried((n - 1) as nat, more);
        lemma_step(n, more, segment);
        if n > 1 {
            assert(earlier[0] == rounds[0]);
        } else {
            assert(rounds[0] == round);
        }
        law_ack_clock_regrows_the_window(s, earlier, start, period, segment, more);
        lemma_round(before, round, begun, now, period, segment, y * segment);
        lemma_count(round.len(), x, segment, before.cwnd as int);
    }
}

/// A window of `x` segments but for three bytes holds one segment less in whole ones.
proof fn lemma_count(acks: nat, x: nat, segment: usize, cwnd: int)
    requires
        (acks + 1) * segment > cwnd,
        cwnd >= x * segment - 3,
        segment >= 3,
        x >= 1,
    ensures
        acks * segment >= (x - 1) * segment,
{
    assert(acks >= x - 1) by (nonlinear_arith)
        requires
            (acks + 1) * segment > x * segment - segment,
            segment >= 3,
    ;
    assert(acks * segment >= (x - 1) * segment) by (nonlinear_arith)
        requires
            acks >= x - 1,
            segment >= 0,
    ;
}

/// From one round to the next.
proof fn lemma_step(n: nat, more: nat, segment: usize)
    requires
        n > 0,
    ensures
        ({
            let x = regrown((n - 1) as nat, more);
            let y = carried((n - 1) as nat, more);
            &&& regrown(n, more) * segment == 2 * (y * segment)
            &&& carried(n, more) * segment == (x - 1) * segment
            &&& x * segment + (x - 1) * segment >= regrown(n, more) * segment
            &&& x * segment <= regrown(n, more) * segment
        }),
{
    let x = regrown((n - 1) as nat, more);
    let y = carried((n - 1) as nat, more);
    let z = regrown(n, more);
    let small = pow2(((n - 1) / 2) as nat);
    let middle = pow2(n / 2);
    let large = pow2((n + 1) / 2);
    assert((n - 1 + 1) / 2 == n / 2);
    assert((n + 1) / 2 == (n - 1) / 2 + 1);
    lemma_pow2_pos(((n - 1) / 2) as nat);
    lemma_pow2_unfold((n + 1) / 2);
    if n % 2 == 1 {
        assert((n - 1) / 2 == n / 2);
    } else {
        assert((n + 1) / 2 == n / 2);
    }
    assert(large * more == 2 * (small * more) && small * more <= middle * more <= large * more)
        by (nonlinear_arith)
        requires
            large == 2 * small,
            small <= middle <= large,
    ;
    assert(z == 2 * y && y < x <= z && carried(n, more) == x - 1);
    assert(z * segment == 2 * (y * segment) && x * segment <= z * segment && x * segment + (x - 1)
        * segment >= z * segment) by (nonlinear_arith)
        requires
            z == 2 * y,
            y + 1 <= x <= z,
    ;
}

/// One round: the window grows by what is ACKed up to twice what the round before delivered,
/// but for three bytes, and the next round finds all that this one has delivered.
proof fn lemma_round(
    s: Bbr,
    acks: Seq<AckEvent>,
    start: Instant,
    now: Instant,
    period: u64,
    segment: usize,
    delivered: int,
)
    requires
        1000 <= period <= 1_000_000,
        segment > 0,
        2 * delivered <= usize::MAX,
        acks.len() > 0,
        awaits(s, start, period, segment, delivered),
        now.micros - start.micros == period,
        clocked_round(s, acks, now, period, segment),
    ensures
        after_acks(s, acks).cwnd >= min(2 * delivered - 3, s.cwnd + acks.len() * segment),
        awaits(after_acks(s, acks), now, period, segment, acks.len() * segment),
{
    lemma_ticks(s, acks, start, now, period, segment, delivered);
    law_window_regrows_up_to_the_target(s, acks, 2 * delivered - 3);
    assert(acks.len() * segment - segment == (acks.len() - 1) * segment) by (nonlinear_arith);
}

/// The first ACK ends the interval, and its sample counts; the others change no more than the
/// count of bytes.
proof fn lemma_ticks(
    s: Bbr,
    acks: Seq<AckEvent>,
    start: Instant,
    now: Instant,
    period: u64,
    segment: usize,
    delivered: int,
)
    requires
        1000 <= period <= 1_000_000,
        segment > 0,
        2 * delivered <= usize::MAX,
        acks.len() > 0,
        awaits(s, start, period, segment, delivered),
        now.micros - start.micros == period,
        clocked_round(s, acks, now, period, segment),
    ensures
        ({
            let t = after_acks(s, acks);
            &&& t.max_bandwidth.interval_start matches Some((start, acked)) && start == now
                && t.max_bandwidth.total_acked - acked == (acks.len() - 1) * segment
            &&& t.min_rtt.micros == period
            &&& gains_reach_two(t)
            &&& period * t.estimate() >= delivered * 1_000_000 - period
        }),
        target_reaches(s, acks, 2 * delivered - 3),
        total_len(acks) == acks.len() * segment,
    decreases acks.len(),
{
    let earlier = acks.drop_last();
    let before = after_acks(s, earlier);
    let e = acks.last();
    let t = after_acks(s, acks);
    assert(t == before.with_ack(e.now, e.len, e.in_flight, e.rtt));
    if earlier.len() == 0 {
        assert(before == s);
        lemma_first_tick(s, e, start, period, delivered);
        assert((1 - 1) * segment == 0 && 1 * segment == segment) by (nonlinear_arith);
        assert(total_len(earlier) == 0);
    } else {
        lemma_ticks(s, earlier, start, now, period, segment, delivered);
        lemma_next_tick(before, e, period);
        let n = acks.len();
        assert((n - 1) * segment == (n - 2) * segment + segment && n * segment == (n - 1) * segment
            + segment) by (nonlinear_arith);
    }
    lemma_bdp_fits(before, e);
    lemma_gains(before, e);
    lemma_target(t, period, delivered);
    assert(target_reaches(s, earlier, 2 * delivered - 3));
}

proof fn lemma_gains(s: Bbr, e: AckEvent)
    requires
        gains_reach_two(s),
    ensures
        gains_reach_two(s.with_ack(e.now, e.len, e.in_flight, e.rtt)),
{
    let i = s.with_in_flight(e.in_flight);
    let d = i.with_delivery(e.now, e.len, e.rtt);
    let m = i.with_model(e.now, e.len, e.rtt);
    let c = m.with_cycle(e.now);
    let g = c.with_growth();
    let l = g.with_startup_or_drain_left(e.now, m.bytes_in_flight);
    let p = m.with_mode(e.now);
    assert(gains_reach_two(d));
    lemma_recovery(d);
    assert(gains_reach_two(d.with_recovery(d.round_start)));
    assert(gains_reach_two(m));
    lemma_cycle(m, e.now);
    lemma_growth_step(c);
    assert(gains_reach_two(g));
    lemma_leaving(g, e.now, m.bytes_in_flight);
    assert(gains_reach_two(l));
    lemma_probe_rtt(l, e.now, m.round_start, m.bytes_in_flight);
    assert(gains_reach_two(p));
    lemma_windows(p, e.len);
}

/// Where the window follows its target, the target can be computed.
proof fn lemma_bdp_fits(s: Bbr, e: AckEvent)
    requires
        s.ack_fits(e.now, e.len, e.in_flight, e.rtt),
        follows_target(s.with_ack(e.now, e.len, e.in_flight, e.rtt)),
        e.len > 0,
    ensures
        s.with_ack(e.now, e.len, e.in_flight, e.rtt).bdp_fits(),
{
    let i = s.with_in_flight(e.in_flight);
    let m = i.with_model(e.now, e.len, e.rtt);
    let p = m.with_mode(e.now);
    lemma_windows(p, e.len);
}

proof fn lemma_first_tick(s: Bbr, e: AckEvent, start: Instant, period: u64, delivered: int)
    requires
        1000 <= period,
        s.wf(),
        awaits(s, start, period, e.len, delivered),
        e.now.micros - start.micros == period,
        s.ack_fits(e.now, e.len, e.in_flight, e.rtt),
        e.rtt.min.micros == period,
    ensures
        ({
            let t = s.with_ack(e.now, e.len, e.in_flight, e.rtt);
            &&& t.max_bandwidth.interval_start == Some((e.now, t.max_bandwidth.total_acked))
            &&& t.min_rtt.micros == period
            &&& period * t.estimate() >= delivered * 1_000_000 - period
        }),
{
    let i = s.with_in_flight(e.in_flight);
    let d = i.with_delivery(e.now, e.len, e.rtt);
    let m = i.with_model(e.now, e.len, e.rtt);
    let p = m.with_mode(e.now);
    lemma_model(i, e.now, e.len, e.rtt);
    lemma_mode(m, e.now);
    lemma_windows(p, e.len);
    let est = i.paced_estimation(e.rtt);
    let bytes = e.len as u64;
    assert(est.wf());
    assert(est.sample_interval.micros == period);
    let (seen, micros) = est.ended_interval(e.now, bytes)->0;
    assert(est.ended_interval(e.now, bytes) == Some((seen, micros)));
    assert(micros == period && seen >= delivered);
    let sample = est.sample(e.now, bytes)->0;
    let exact = seen * 1_000_000 / (period as int);
    assert(seen >= 0);
    assert(0 <= exact <= seen * 1_000_000 && exact * period >= seen * 1_000_000 - period)
        by (nonlinear_arith)
        requires
            exact == seen * 1_000_000 / (period as int),
            period >= 1000,
            seen >= 0,
    ;
    assert(sample == exact);
    if i.app_limited {
        law_app_limited_samples_only_raise(est, e.now, bytes, i.round_count);
    } else {
        law_estimate_reaches_the_sample(est, e.now, bytes, i.round_count);
    }
    let estimate = d.estimate();
    assert(estimate >= sample);
    assert(period * estimate >= exact * period) by (nonlinear_arith)
        requires
            estimate >= exact,
            period >= 0,
    ;
}

proof fn lemma_next_tick(s: Bbr, e: AckEvent, period: u64)
    requires
        1000 <= period,
        s.min_rtt.micros == period,
        s.ack_fits(e.now, e.len, e.in_flight, e.rtt),
        e.rtt.min.micros == period,
        s.max_bandwidth.interval_start matches Some((start, _)) && start == e.now,
    ensures
        ({
            let t = s.with_ack(e.now, e.len, e.in_flight, e.rtt);
            &&& t.max_bandwidth.interval_start == s.max_bandwidth.interval_start
            &&& t.max_bandwidth.total_acked == s.max_bandwidth.total_acked + e.len
            &&& t.min_rtt.micros == period
            &&& t.estimate() == s.estimate()
        }),
{
    let i = s.with_in_flight(e.in_flight);
    let m = i.with_model(e.now, e.len, e.rtt);
    let p = m.with_mode(e.now);
    lemma_model(i, e.now, e.len, e.rtt);
    lemma_mode(m, e.now);
    lemma_windows(p, e.len);
    let est = i.paced_estimation(e.rtt);
    assert(est.sample_interval.micros == period);
    assert(est.ended_interval(e.now, e.len as u64) is None);
}

/// With a gain of 2 the target is at least twice what was delivered in a round-trip time, but
/// for three bytes.
proof fn lemma_target(t: Bbr, period: u64, delivered: int)
    requires
        1000 <= period <= 1_000_000,
        2 * delivered <= usize::MAX,
        t.min_rtt.micros == period,
        t.bdp_fits(),
        gains_reach_two(t),
        period * t.estimate() >= delivered * 1_000_000 - period,
    ensures
        t.aggregated_target() >= 2 * delivered - 3,
{
    let bdp = t.bdp();
    let gain = t.cwnd_gain;
    let d = UNITS_PER_BYTE as int;
    assert(bdp == period * t.estimate());
    assert(bdp >= 0) by (nonlinear_arith)
        requires
            bdp == period * t.estimate(),
    ;
    law_scaling_is_off_by_at_most_a_byte(gain, bdp as u64);
    assert(gain * bdp >= 67_108_864 * bdp) by (nonlinear_arith)
        requires
            gain >= 67_108_864,
            bdp >= 0,
    ;
    assert(gain * bdp / d >= 2 * delivered - 2) by (nonlinear_arith)
        requires
            gain * bdp >= (2 * delivered - 2) * 33_554_432_000_000,
            d == 33_554_432_000_000,
    ;
}

} // verus!
