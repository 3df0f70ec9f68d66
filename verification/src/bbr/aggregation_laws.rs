//! Laws of the tracking of ACK aggregation.

use super::ack_aggregation::{
    AckAggregationState, ACK_EPOCH_ACKED_MAX, BBR_EXTRA_ACKED_MAX_US, BBR_EXTRA_ACKED_WIN_RTTS,
};
use crate::time::Instant;
use vstd::math::max;
use vstd::prelude::*;

verus! {

/// Bytes ACKed, as the tracking sees them.
pub struct Acked {
    pub newly: u64,
    pub now: Instant,
    pub round_start: bool,
    pub bandwidth: u64,
    pub cwnd: usize,
}

pub open spec fn after_acked(s: AckAggregationState, acked: Acked) -> AckAggregationState {
    s.with_acked(acked.newly, acked.now, acked.round_start, acked.bandwidth, acked.cwnd)
}

/// The state after all of it, from the first to the last.
pub open spec fn after_all(s: AckAggregationState, all: Seq<Acked>) -> AckAggregationState
    decreases all.len(),
{
    if all.len() == 0 {
        s
    } else {
        after_acked(after_all(s, all.drop_last()), all.last())
    }
}

/// The round trips that begin in it.
pub open spec fn rounds(all: Seq<Acked>) -> int
    decreases all.len(),
{
    if all.len() == 0 {
        0
    } else {
        rounds(all.drop_last()) + begun(all.last())
    }
}

/// The round trips that begin with it: one or none.
pub open spec fn begun(acked: Acked) -> int {
    if acked.newly != 0 && acked.round_start {
        1
    } else {
        0
    }
}

/// What was ACKed beyond what was expected, and not beyond the window.
pub open spec fn excess(s: AckAggregationState, acked: Acked) -> int {
    if acked.newly == 0 {
        0
    } else {
        s.excess(acked.newly, acked.now, acked.bandwidth, acked.cwnd)
    }
}

/// The maximum of both windows.
pub open spec fn tracked_max(s: AckAggregationState) -> int {
    max(s.extra_acked.0 as int, s.extra_acked.1 as int)
}

/// An excess is part of the maximum for at least as many round trips as the window is long.
pub proof fn law_excess_is_remembered(s: AckAggregationState, acked: Acked, later: Seq<Acked>)
    requires
        s.wf(),
        rounds(later) <= BBR_EXTRA_ACKED_WIN_RTTS,
    ensures
        tracked_max(after_all(after_acked(s, acked), later)) >= excess(s, acked),
{
    let t = after_acked(s, acked);
    lemma_acked_step(s, acked);
    assert(holds(t, excess(s, acked), BBR_EXTRA_ACKED_WIN_RTTS as int));
    lemma_holds(t, later, excess(s, acked), BBR_EXTRA_ACKED_WIN_RTTS as int);
}

/// An excess is forgotten after at most twice as many round trips as the window is long: from
/// then on the maximum is no more than what has been tracked since.
pub proof fn law_excess_is_forgotten(s: AckAggregationState, later: Seq<Acked>, bound: int)
    requires
        s.wf(),
        rounds(later) >= 2 * BBR_EXTRA_ACKED_WIN_RTTS,
        bound >= 0,
        forall|i: int|
            0 <= i < later.len() ==> excess(after_all(s, later.take(i)), #[trigger] later[i])
                <= bound,
    ensures
        tracked_max(after_all(s, later)) <= bound,
{
    lemma_forgets(s, later, bound);
}

/// The bytes that `bandwidth` delivers from the start of the epoch to `now`: none where it has
/// not begun, or begins later.
pub open spec fn deliverable(start: Option<Instant>, now: Instant, bandwidth: u64) -> int {
    match start {
        Some(begun) => if now.micros > begun.micros {
            bandwidth * (now.micros - begun.micros) / 1_000_000
        } else {
            0
        },
        None => 0,
    }
}

/// An epoch lasts as long as more is ACKed in it than the bandwidth delivers, and no more than
/// a mebibyte. Then a new one begins, of which nothing is expected yet.
pub proof fn law_epoch(s: AckAggregationState, acked: Acked)
    requires
        s.wf(),
        acked.newly > 0,
    ensures
        ({
            let t = after_acked(s, acked);
            let expected = deliverable(s.ack_epoch_mstamp, acked.now, acked.bandwidth);
            let ends = s.ack_epoch_acked <= expected || s.ack_epoch_acked + acked.newly
                >= 1_048_576;
            &&& ends ==> t.ack_epoch_mstamp == Some(acked.now)
            &&& ends ==> t.ack_epoch_acked == (if acked.newly <= 1_048_575 {
                acked.newly
            } else {
                1_048_575
            })
            &&& !ends ==> t.ack_epoch_mstamp == s.ack_epoch_mstamp
            &&& !ends ==> t.ack_epoch_acked == s.ack_epoch_acked + acked.newly
        }),
{
    lemma_deliverable(s, acked);
}

/// What is ACKed beyond the expectation, as far as the congestion window, counts in the current
/// window of round trips, where it exceeds what is there; the other window is left alone.
pub proof fn law_excess_enters_the_current_window(s: AckAggregationState, acked: Acked)
    requires
        s.wf(),
        acked.newly > 0,
    ensures
        ({
            let t = after_acked(s, acked);
            let expected = deliverable(s.ack_epoch_mstamp, acked.now, acked.bandwidth);
            let ends = s.ack_epoch_acked <= expected || s.ack_epoch_acked + acked.newly
                >= 1_048_576;
            let beyond = if ends {
                t.ack_epoch_acked as int
            } else {
                t.ack_epoch_acked - expected
            };
            let extra = if beyond <= acked.cwnd {
                beyond
            } else {
                acked.cwnd as int
            };
            let turns = acked.round_start && s.extra_acked_win_rtts == 4;
            let (current, other) = if s.extra_acked_win_idx == 0 {
                (s.extra_acked.0, s.extra_acked.1)
            } else {
                (s.extra_acked.1, s.extra_acked.0)
            };
            let (now_current, now_other) = if t.extra_acked_win_idx == 0 {
                (t.extra_acked.0, t.extra_acked.1)
            } else {
                (t.extra_acked.1, t.extra_acked.0)
            };
            &&& turns ==> t.extra_acked_win_idx == 1 - s.extra_acked_win_idx
                && t.extra_acked_win_rtts == 0 && now_current == extra && now_other == current
            &&& !turns ==> t.extra_acked_win_idx == s.extra_acked_win_idx && now_other == other
                && now_current == (if extra > current {
                extra
            } else {
                current as int
            })
            &&& !turns ==> t.extra_acked_win_rtts == s.extra_acked_win_rtts + (
            if acked.round_start {
                1int
            } else {
                0
            })
        }),
{
    lemma_deliverable(s, acked);
}

/// Without bytes ACKed nothing changes.
pub proof fn law_nothing_acked(s: AckAggregationState, acked: Acked)
    requires
        acked.newly == 0,
    ensures
        after_acked(s, acked) == s,
{
}

/// The window is raised by the larger excess of both windows, but by no more than the bandwidth
/// delivers in a tenth of a second; not at all before the full bandwidth is reached.
pub proof fn law_increment(s: AckAggregationState, bw: u64)
    requires
        s.wf(),
        bw * 100_000 <= u64::MAX,
        bw / 10 <= usize::MAX,
    ensures
        s.increment(bw, false) == 0,
        s.increment(bw, true) <= bw / 10,
        s.increment(bw, true) <= max(s.extra_acked.0 as int, s.extra_acked.1 as int),
        s.increment(bw, true) == bw / 10 || s.increment(bw, true) == s.extra_acked.0
            || s.increment(bw, true) == s.extra_acked.1,
        s.increment(bw, true) < bw / 10 ==> s.increment(bw, true) >= s.extra_acked.0
            && s.increment(bw, true) >= s.extra_acked.1,
{
    assert(bw * 100_000 / 1_000_000 == bw / 10);
}

proof fn lemma_deliverable(s: AckAggregationState, acked: Acked)
    ensures
        s.expected_acked(acked.now, acked.bandwidth) == deliverable(
            s.ack_epoch_mstamp,
            acked.now,
            acked.bandwidth,
        ),
        deliverable(s.ack_epoch_mstamp, acked.now, acked.bandwidth) >= 0,
{
    let micros = s.epoch_micros(acked.now);
    assert(acked.bandwidth * micros >= 0 && acked.bandwidth * 0 == 0) by (nonlinear_arith)
        requires
            acked.bandwidth >= 0,
            micros >= 0,
    ;
}

/// The window is raised for aggregation only once the full bandwidth is reached, and by no
/// more than was tracked or than the bandwidth delivers in 100 ms.
pub proof fn law_increment_is_bounded(s: AckAggregationState, bw: u64)
    requires
        s.wf(),
        bw * BBR_EXTRA_ACKED_MAX_US <= u64::MAX,
    ensures
        s.increment(bw, false) == 0,
        s.increment(bw, true) <= tracked_max(s),
        s.increment(bw, true) <= bw / 10,
{
    let delivered = bw * BBR_EXTRA_ACKED_MAX_US / 1_000_000;
    assert(delivered == bw / 10);
    assert(delivered as u64 as usize <= delivered) by {
        lemma_truncation(delivered as u64);
    }
}

proof fn lemma_truncation(x: u64)
    ensures
        (x as usize) <= x,
{
    assert((x as usize) <= x) by (bit_vector);
}

/// `x` is held for `left` more round trips.
spec fn holds(s: AckAggregationState, x: int, left: int) -> bool {
    let k = BBR_EXTRA_ACKED_WIN_RTTS as int;
    let other = if s.extra_acked_win_idx == 0 {
        1usize
    } else {
        0
    };
    &&& s.wf()
    &&& (s.slot(s.extra_acked_win_idx) >= x && left <= 2 * k - s.extra_acked_win_rtts - 1) || (
    s.slot(other) >= x && left <= k - s.extra_acked_win_rtts - 1)
}

proof fn lemma_acked_step(s: AckAggregationState, acked: Acked)
    requires
        s.wf(),
    ensures
        ({
            let w = if begun(acked) == 1 {
                s.aged()
            } else {
                s
            };
            let t = after_acked(s, acked);
            let slot = w.slot(w.extra_acked_win_idx) as int;
            &&& t.wf()
            &&& t.extra_acked == w.with_slot(max(slot, excess(s, acked)) as u64).extra_acked
            &&& t.extra_acked_win_idx == w.extra_acked_win_idx
            &&& t.extra_acked_win_rtts == w.extra_acked_win_rtts
            &&& 0 <= excess(s, acked) <= ACK_EPOCH_ACKED_MAX
        }),
{
    if acked.newly != 0 {
        let micros = s.epoch_micros(acked.now);
        assert(acked.bandwidth * micros >= 0) by (nonlinear_arith)
            requires
                acked.bandwidth >= 0,
                micros >= 0,
        ;
    }
}

proof fn lemma_holds(s: AckAggregationState, later: Seq<Acked>, x: int, left: int)
    requires
        holds(s, x, left),
        rounds(later) <= left,
    ensures
        holds(after_all(s, later), x, left - rounds(later)),
        tracked_max(after_all(s, later)) >= x,
    decreases later.len(),
{
    if later.len() > 0 {
        lemma_holds(s, later.drop_last(), x, left);
        lemma_acked_step(after_all(s, later.drop_last()), later.last());
    }
}

/// After `passed` round trips no more than `bound` is left: in the current window, and after
/// twice as many as it is long in both.
spec fn forgotten(t: AckAggregationState, passed: int, bound: int) -> bool {
    let k = BBR_EXTRA_ACKED_WIN_RTTS as int;
    &&& t.wf()
    &&& t.extra_acked_win_rtts == passed % k
    &&& passed >= k ==> t.slot(t.extra_acked_win_idx) <= bound
    &&& passed >= 2 * k ==> tracked_max(t) <= bound
}

proof fn lemma_forgets_step(t: AckAggregationState, acked: Acked, passed: int, bound: int)
    requires
        forgotten(t, passed, bound),
        passed >= 0,
        bound >= 0,
        excess(t, acked) <= bound,
    ensures
        forgotten(after_acked(t, acked), passed + begun(acked), bound),
{
    lemma_acked_step(t, acked);
}

proof fn lemma_forgets(s: AckAggregationState, later: Seq<Acked>, bound: int)
    requires
        s.wf(),
        bound >= 0,
        forall|i: int|
            0 <= i < later.len() ==> excess(after_all(s, later.take(i)), #[trigger] later[i])
                <= bound,
    ensures
        forgotten(after_all(s, later), s.extra_acked_win_rtts + rounds(later), bound),
        rounds(later) >= 0,
    decreases later.len(),
{
    if later.len() > 0 {
        let before = later.drop_last();
        let n = later.len() - 1;
        assert(later.take(n) =~= before);
        assert(later[n] == later.last());
        assert forall|i: int| 0 <= i < before.len() implies excess(
            after_all(s, before.take(i)),
            #[trigger] before[i],
        ) <= bound by {
            assert(before[i] == later[i]);
            assert(before.take(i) =~= later.take(i));
        }
        lemma_forgets(s, before, bound);
        lemma_forgets_step(
            after_all(s, before),
            later.last(),
            s.extra_acked_win_rtts + rounds(before),
            bound,
        );
    }
}

} // verus!
