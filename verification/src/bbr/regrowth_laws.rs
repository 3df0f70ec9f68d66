//! Laws of how the window grows, and regrows after a timeout, toward its target.

use super::laws::{after_acks, total_len, AckEvent};
use super::steps::{
    lemma_lossless_model, lemma_mode, lemma_model, lemma_windows, lemma_windows_prev,
};
use super::{Bbr, Mode};
use crate::rtt::RttEstimator;
use crate::time::Instant;
use vstd::arithmetic::power2::{lemma_pow2_pos, lemma_pow2_unfold, pow2};
use vstd::math::min;
use vstd::prelude::*;

verus! {

/// No losses wait to be accounted for, and none whose recovery has yet to be entered.
pub open spec fn settled(s: Bbr) -> bool {
    !s.lossy() && (s.recovering() ==> s.prev_in_recovery)
}

/// The window may follow its target: packets are not conserved, and the round-trip time is not
/// probed for.
pub open spec fn follows_target(s: Bbr) -> bool {
    s.mode != Mode::ProbeRtt && !s.packet_conservation
}

/// With all losses accounted for, the window grows toward the target by all that is ACKed: up
/// to any goal that the target reaches.
pub proof fn law_window_grows_toward_the_target(
    s: Bbr,
    now: Instant,
    len: usize,
    in_flight: usize,
    rtt: RttEstimator,
    goal: int,
)
    requires
        settled(s),
        follows_target(s.with_ack(now, len, in_flight, rtt)),
        goal <= s.with_ack(now, len, in_flight, rtt).aggregated_target(),
    ensures
        s.with_ack(now, len, in_flight, rtt).cwnd >= min(goal, s.cwnd + len),
        settled(s.with_ack(now, len, in_flight, rtt)),
{
    let i = s.with_in_flight(in_flight);
    let m = i.with_model(now, len, rtt);
    let p = m.with_mode(now);
    let w = p.with_windows(len);
    lemma_lossless_model(s, now, len, in_flight, rtt);
    lemma_model(i, now, len, rtt);
    lemma_mode(m, now);
    lemma_windows(p, len);
    lemma_windows_prev(p, len);
    assert(p.with_conservation().aggregated_target() == w.aggregated_target());
}

/// At each of the ACKs the window may follow its target, and the target reaches `goal`.
pub open spec fn target_reaches(s: Bbr, acks: Seq<AckEvent>, goal: int) -> bool
    decreases acks.len(),
{
    acks.len() > 0 ==> {
        &&& target_reaches(s, acks.drop_last(), goal)
        &&& follows_target(after_acks(s, acks))
        &&& goal <= after_acks(s, acks).aggregated_target()
    }
}

/// The window regrows by all that is ACKed, up to any goal that the target keeps reaching.
pub proof fn law_window_regrows_up_to_the_target(s: Bbr, acks: Seq<AckEvent>, goal: int)
    requires
        settled(s),
        target_reaches(s, acks, goal),
    ensures
        after_acks(s, acks).cwnd >= min(goal, s.cwnd + total_len(acks)),
        settled(after_acks(s, acks)),
    decreases acks.len(),
{
    if acks.len() > 0 {
        let e = acks.last();
        law_window_regrows_up_to_the_target(s, acks.drop_last(), goal);
        law_window_grows_toward_the_target(
            after_acks(s, acks.drop_last()),
            e.now,
            e.len,
            e.in_flight,
            e.rtt,
            goal,
        );
    }
}

/// The controller after rounds of ACKs, from the first to the last.
pub open spec fn after_rounds(s: Bbr, rounds: Seq<Seq<AckEvent>>) -> Bbr
    decreases rounds.len(),
{
    if rounds.len() == 0 {
        s
    } else {
        after_acks(after_rounds(s, rounds.drop_last()), rounds.last())
    }
}

/// In each of the rounds the window is ACKed, but for up to `slack` bytes of it, and the target
/// reaches `goal`.
pub open spec fn rounds_ack_the_window(
    s: Bbr,
    rounds: Seq<Seq<AckEvent>>,
    slack: int,
    goal: int,
) -> bool
    decreases rounds.len(),
{
    rounds.len() > 0 ==> {
        let before = after_rounds(s, rounds.drop_last());
        &&& rounds_ack_the_window(s, rounds.drop_last(), slack, goal)
        &&& target_reaches(before, rounds.last(), goal)
        &&& total_len(rounds.last()) + slack >= before.cwnd
    }
}

/// Slow start: each round in which the window is ACKed doubles it, up to any goal that the
/// target keeps reaching. Where up to `slack` bytes of the window are not ACKed, because only
/// whole segments are, what the window is above `slack` doubles.
pub proof fn law_rounds_double_the_window(
    s: Bbr,
    rounds: Seq<Seq<AckEvent>>,
    slack: int,
    goal: int,
)
    requires
        settled(s),
        0 <= slack <= s.cwnd,
        rounds_ack_the_window(s, rounds, slack, goal),
    ensures
        after_rounds(s, rounds).cwnd >= min(goal, slack + pow2(rounds.len()) * (s.cwnd - slack)),
        settled(after_rounds(s, rounds)),
    decreases rounds.len(),
{
    if rounds.len() > 0 {
        let before = after_rounds(s, rounds.drop_last());
        law_rounds_double_the_window(s, rounds.drop_last(), slack, goal);
        law_window_regrows_up_to_the_target(before, rounds.last(), goal);
        lemma_total_len(rounds.last());
        lemma_doubling(
            rounds.len(),
            s.cwnd - slack,
            slack,
            goal,
            before.cwnd as int,
            total_len(rounds.last()),
            after_rounds(s, rounds).cwnd as int,
        );
    } else {
        assert(pow2(0) == 1) by {
            vstd::arithmetic::power2::lemma2_to64();
        }
        assert(1 * (s.cwnd - slack) == s.cwnd - slack);
    }
}

proof fn lemma_total_len(acks: Seq<AckEvent>)
    ensures
        total_len(acks) >= 0,
    decreases acks.len(),
{
    if acks.len() > 0 {
        lemma_total_len(acks.drop_last());
    }
}

proof fn lemma_doubling(n: nat, above: int, slack: int, goal: int, before: int, total: int, after: int)
    requires
        n > 0,
        above >= 0,
        slack >= 0,
        before >= min(goal, slack + pow2((n - 1) as nat) * above),
        total >= 0,
        total + slack >= before,
        after >= min(goal, before + total),
    ensures
        after >= min(goal, slack + pow2(n) * above),
{
    lemma_pow2_unfold(n);
    let half = pow2((n - 1) as nat);
    lemma_pow2_pos((n - 1) as nat);
    assert(pow2(n) * above == 2 * (half * above)) by (nonlinear_arith)
        requires
            pow2(n) == 2 * half,
    ;
    assert(half * above >= 0) by (nonlinear_arith)
        requires
            half > 0,
            above >= 0,
    ;
}

} // verus!
