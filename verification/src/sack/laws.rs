//! Laws of the SACK scoreboard.

use super::lemmas::{
    lemma_ahead_is_ordered, lemma_all_untouched, lemma_covered_push, lemma_first_above_bounds,
    lemma_in_range_ahead, lemma_number_at, lemma_with_added, lemma_with_pruned,
    number_at,
};
use super::{
    absorbing, ahead, covered, ignored, in_range, octets, octets_in, ordered_from, untouched,
    with_added, with_pruned, SeqRange, MAX_RANGES,
};
use crate::seq_number::{
    lemma_steps, seq_gt, seq_le, seq_lt, seq_max, seq_min, steps, TcpSeqNumber, CIRCLE, HALF,
};
use vstd::prelude::*;
use vstd::set_lib::lemma_set_disjoint_lens;

verus! {

/// The numbers that some range of `rs` holds.
pub open spec fn cover(rs: Seq<SeqRange>) -> Set<TcpSeqNumber> {
    Set::new(|x: TcpSeqNumber| covered(rs, x))
}

/// The numbers of `[from, to)` that some range of `rs` holds.
pub open spec fn cover_in(rs: Seq<SeqRange>, from: TcpSeqNumber, to: TcpSeqNumber) -> Set<
    TcpSeqNumber,
> {
    Set::new(|x: TcpSeqNumber| covered(rs, x) && in_range((from, to), x))
}

/// On a board that is ordered from `una`, the total of the ranges is the number of
/// sequence numbers that are SACKed; it is less than half of the circle, and every range
/// runs forward.
pub proof fn law_octets_count_the_cover(una: TcpSeqNumber, rs: Seq<SeqRange>)
    requires
        ordered_from(una, rs),
    ensures
        cover(rs).finite(),
        octets(rs) == cover(rs).len(),
        octets(rs) < HALF,
        forall|i: int| 0 <= i < rs.len() ==> ahead((#[trigger] rs[i]).0, rs[i].1),
{
    assert(rs.take(rs.len() as int) =~= rs);
    lemma_count(una, rs, rs.len() as int, 0, HALF as int);
    lemma_octets_are_spans(una, rs);
    assert(cover_between(una, rs, 0, HALF as int) =~= cover(rs)) by {
        lemma_in_range_ahead(una);
        assert forall|x: TcpSeqNumber| #[trigger] covered(rs, x) implies 0 <= steps(una, x)
            < HALF by {
            lemma_steps(una, x);
            let i = choose|i: int| 0 <= i < rs.len() && in_range(#[trigger] rs[i], x);
            assert(steps(una, rs[i].1) < HALF);
        }
    }
}

/// On a board that is ordered from `una`, the total within `[from, to)` is the number of
/// sequence numbers of `[from, to)` that are SACKed, and no more than the total of all.
pub proof fn law_octets_in_count_the_cover(
    una: TcpSeqNumber,
    rs: Seq<SeqRange>,
    from: TcpSeqNumber,
    to: TcpSeqNumber,
)
    requires
        ordered_from(una, rs),
        ahead(una, from),
        ahead(una, to),
        seq_lt(from, to),
    ensures
        cover_in(rs, from, to).finite(),
        octets_in(rs, from, to) == cover_in(rs, from, to).len(),
        octets_in(rs, from, to) <= octets(rs),
{
    lemma_ahead_is_ordered(una);
    lemma_steps(una, from);
    let lo = steps(una, from);
    let hi = steps(una, to);
    assert(rs.take(rs.len() as int) =~= rs);
    lemma_count(una, rs, rs.len() as int, lo, hi);
    lemma_octets_in_are_spans(una, rs, from, to);
    assert(cover_between(una, rs, lo, hi) =~= cover_in(rs, from, to)) by {
        lemma_in_range_ahead(una);
        assert forall|x: TcpSeqNumber| #[trigger] in_range((from, to), x) <==> lo <= steps(una, x)
            < hi by {}
    }
    law_octets_count_the_cover(una, rs);
    assert(cover_in(rs, from, to).subset_of(cover(rs)));
    vstd::set_lib::lemma_len_subset(cover_in(rs, from, to), cover(rs));
}

/// A board that is ordered from `una` is determined by what it covers: its ranges are the
/// maximal runs of SACKed numbers, in order.
pub proof fn law_cover_determines_the_board(una: TcpSeqNumber, a: Seq<SeqRange>, b: Seq<SeqRange>)
    requires
        ordered_from(una, a),
        ordered_from(una, b),
        forall|x: TcpSeqNumber| #[trigger] covered(a, x) <==> covered(b, x),
    ensures
        a == b,
{
    if a.len() <= b.len() {
        lemma_same_prefix(una, a, b, a.len() as int);
        lemma_no_more_ranges(una, b, a);
    } else {
        lemma_same_prefix(una, a, b, b.len() as int);
        lemma_no_more_ranges(una, a, b);
    }
    assert(a =~= b);
}

/// Recording a range a second time changes nothing.
pub proof fn law_adding_twice_is_adding_once(
    una: TcpSeqNumber,
    rs: Seq<SeqRange>,
    start: TcpSeqNumber,
    end: TcpSeqNumber,
)
    requires
        ordered_from(una, rs),
        rs.len() <= MAX_RANGES,
        ahead(una, start),
        ahead(una, end),
    ensures
        with_added(with_added(rs, start, end), start, end) == with_added(rs, start, end),
{
    if !ignored(rs, start, end) {
        let once = with_added(rs, start, end);
        lemma_with_added(una, rs, start, end);
        lemma_added_len(rs, start, end);
        lemma_with_added(una, once, start, end);
        law_cover_determines_the_board(una, with_added(once, start, end), once);
    }
}

/// While there is room, the order in which ranges are recorded does not matter.
pub proof fn law_order_of_adding_does_not_matter(
    una: TcpSeqNumber,
    rs: Seq<SeqRange>,
    r: SeqRange,
    q: SeqRange,
)
    requires
        ordered_from(una, rs),
        rs.len() + 1 < MAX_RANGES,
        ahead(una, r.0),
        ahead(una, r.1),
        ahead(una, q.0),
        ahead(una, q.1),
    ensures
        with_added(with_added(rs, r.0, r.1), q.0, q.1) == with_added(
            with_added(rs, q.0, q.1),
            r.0,
            r.1,
        ),
{
    let with_r = with_added(rs, r.0, r.1);
    let with_q = with_added(rs, q.0, q.1);
    lemma_with_added(una, rs, r.0, r.1);
    lemma_with_added(una, rs, q.0, q.1);
    lemma_added_len(rs, r.0, r.1);
    lemma_added_len(rs, q.0, q.1);
    lemma_with_added(una, with_r, q.0, q.1);
    lemma_with_added(una, with_q, r.0, r.1);
    law_cover_determines_the_board(
        una,
        with_added(with_r, q.0, q.1),
        with_added(with_q, r.0, r.1),
    );
}

/// Pruning step by step comes to the same as pruning to the last step at once.
pub proof fn law_pruning_in_steps(
    una: TcpSeqNumber,
    rs: Seq<SeqRange>,
    middle: TcpSeqNumber,
    last: TcpSeqNumber,
)
    requires
        ordered_from(una, rs),
        steps(una, middle) <= steps(una, last) < HALF,
    ensures
        with_pruned(with_pruned(rs, middle), last) == with_pruned(rs, last),
{
    let part = with_pruned(rs, middle);
    assert(rs.take(rs.len() as int) =~= rs);
    assert(part.take(part.len() as int) =~= part);
    lemma_with_pruned(una, rs, rs.len() as int, middle);
    lemma_with_pruned(una, rs, rs.len() as int, last);
    lemma_with_pruned(una, part, part.len() as int, last);
    law_cover_determines_the_board(una, with_pruned(part, last), with_pruned(rs, last));
}

/// Recording a range adds at most one to the ranges, and never exceeds the capacity.
pub proof fn lemma_added_len(rs: Seq<SeqRange>, start: TcpSeqNumber, end: TcpSeqNumber)
    requires
        rs.len() <= MAX_RANGES,
    ensures
        with_added(rs, start, end).len() <= rs.len() + 1,
        with_added(rs, start, end).len() <= MAX_RANGES,
{
    let kept = untouched(rs, (start, end));
    lemma_all_untouched(rs, (start, end));
    lemma_untouched_len(rs, (start, end));
    lemma_first_above_bounds(kept, absorbing(rs, (start, end)).0);
}

proof fn lemma_untouched_len(rs: Seq<SeqRange>, span: SeqRange)
    ensures
        untouched(rs, span).len() <= rs.len(),
    decreases rs.len(),
{
    if rs.len() > 0 {
        lemma_untouched_len(rs.drop_last(), span);
    }
}

proof fn lemma_same_number(una: TcpSeqNumber, x: TcpSeqNumber, y: TcpSeqNumber)
    requires
        steps(una, x) == steps(una, y),
    ensures
        x == y,
{
    reveal(steps);
}

/// Ordered boards with the same cover agree range by range.
proof fn lemma_same_prefix(una: TcpSeqNumber, a: Seq<SeqRange>, b: Seq<SeqRange>, n: int)
    requires
        ordered_from(una, a),
        ordered_from(una, b),
        forall|x: TcpSeqNumber| #[trigger] covered(a, x) <==> covered(b, x),
        0 <= n <= a.len(),
        n <= b.len(),
    ensures
        forall|k: int| 0 <= k < n ==> a[k] == b[k],
    decreases n,
{
    if n > 0 {
        let i = n - 1;
        lemma_same_prefix(una, a, b, i);
        lemma_start_not_before(una, a, b, i);
        lemma_start_not_before(una, b, a, i);
        lemma_same_number(una, a[i].0, b[i].0);
        lemma_end_not_before(una, a, b, i);
        lemma_end_not_before(una, b, a, i);
        lemma_same_number(una, a[i].1, b[i].1);
    }
}

proof fn lemma_start_not_before(una: TcpSeqNumber, a: Seq<SeqRange>, b: Seq<SeqRange>, i: int)
    requires
        ordered_from(una, a),
        ordered_from(una, b),
        forall|x: TcpSeqNumber| #[trigger] covered(a, x) <==> covered(b, x),
        0 <= i < a.len(),
        i < b.len(),
        forall|k: int| 0 <= k < i ==> a[k] == b[k],
    ensures
        steps(una, a[i].0) >= steps(una, b[i].0),
{
    lemma_in_range_ahead(una);
    let x = a[i].0;
    assert(in_range(a[i], x));
    assert(covered(a, x));
    assert(covered(b, x));
    let j = choose|j: int| 0 <= j < b.len() && in_range(#[trigger] b[j], x);
    if j < i {
        assert(a[j] == b[j]);
        assert(steps(una, a[j].1) < steps(una, a[i].0));
    } else if j > i {
        assert(steps(una, b[i].1) < steps(una, b[j].0));
    }
}

proof fn lemma_end_not_before(una: TcpSeqNumber, a: Seq<SeqRange>, b: Seq<SeqRange>, i: int)
    requires
        ordered_from(una, a),
        ordered_from(una, b),
        forall|x: TcpSeqNumber| #[trigger] covered(a, x) <==> covered(b, x),
        0 <= i < a.len(),
        i < b.len(),
        a[i].0 == b[i].0,
    ensures
        steps(una, a[i].1) >= steps(una, b[i].1),
{
    lemma_in_range_ahead(una);
    let x = a[i].1;
    if steps(una, x) < steps(una, b[i].1) {
        assert(in_range(b[i], x));
        assert(covered(a, x));
        let j = choose|j: int| 0 <= j < a.len() && in_range(#[trigger] a[j], x);
        if j < i {
            assert(steps(una, a[j].1) < steps(una, a[i].0));
        } else if j > i {
            assert(steps(una, a[i].1) < steps(una, a[j].0));
        }
        assert(false);
    }
}

/// A board that begins with all the ranges of another, and covers no more, has no more.
proof fn lemma_no_more_ranges(una: TcpSeqNumber, longer: Seq<SeqRange>, shorter: Seq<SeqRange>)
    requires
        ordered_from(una, longer),
        shorter.len() <= longer.len(),
        forall|k: int| 0 <= k < shorter.len() ==> shorter[k] == longer[k],
        forall|x: TcpSeqNumber| #[trigger] covered(longer, x) ==> covered(shorter, x),
    ensures
        longer.len() == shorter.len(),
{
    lemma_in_range_ahead(una);
    let i = shorter.len() as int;
    if i < longer.len() {
        let x = longer[i].0;
        assert(in_range(longer[i], x));
        assert(covered(longer, x));
        let j = choose|j: int| 0 <= j < shorter.len() && in_range(#[trigger] shorter[j], x);
        assert(shorter[j] == longer[j]);
        assert(steps(una, longer[j].1) < steps(una, longer[i].0));
    }
}

spec fn cover_between(una: TcpSeqNumber, rs: Seq<SeqRange>, lo: int, hi: int) -> Set<
    TcpSeqNumber,
> {
    Set::new(|x: TcpSeqNumber| covered(rs, x) && lo <= steps(una, x) < hi)
}

spec fn band(una: TcpSeqNumber, lo: int, hi: int) -> Set<TcpSeqNumber> {
    Set::new(|x: TcpSeqNumber| lo <= steps(una, x) < hi)
}

spec fn span_between(una: TcpSeqNumber, r: SeqRange, lo: int, hi: int) -> int {
    let s = vstd::math::max(steps(una, r.0), lo);
    let e = vstd::math::min(steps(una, r.1), hi);
    if s < e {
        e - s
    } else {
        0
    }
}

spec fn spans_between(una: TcpSeqNumber, rs: Seq<SeqRange>, lo: int, hi: int) -> int
    decreases rs.len(),
{
    if rs.len() == 0 {
        0
    } else {
        spans_between(una, rs.drop_last(), lo, hi) + span_between(una, rs.last(), lo, hi)
    }
}

proof fn lemma_band_len(una: TcpSeqNumber, lo: int, hi: int)
    requires
        0 <= lo,
        hi <= CIRCLE,
    ensures
        band(una, lo, hi).finite(),
        band(una, lo, hi).len() == if lo < hi {
            hi - lo
        } else {
            0
        },
    decreases hi - lo,
{
    if lo < hi {
        lemma_band_len(una, lo, hi - 1);
        let top = number_at(una, hi - 1);
        lemma_number_at(una, hi - 1);
        assert(band(una, lo, hi) =~= band(una, lo, hi - 1).insert(top)) by {
            assert forall|x: TcpSeqNumber| steps(una, x) == hi - 1 implies x == top by {
                reveal(steps);
            }
        }
    } else {
        assert(band(una, lo, hi) =~= Set::empty());
    }
}

proof fn lemma_count(una: TcpSeqNumber, all: Seq<SeqRange>, n: int, lo: int, hi: int)
    requires
        ordered_from(una, all),
        0 <= n <= all.len(),
        0 <= lo,
        hi <= HALF,
    ensures
        cover_between(una, all.take(n), lo, hi).finite(),
        cover_between(una, all.take(n), lo, hi).len() == spans_between(una, all.take(n), lo, hi),
    decreases n,
{
    let rs = all.take(n);
    if n == 0 {
        assert(cover_between(una, rs, lo, hi) =~= Set::empty());
    } else {
        lemma_count(una, all, n - 1, lo, hi);
        lemma_in_range_ahead(una);
        let before = all.take(n - 1);
        let r = all[n - 1];
        assert(rs.drop_last() =~= before);
        assert(rs =~= before.push(r));
        lemma_covered_push(before, r);
        let s = vstd::math::max(steps(una, r.0), lo);
        let e = vstd::math::min(steps(una, r.1), hi);
        lemma_steps(una, r.0);
        lemma_band_len(una, s, e);
        let a = cover_between(una, before, lo, hi);
        let b = band(una, s, e);
        assert(cover_between(una, rs, lo, hi) =~= a.union(b));
        assert(a.disjoint(b)) by {
            assert forall|x: TcpSeqNumber| a.contains(x) implies !b.contains(x) by {
                let i = choose|i: int| 0 <= i < before.len() && in_range(#[trigger] before[i], x);
                assert(before[i] == all[i]);
                assert(steps(una, all[i].1) < steps(una, all[n - 1].0));
            }
        }
        lemma_set_disjoint_lens(a, b);
    }
}

proof fn lemma_steps_between(una: TcpSeqNumber, a: TcpSeqNumber, b: TcpSeqNumber)
    requires
        steps(una, a) <= steps(una, b),
    ensures
        steps(a, b) == steps(una, b) - steps(una, a),
{
    reveal(steps);
}

/// The octets are the spans counted from `una`; they follow each other below `HALF`.
proof fn lemma_octets_are_spans(una: TcpSeqNumber, rs: Seq<SeqRange>)
    requires
        ordered_from(una, rs),
    ensures
        octets(rs) == spans_between(una, rs, 0, HALF as int),
        rs.len() > 0 ==> octets(rs) <= steps(una, rs.last().1) < HALF,
        rs.len() == 0 ==> octets(rs) == 0,
        forall|i: int| 0 <= i < rs.len() ==> ahead((#[trigger] rs[i]).0, rs[i].1),
    decreases rs.len(),
{
    assert forall|i: int| 0 <= i < rs.len() implies ahead((#[trigger] rs[i]).0, rs[i].1) by {
        lemma_steps(una, rs[i].0);
        lemma_steps_between(una, rs[i].0, rs[i].1);
    }
    if rs.len() > 0 {
        let before = rs.drop_last();
        assert forall|i: int| 0 <= i < before.len() implies before[i] == rs[i] by {}
        lemma_octets_are_spans(una, before);
        let r = rs[rs.len() - 1];
        lemma_steps(una, r.0);
        lemma_steps_between(una, r.0, r.1);
        if before.len() > 0 {
            assert(steps(una, rs[rs.len() - 2].1) < steps(una, rs[rs.len() - 1].0));
        }
    }
}

proof fn lemma_octets_in_are_spans(
    una: TcpSeqNumber,
    rs: Seq<SeqRange>,
    from: TcpSeqNumber,
    to: TcpSeqNumber,
)
    requires
        ordered_from(una, rs),
        ahead(una, from),
        ahead(una, to),
        seq_lt(from, to),
    ensures
        octets_in(rs, from, to) == spans_between(una, rs, steps(una, from), steps(una, to)),
    decreases rs.len(),
{
    lemma_ahead_is_ordered(una);
    assert(!seq_le(to, from));
    if rs.len() > 0 {
        let before = rs.drop_last();
        assert forall|i: int| 0 <= i < before.len() implies before[i] == rs[i] by {}
        lemma_octets_in_are_spans(una, before, from, to);
        let r = rs[rs.len() - 1];
        let s = seq_max(r.0, from);
        let e = seq_min(r.1, to);
        if seq_gt(e, s) {
            lemma_steps_between(una, s, e);
        }
    }
}

} // verus!
