//! Lemmas about the ranges of a SACK scoreboard.

use super::{
    absorbing, ahead, covered, first_above, first_hole, ignored, in_range, is_first_hole, octets,
    octets_in, ordered_from, touches, untouched, with_added, with_pruned, SeqRange, MAX_RANGES,
};
use crate::seq_number::{
    lemma_steps, seq_gt, seq_le, seq_lt, seq_max, seq_min, steps, TcpSeqNumber, CIRCLE, HALF,
};
use vstd::prelude::*;

verus! {

/// The octets of the first ranges are no more than those of all.
pub proof fn lemma_octets_prefix(rs: Seq<SeqRange>, n: int)
    requires
        0 <= n <= rs.len(),
    ensures
        0 <= octets(rs.take(n)) <= octets(rs),
    decreases rs.len(),
{
    if rs.len() > 0 {
        lemma_steps(rs.last().0, rs.last().1);
    }
    if n == rs.len() {
        assert(rs.take(n) =~= rs);
        if n > 0 {
            lemma_octets_prefix(rs.drop_last(), n - 1);
        }
    } else {
        lemma_octets_prefix(rs.drop_last(), n);
        assert(rs.drop_last().take(n) =~= rs.take(n));
    }
}

/// The octets of the first ranges in `[from, to)` are no more than those of all.
pub proof fn lemma_octets_in_prefix(
    rs: Seq<SeqRange>,
    n: int,
    from: TcpSeqNumber,
    to: TcpSeqNumber,
)
    requires
        0 <= n <= rs.len(),
    ensures
        0 <= octets_in(rs.take(n), from, to) <= octets_in(rs, from, to),
    decreases rs.len(),
{
    if rs.len() > 0 {
        lemma_steps(seq_max(rs.last().0, from), seq_min(rs.last().1, to));
    }
    if n == rs.len() {
        assert(rs.take(n) =~= rs);
        if n > 0 {
            lemma_octets_in_prefix(rs.drop_last(), n - 1, from, to);
        }
    } else {
        lemma_octets_in_prefix(rs.drop_last(), n, from, to);
        assert(rs.drop_last().take(n) =~= rs.take(n));
    }
}

/// Two numbers ahead of `una` compare as their distances from it do.
pub proof fn lemma_compare_ahead(una: TcpSeqNumber, a: TcpSeqNumber, b: TcpSeqNumber)
    requires
        ahead(una, a),
        ahead(una, b),
    ensures
        seq_lt(a, b) == (steps(una, a) < steps(una, b)),
        seq_le(a, b) == (steps(una, a) <= steps(una, b)),
        seq_gt(a, b) == (steps(una, a) > steps(una, b)),
{
    reveal(steps);
}

/// Among the numbers ahead of `una`, the comparisons are those of the distances.
pub proof fn lemma_ahead_is_ordered(una: TcpSeqNumber)
    ensures
        forall|a: TcpSeqNumber, b: TcpSeqNumber|
            ahead(una, a) && ahead(una, b) ==> #[trigger] seq_lt(a, b) == (steps(una, a) < steps(
                una,
                b,
            )),
        forall|a: TcpSeqNumber, b: TcpSeqNumber|
            ahead(una, a) && ahead(una, b) ==> #[trigger] seq_le(a, b) == (steps(una, a) <= steps(
                una,
                b,
            )),
        forall|a: TcpSeqNumber, b: TcpSeqNumber|
            ahead(una, a) && ahead(una, b) ==> #[trigger] seq_gt(a, b) == (steps(una, a) > steps(
                una,
                b,
            )),
{
    assert forall|a: TcpSeqNumber, b: TcpSeqNumber|
        ahead(una, a) && ahead(una, b) implies #[trigger] seq_lt(a, b) == (steps(una, a) < steps(
        una,
        b,
    )) by {
        lemma_compare_ahead(una, a, b);
    }
    assert forall|a: TcpSeqNumber, b: TcpSeqNumber|
        ahead(una, a) && ahead(una, b) implies #[trigger] seq_le(a, b) == (steps(una, a) <= steps(
        una,
        b,
    )) by {
        lemma_compare_ahead(una, a, b);
    }
    assert forall|a: TcpSeqNumber, b: TcpSeqNumber|
        ahead(una, a) && ahead(una, b) implies #[trigger] seq_gt(a, b) == (steps(una, a) > steps(
        una,
        b,
    )) by {
        lemma_compare_ahead(una, a, b);
    }
}

/// A range ahead of `una` holds the numbers between its ends, as counted from `una`.
pub proof fn lemma_in_range_ahead(una: TcpSeqNumber)
    ensures
        forall|r: SeqRange, x: TcpSeqNumber|
            ahead(una, r.0) && ahead(una, r.1) && steps(una, r.0) <= steps(una, r.1) ==> (
            #[trigger] in_range(r, x) <==> steps(una, r.0) <= steps(una, x) < steps(una, r.1)),
{
    reveal(steps);
}

/// What holds, `rs` being ordered from `una`, when `span` is taken through `rs`.
pub proof fn lemma_absorbing(una: TcpSeqNumber, all: Seq<SeqRange>, n: int, span: SeqRange)
    requires
        ordered_from(una, all),
        0 <= n <= all.len(),
        steps(una, span.0) < steps(una, span.1) < HALF,
    ensures
        ({
            let rs = all.take(n);
            let grown = absorbing(rs, span);
            let kept = untouched(rs, span);
            &&& steps(una, grown.0) < steps(una, grown.1) < HALF
            &&& ordered_from(una, kept)
            &&& forall|k: int|
                0 <= k < kept.len() ==> steps(una, (#[trigger] kept[k]).1) < steps(una, grown.0)
                    || steps(una, grown.1) < steps(una, kept[k].0)
            &&& forall|k: int, j: int|
                0 <= k < kept.len() && n <= j < all.len() ==> steps(una, (#[trigger] kept[k]).1)
                    < steps(una, (#[trigger] all[j]).0)
            &&& forall|x: TcpSeqNumber|
                (covered(kept, x) || in_range(grown, x)) <==> (#[trigger] covered(rs, x)
                    || in_range(span, x))
        }),
    decreases n,
{
    lemma_ahead_is_ordered(una);
    lemma_in_range_ahead(una);
    let rs = all.take(n);
    if n == 0 {
    } else {
        lemma_absorbing(una, all, n - 1, span);
        assert(rs.drop_last() =~= all.take(n - 1));
        let before = all.take(n - 1);
        let r = rs.last();
        assert(r == all[n - 1]);
        let old_grown = absorbing(before, span);
        let old_kept = untouched(before, span);
        let grown = absorbing(rs, span);
        let kept = untouched(rs, span);
        assert forall|x: TcpSeqNumber| #[trigger] covered(rs, x) == (covered(before, x)
            || in_range(r, x)) by {
            if covered(before, x) {
                let i = choose|i: int| 0 <= i < before.len() && in_range(#[trigger] before[i], x);
                assert(rs[i] == before[i]);
            }
            if in_range(r, x) {
                assert(rs[n - 1] == r);
            }
            if covered(rs, x) {
                let i = choose|i: int| 0 <= i < rs.len() && in_range(#[trigger] rs[i], x);
                if i < n - 1 {
                    assert(before[i] == rs[i]);
                }
            }
        }
        if touches(r, old_grown) {
            assert(kept == old_kept);
            assert forall|x: TcpSeqNumber| in_range(grown, x) == (in_range(old_grown, x)
                || in_range(r, x)) by {}
        } else {
            assert(kept == old_kept.push(r));
            assert forall|x: TcpSeqNumber| #[trigger] covered(kept, x) == (covered(old_kept, x)
                || in_range(r, x)) by {
                if covered(old_kept, x) {
                    let i = choose|i: int|
                        0 <= i < old_kept.len() && in_range(#[trigger] old_kept[i], x);
                    assert(kept[i] == old_kept[i]);
                }
                if in_range(r, x) {
                    assert(kept[old_kept.len() as int] == r);
                }
                if covered(kept, x) {
                    let i = choose|i: int| 0 <= i < kept.len() && in_range(#[trigger] kept[i], x);
                    if i < old_kept.len() {
                        assert(old_kept[i] == kept[i]);
                    }
                }
            }
        }
    }
}

pub proof fn lemma_first_above_bounds(rs: Seq<SeqRange>, start: TcpSeqNumber)
    ensures
        0 <= first_above(rs, start) <= rs.len(),
    decreases rs.len(),
{
    if rs.len() > 0 {
        lemma_first_above_bounds(rs.drop_last(), start);
    }
}

/// The ranges before that index do not start above `start`, and the one at it does.
pub proof fn lemma_first_above_splits(rs: Seq<SeqRange>, start: TcpSeqNumber)
    ensures
        0 <= first_above(rs, start) <= rs.len(),
        forall|k: int| 0 <= k < first_above(rs, start) ==> !seq_gt((#[trigger] rs[k]).0, start),
        first_above(rs, start) < rs.len() ==> seq_gt(rs[first_above(rs, start)].0, start),
    decreases rs.len(),
{
    if rs.len() > 0 {
        let before = rs.drop_last();
        lemma_first_above_splits(before, start);
        assert forall|k: int| 0 <= k < first_above(rs, start) implies !seq_gt(
            (#[trigger] rs[k]).0,
            start,
        ) by {
            if k < before.len() {
                assert(before[k] == rs[k]);
            }
        }
    }
}

/// Every range is kept exactly where none touches the new one, which then stays as it is.
pub proof fn lemma_all_untouched(rs: Seq<SeqRange>, span: SeqRange)
    ensures
        untouched(rs, span).len() <= rs.len(),
        untouched(rs, span).len() == rs.len() <==> forall|i: int|
            0 <= i < rs.len() ==> !touches(#[trigger] rs[i], span),
        untouched(rs, span).len() == rs.len() ==> absorbing(rs, span) == span,
    decreases rs.len(),
{
    if rs.len() > 0 {
        let before = rs.drop_last();
        lemma_all_untouched(before, span);
        assert forall|i: int| 0 <= i < before.len() implies before[i] == rs[i] by {}
        if untouched(rs, span).len() == rs.len() {
            assert forall|i: int| 0 <= i < rs.len() implies !touches(#[trigger] rs[i], span) by {
                if i < before.len() {
                    assert(!touches(before[i], span));
                }
            }
        }
        if forall|i: int| 0 <= i < rs.len() ==> !touches(#[trigger] rs[i], span) {
            assert forall|i: int| 0 <= i < before.len() implies !touches(
                #[trigger] before[i],
                span,
            ) by {
                assert(!touches(rs[i], span));
            }
            assert(rs.last() == rs[rs.len() - 1]);
        }
    }
}

/// Inserting at its place a span that no range meets keeps the order.
pub proof fn lemma_insert(una: TcpSeqNumber, kept: Seq<SeqRange>, span: SeqRange)
    requires
        ordered_from(una, kept),
        steps(una, span.0) < steps(una, span.1) < HALF,
        forall|k: int|
            0 <= k < kept.len() ==> steps(una, (#[trigger] kept[k]).1) < steps(una, span.0)
                || steps(una, span.1) < steps(una, kept[k].0),
    ensures
        ordered_from(una, kept.insert(first_above(kept, span.0), span)),
        forall|x: TcpSeqNumber| #[trigger]
            covered(kept.insert(first_above(kept, span.0), span), x) <==> (covered(kept, x)
                || in_range(span, x)),
{
    lemma_ahead_is_ordered(una);
    lemma_first_above_splits(kept, span.0);
    let pos = first_above(kept, span.0);
    let out = kept.insert(pos, span);
    assert forall|k: int| 0 <= k < out.len() implies #[trigger] out[k] == if k < pos {
        kept[k]
    } else if k == pos {
        span
    } else {
        kept[k - 1]
    } by {}
    assert forall|k: int| 0 <= k < pos implies steps(una, (#[trigger] kept[k]).1) < steps(
        una,
        span.0,
    ) by {
        assert(!seq_gt(kept[k].0, span.0));
    }
    assert forall|k: int| pos <= k < kept.len() implies steps(una, span.1) < steps(
        una,
        (#[trigger] kept[k]).0,
    ) by {
        assert(seq_gt(kept[pos].0, span.0));
        if k > pos {
            assert(steps(una, kept[pos].1) < steps(una, kept[k].0));
        }
    }
    assert(ordered_from(una, out));
    assert forall|x: TcpSeqNumber| #[trigger] covered(out, x) <==> (covered(kept, x) || in_range(
        span,
        x,
    )) by {
        if covered(kept, x) {
            let i = choose|i: int| 0 <= i < kept.len() && in_range(#[trigger] kept[i], x);
            if i < pos {
                assert(out[i] == kept[i]);
            } else {
                assert(out[i + 1] == kept[i]);
            }
        }
        if in_range(span, x) {
            assert(out[pos] == span);
        }
        if covered(out, x) {
            let i = choose|i: int| 0 <= i < out.len() && in_range(#[trigger] out[i], x);
            if i < pos {
                assert(out[i] == kept[i]);
            } else if i > pos {
                assert(out[i] == kept[i - 1]);
            }
        }
    }
}

/// Recording a range on a board that is ordered from `una`.
pub proof fn lemma_with_added(
    una: TcpSeqNumber,
    rs: Seq<SeqRange>,
    start: TcpSeqNumber,
    end: TcpSeqNumber,
)
    requires
        ordered_from(una, rs),
        rs.len() <= MAX_RANGES,
        ahead(una, start),
        ahead(una, end),
    ensures
        ordered_from(una, with_added(rs, start, end)),
        forall|x: TcpSeqNumber| #[trigger]
            covered(with_added(rs, start, end), x) <==> (covered(rs, x) || (!ignored(
                rs,
                start,
                end,
            ) && in_range((start, end), x))),
{
    lemma_ahead_is_ordered(una);
    let span = (start, end);
    lemma_all_untouched(rs, span);
    if !ignored(rs, start, end) {
        lemma_absorbing(una, rs, rs.len() as int, span);
        assert(rs.take(rs.len() as int) =~= rs);
        lemma_insert(una, untouched(rs, span), absorbing(rs, span));
    }
}

/// Pruning the first `n` ranges of a board that is ordered from `una`.
pub proof fn lemma_with_pruned(
    una: TcpSeqNumber,
    all: Seq<SeqRange>,
    n: int,
    snd_una: TcpSeqNumber,
)
    requires
        ordered_from(una, all),
        0 <= n <= all.len(),
    ensures
        ({
            let rs = all.take(n);
            let out = with_pruned(rs, snd_una);
            &&& ordered_from(una, out)
            &&& forall|k: int, j: int|
                0 <= k < out.len() && n <= j < all.len() ==> steps(una, (#[trigger] out[k]).1)
                    < steps(una, (#[trigger] all[j]).0)
            &&& forall|k: int|
                0 <= k < out.len() && ahead(una, snd_una) ==> steps(una, snd_una) <= steps(
                    una,
                    (#[trigger] out[k]).0,
                )
            &&& ahead(una, snd_una) ==> ordered_from(snd_una, out)
            &&& ahead(una, snd_una) ==> forall|x: TcpSeqNumber| #[trigger]
                covered(out, x) <==> (covered(rs, x) && steps(una, snd_una) <= steps(una, x))
            &&& n == all.len() ==> rs == all
        }),
    decreases n,
{
    reveal(Seq::filter);
    let rs = all.take(n);
    let out = with_pruned(rs, snd_una);
    let stays = |r: SeqRange| !seq_le(r.1, snd_una);
    let cut = |r: SeqRange| (seq_max(r.0, snd_una), r.1);
    if n == 0 {
        assert(out =~= Seq::empty());
    } else {
        lemma_with_pruned(una, all, n - 1, snd_una);
        let before = all.take(n - 1);
        let done = with_pruned(before, snd_una);
        assert(rs.drop_last() =~= before);
        let r = rs.last();
        assert(r == all[n - 1]);
        if stays(r) {
            assert(out =~= done.push(cut(r)));
        }
        lemma_prune_one(una, r, snd_una);
        lemma_covered_push(before, r);
        lemma_covered_push(done, cut(r));
        assert(before.push(r) =~= rs);
    }
    if ahead(una, snd_una) {
        lemma_reanchor(una, snd_una, out);
    }
    if n == all.len() {
        assert(rs =~= all);
    }
}

/// What becomes of a single range ahead of `una`.
pub proof fn lemma_prune_one(una: TcpSeqNumber, r: SeqRange, snd_una: TcpSeqNumber)
    requires
        steps(una, r.0) < steps(una, r.1) < HALF,
    ensures
        ({
            let cut = (seq_max(r.0, snd_una), r.1);
            &&& !seq_le(r.1, snd_una) ==> {
                &&& steps(una, r.0) <= steps(una, cut.0) < steps(una, cut.1)
                &&& ahead(una, snd_una) ==> steps(una, snd_una) <= steps(una, cut.0)
                &&& ahead(una, snd_una) ==> forall|x: TcpSeqNumber| #[trigger]
                    in_range(cut, x) <==> (in_range(r, x) && steps(una, snd_una) <= steps(una, x))
            }
            &&& seq_le(r.1, snd_una) && ahead(una, snd_una) ==> forall|x: TcpSeqNumber| #[trigger]
                in_range(r, x) ==> steps(una, x) < steps(una, snd_una)
        }),
{
    reveal(steps);
    lemma_ahead_is_ordered(una);
    lemma_in_range_ahead(una);
}

pub proof fn lemma_covered_push(rs: Seq<SeqRange>, r: SeqRange)
    ensures
        forall|x: TcpSeqNumber| #[trigger]
            covered(rs.push(r), x) <==> (covered(rs, x) || in_range(r, x)),
{
    let out = rs.push(r);
    assert forall|x: TcpSeqNumber| #[trigger] covered(out, x) <==> (covered(rs, x) || in_range(
        r,
        x,
    )) by {
        if covered(rs, x) {
            let i = choose|i: int| 0 <= i < rs.len() && in_range(#[trigger] rs[i], x);
            assert(out[i] == rs[i]);
        }
        if in_range(r, x) {
            assert(out[rs.len() as int] == r);
        }
        if covered(out, x) {
            let i = choose|i: int| 0 <= i < out.len() && in_range(#[trigger] out[i], x);
            if i < rs.len() {
                assert(rs[i] == out[i]);
            }
        }
    }
}

/// Ranges none of which starts before `later` are ordered from there too.
pub proof fn lemma_reanchor(una: TcpSeqNumber, later: TcpSeqNumber, rs: Seq<SeqRange>)
    requires
        ordered_from(una, rs),
        ahead(una, later),
        forall|k: int|
            0 <= k < rs.len() ==> steps(una, later) <= steps(una, (#[trigger] rs[k]).0),
    ensures
        ordered_from(later, rs),
{
    assert forall|x: TcpSeqNumber| steps(una, later) <= #[trigger] steps(una, x) < HALF implies steps(
        later,
        x,
    ) == steps(una, x) - steps(una, later) by {
        reveal(steps);
    }
    assert forall|k: int| 0 <= k < rs.len() implies {
        &&& steps(later, (#[trigger] rs[k]).0) == steps(una, rs[k].0) - steps(una, later)
        &&& steps(later, rs[k].1) == steps(una, rs[k].1) - steps(una, later)
    } by {}
    reveal(steps);
}

pub proof fn lemma_highest(una: TcpSeqNumber, rs: Seq<SeqRange>)
    requires
        ordered_from(una, rs),
        rs.len() > 0,
    ensures
        forall|x: TcpSeqNumber| #[trigger]
            covered(rs, x) ==> steps(una, x) < steps(una, rs.last().1),
        exists|x: TcpSeqNumber| #[trigger]
            covered(rs, x) && steps(una, x) + 1 == steps(una, rs.last().1),
{
    lemma_in_range_ahead(una);
    assert forall|x: TcpSeqNumber| #[trigger] covered(rs, x) implies steps(una, x) < steps(
        una,
        rs.last().1,
    ) by {
        let i = choose|i: int| 0 <= i < rs.len() && in_range(#[trigger] rs[i], x);
        if i < rs.len() - 1 {
            assert(steps(una, rs[i].1) < steps(una, rs[rs.len() - 1].0));
        }
    }
    let last = rs[rs.len() - 1];
    let x = number_at(una, steps(una, last.1) - 1);
    lemma_steps(una, last.0);
    lemma_number_at(una, steps(una, last.1) - 1);
    assert(in_range(last, x));
    assert(covered(rs, x));
}

/// The number `k` steps ahead of `una`.
pub open spec fn number_at(una: TcpSeqNumber, k: int) -> TcpSeqNumber {
    let n = una.0 + k;
    TcpSeqNumber(
        (if n > i32::MAX {
            n - CIRCLE
        } else {
            n
        }) as i32,
    )
}

pub proof fn lemma_number_at(una: TcpSeqNumber, k: int)
    requires
        0 <= k < CIRCLE,
    ensures
        steps(una, number_at(una, k)) == k,
{
    reveal(steps);
}

/// `rs` is what is left of `all` when the search has come to `a`, with `[from, a)` covered.
pub proof fn lemma_first_hole(
    una: TcpSeqNumber,
    all: Seq<SeqRange>,
    rs: Seq<SeqRange>,
    from: TcpSeqNumber,
    a: TcpSeqNumber,
    limit: TcpSeqNumber,
)
    requires
        ordered_from(una, all),
        ahead(una, from),
        ahead(una, a),
        ahead(una, limit),
        rs.len() <= all.len(),
        rs == all.skip(all.len() - rs.len()),
        steps(una, from) <= steps(una, a),
        forall|x: TcpSeqNumber|
            steps(una, from) <= steps(una, x) < steps(una, a) ==> #[trigger] covered(all, x),
        forall|k: int|
            0 <= k < all.len() - rs.len() ==> steps(una, (#[trigger] all[k]).1) <= steps(una, a),
    ensures
        is_first_hole(una, all, from, limit, first_hole(rs, a, limit)),
    decreases rs.len(),
{
    lemma_ahead_is_ordered(una);
    lemma_in_range_ahead(una);
    let n = all.len() - rs.len();
    if rs.len() > 0 {
        assert(rs[0] == all[n]);
        assert(rs.drop_first() =~= all.skip(n + 1));
    }
    if rs.len() > 0 && seq_le(rs[0].1, a) {
        lemma_first_hole(una, all, rs.drop_first(), from, a, limit);
    } else if rs.len() > 0 && seq_le(rs[0].0, a) {
        let e = rs[0].1;
        assert forall|x: TcpSeqNumber|
            steps(una, from) <= steps(una, x) < steps(una, e) implies #[trigger] covered(
            all,
            x,
        ) by {
            if steps(una, a) <= steps(una, x) {
                assert(in_range(all[n], x));
            }
        }
        assert forall|k: int| 0 <= k < n + 1 implies steps(una, (#[trigger] all[k]).1) <= steps(
            una,
            e,
        ) by {}
        lemma_first_hole(una, all, rs.drop_first(), from, e, limit);
    } else {
        let bound = if rs.len() > 0 {
            seq_min(rs[0].0, limit)
        } else {
            limit
        };
        assert forall|x: TcpSeqNumber|
            steps(una, a) <= steps(una, x) < steps(una, bound) implies !#[trigger] covered(
            all,
            x,
        ) by {
            if covered(all, x) {
                let i = choose|i: int| 0 <= i < all.len() && in_range(#[trigger] all[i], x);
                if i > n {
                    assert(steps(una, all[n].1) < steps(una, all[i].0));
                }
            }
        }
        if rs.len() > 0 {
            assert(in_range(all[n], all[n].0)) by {
                lemma_steps(all[n].0, all[n].0);
                lemma_steps(all[n].0, all[n].1);
            }
            assert(covered(all, all[n].0));
        }
    }
}

pub proof fn lemma_first_hole_from_start(
    rs: Seq<SeqRange>,
    from: TcpSeqNumber,
    limit: TcpSeqNumber,
)
    ensures
        forall|una: TcpSeqNumber| #[trigger]
            ordered_from(una, rs) && ahead(una, from) && ahead(una, limit) ==> is_first_hole(
                una,
                rs,
                from,
                limit,
                first_hole(rs, from, limit),
            ),
{
    assert forall|una: TcpSeqNumber| #[trigger]
        ordered_from(una, rs) && ahead(una, from) && ahead(una, limit) implies is_first_hole(
        una,
        rs,
        from,
        limit,
        first_hole(rs, from, limit),
    ) by {
        assert(rs =~= rs.skip(0));
        lemma_first_hole(una, rs, rs, from, from, limit);
    }
}

/// Once a range above `start` is found, those behind it do not matter.
pub proof fn lemma_first_above_found(rs: Seq<SeqRange>, start: TcpSeqNumber, pos: int)
    requires
        0 <= pos <= rs.len(),
        first_above(rs.take(pos), start) == pos,
        pos < rs.len() ==> seq_gt(rs[pos].0, start),
    ensures
        first_above(rs, start) == pos,
    decreases rs.len(),
{
    if pos == rs.len() {
        assert(rs.take(pos) =~= rs);
    } else if pos == rs.len() - 1 {
        assert(rs.drop_last() =~= rs.take(pos));
    } else {
        assert(rs.drop_last().take(pos) =~= rs.take(pos));
        lemma_first_above_found(rs.drop_last(), start, pos);
    }
}

} // verus!
