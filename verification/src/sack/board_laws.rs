//! What the operations of a SACK scoreboard do to the numbers that it holds, counted forward
//! from a number behind which all of them lie.

use super::lemmas::{
    lemma_ahead_is_ordered, lemma_in_range_ahead, lemma_first_hole_from_start, lemma_with_added,
    lemma_with_pruned,
};
use super::laws::{cover, cover_in, law_octets_count_the_cover, law_octets_in_count_the_cover};
use super::{
    covered, first_hole, ignored, in_range, octets, octets_in, ordered_from, touches, with_added,
    with_pruned, SeqRange,
};
use crate::seq_number::{steps, TcpSeqNumber};
use vstd::prelude::*;

verus! {

/// All ranges lie within half of the circle ahead of `una`, none is empty, they come in order,
/// and between any two of them something is missing.
pub open spec fn in_order(una: TcpSeqNumber, rs: Seq<SeqRange>) -> bool {
    &&& forall|i: int|
        0 <= i < rs.len() ==> steps(una, (#[trigger] rs[i]).0) < steps(una, rs[i].1) < 0x8000_0000
    &&& forall|i: int, j: int|
        0 <= i < j < rs.len() ==> steps(una, (#[trigger] rs[i]).1) < steps(
            una,
            (#[trigger] rs[j]).0,
        )
}

/// Some range holds `x`.
pub open spec fn sacked(una: TcpSeqNumber, rs: Seq<SeqRange>, x: TcpSeqNumber) -> bool {
    exists|i: int|
        0 <= i < rs.len() && steps(una, (#[trigger] rs[i]).0) <= steps(una, x) < steps(
            una,
            rs[i].1,
        )
}

/// Some range overlaps `[start, end)` or adjoins it.
pub open spec fn merges(
    una: TcpSeqNumber,
    rs: Seq<SeqRange>,
    start: TcpSeqNumber,
    end: TcpSeqNumber,
) -> bool {
    exists|i: int|
        0 <= i < rs.len() && steps(una, start) <= steps(una, (#[trigger] rs[i]).1) && steps(
            una,
            rs[i].0,
        ) <= steps(una, end)
}

/// A range that is recorded is held from then on, with all that was held before, and nothing
/// else is; the board stays in order. Of a board with fewer than sixteen ranges this is so of
/// every range, of a full one where a range overlaps or adjoins the new one.
pub proof fn law_recorded_range_is_held(
    una: TcpSeqNumber,
    rs: Seq<SeqRange>,
    start: TcpSeqNumber,
    end: TcpSeqNumber,
)
    requires
        in_order(una, rs),
        rs.len() <= 16,
        steps(una, start) < steps(una, end) < 0x8000_0000,
        rs.len() < 16 || merges(una, rs, start, end),
    ensures
        in_order(una, with_added(rs, start, end)),
        forall|x: TcpSeqNumber| #[trigger]
            sacked(una, with_added(rs, start, end), x) <==> sacked(una, rs, x) || steps(una, start)
                <= steps(una, x) < steps(una, end),
        with_added(rs, start, end).len() <= 16,
{
    let added = with_added(rs, start, end);
    lemma_ahead_is_ordered(una);
    lemma_in_range_ahead(una);
    if rs.len() == 16 {
        let i = choose|i: int|
            0 <= i < rs.len() && steps(una, start) <= steps(una, (#[trigger] rs[i]).1) && steps(
                una,
                rs[i].0,
            ) <= steps(una, end);
        assert(touches(rs[i], (start, end)));
    }
    assert(!ignored(rs, start, end));
    lemma_with_added(una, rs, start, end);
    super::laws::lemma_added_len(rs, start, end);
    assert forall|x: TcpSeqNumber| #[trigger]
        sacked(una, added, x) <==> sacked(una, rs, x) || steps(una, start) <= steps(una, x) < steps(
            una,
            end,
        ) by {
        lemma_sacked(una, added, x);
        lemma_sacked(una, rs, x);
        assert(covered(added, x) <==> covered(rs, x) || in_range((start, end), x));
    }
}

/// A full board drops a range that it cannot merge, and any board an empty one or one that runs
/// backward.
pub proof fn law_dropped_range_changes_nothing(
    una: TcpSeqNumber,
    rs: Seq<SeqRange>,
    start: TcpSeqNumber,
    end: TcpSeqNumber,
)
    requires
        in_order(una, rs),
        rs.len() <= 16,
        steps(una, start) < 0x8000_0000,
        steps(una, end) < 0x8000_0000,
        steps(una, end) <= steps(una, start) || (rs.len() == 16 && !merges(una, rs, start, end)),
    ensures
        with_added(rs, start, end) == rs,
{
    lemma_ahead_is_ordered(una);
    if steps(una, start) < steps(una, end) {
        assert forall|i: int| 0 <= i < rs.len() implies !touches(#[trigger] rs[i], (start, end)) by {
            assert(steps(una, rs[i].1) < 0x8000_0000);
        }
    }
}

/// Pruning keeps what is held from `snd_una` on, and nothing else; the board stays in order, now
/// counted from there too.
pub proof fn law_pruning_forgets_what_lies_below(
    una: TcpSeqNumber,
    rs: Seq<SeqRange>,
    snd_una: TcpSeqNumber,
)
    requires
        in_order(una, rs),
        steps(una, snd_una) < 0x8000_0000,
    ensures
        in_order(una, with_pruned(rs, snd_una)),
        in_order(snd_una, with_pruned(rs, snd_una)),
        forall|x: TcpSeqNumber| #[trigger]
            sacked(una, with_pruned(rs, snd_una), x) <==> sacked(una, rs, x) && steps(una, snd_una)
                <= steps(una, x),
{
    let pruned = with_pruned(rs, snd_una);
    assert(rs.take(rs.len() as int) =~= rs);
    lemma_with_pruned(una, rs, rs.len() as int, snd_una);
    assert forall|x: TcpSeqNumber| #[trigger]
        sacked(una, pruned, x) <==> sacked(una, rs, x) && steps(una, snd_una) <= steps(una, x) by {
        lemma_sacked(una, pruned, x);
        lemma_sacked(una, rs, x);
        assert(covered(pruned, x) <==> covered(rs, x) && steps(una, snd_una) <= steps(una, x));
    }
}

/// The hole that is found is the first: what lies between `from` and it is held, nothing of it
/// is, and it ends at `limit` or before a number that is held. Where none is found, all between
/// `from` and `limit` is held.
pub proof fn law_first_hole_is_the_first(
    una: TcpSeqNumber,
    rs: Seq<SeqRange>,
    from: TcpSeqNumber,
    limit: TcpSeqNumber,
)
    requires
        in_order(una, rs),
        steps(una, from) < 0x8000_0000,
        steps(una, limit) < 0x8000_0000,
    ensures
        match first_hole(rs, from, limit) {
            Some((a, b)) => {
                &&& steps(una, from) <= steps(una, a) < steps(una, b) <= steps(una, limit)
                &&& forall|x: TcpSeqNumber|
                    steps(una, from) <= steps(una, x) < steps(una, a) ==> #[trigger] sacked(
                        una,
                        rs,
                        x,
                    )
                &&& forall|x: TcpSeqNumber|
                    steps(una, a) <= steps(una, x) < steps(una, b) ==> !#[trigger] sacked(
                        una,
                        rs,
                        x,
                    )
                &&& b == limit || sacked(una, rs, b)
            },
            None => forall|x: TcpSeqNumber|
                steps(una, from) <= steps(una, x) < steps(una, limit) ==> #[trigger] sacked(
                    una,
                    rs,
                    x,
                ),
        },
{
    assert(ordered_from(una, rs));
    lemma_first_hole_from_start(rs, from, limit);
    assert forall|x: TcpSeqNumber| #[trigger] sacked(una, rs, x) == covered(rs, x) by {
        lemma_sacked(una, rs, x);
    }
}

/// The octets are as many as the numbers that are held, and those within `[from, to)` as many
/// as the numbers of it that are; none where `to` does not lie beyond `from`.
pub proof fn law_octets_are_numbers_held(
    una: TcpSeqNumber,
    rs: Seq<SeqRange>,
    from: TcpSeqNumber,
    to: TcpSeqNumber,
)
    requires
        in_order(una, rs),
        steps(una, from) < 0x8000_0000,
        steps(una, to) < 0x8000_0000,
    ensures
        octets(rs) == Set::new(|x: TcpSeqNumber| sacked(una, rs, x)).len(),
        steps(una, from) < steps(una, to) ==> octets_in(rs, from, to) == Set::new(
            |x: TcpSeqNumber|
                sacked(una, rs, x) && steps(una, from) <= steps(una, x) < steps(una, to),
        ).len(),
        steps(una, to) <= steps(una, from) ==> octets_in(rs, from, to) == 0,
{
    lemma_ahead_is_ordered(una);
    lemma_in_range_ahead(una);
    assert(ordered_from(una, rs));
    law_octets_count_the_cover(una, rs);
    assert forall|x: TcpSeqNumber| #[trigger] sacked(una, rs, x) == covered(rs, x) by {
        lemma_sacked(una, rs, x);
    }
    assert(Set::new(|x: TcpSeqNumber| sacked(una, rs, x)) =~= cover(rs));
    if steps(una, from) < steps(una, to) {
        law_octets_in_count_the_cover(una, rs, from, to);
        assert forall|x: TcpSeqNumber| #[trigger] in_range((from, to), x) <==> steps(una, from)
            <= steps(una, x) < steps(una, to) by {}
        assert(Set::new(
            |x: TcpSeqNumber|
                sacked(una, rs, x) && steps(una, from) <= steps(una, x) < steps(una, to),
        ) =~= cover_in(rs, from, to));
    }
}

/// On an ordered board both ways to say that a number is held agree.
proof fn lemma_sacked(una: TcpSeqNumber, rs: Seq<SeqRange>, x: TcpSeqNumber)
    requires
        in_order(una, rs),
    ensures
        sacked(una, rs, x) == covered(rs, x),
{
    lemma_in_range_ahead(una);
    if covered(rs, x) {
        let i = choose|i: int| 0 <= i < rs.len() && in_range(#[trigger] rs[i], x);
        assert(steps(una, rs[i].0) <= steps(una, x) < steps(una, rs[i].1));
    }
    if sacked(una, rs, x) {
        let i = choose|i: int|
            0 <= i < rs.len() && steps(una, (#[trigger] rs[i]).0) <= steps(una, x) < steps(
                una,
                rs[i].1,
            );
        assert(in_range(rs[i], x));
    }
}

} // verus!
