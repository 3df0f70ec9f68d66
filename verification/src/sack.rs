//! Sender-side SACK scoreboard.
//!
//! Records which ranges above `snd_una` the peer has reported as received out of
//! order, so that loss recovery can retransmit only the holes and so that SACKed
//! bytes stop counting against the congestion window.

mod lemmas;

pub mod board_laws;
pub mod laws;

use crate::seq_number::{
    lemma_steps, seq_gt, seq_le, seq_lt, seq_max, seq_min, steps, TcpSeqNumber, HALF,
};
use lemmas::{
    lemma_all_untouched, lemma_first_above_bounds, lemma_first_above_found,
    lemma_first_hole_from_start, lemma_highest, lemma_octets_in_prefix, lemma_octets_prefix,
    lemma_with_added, lemma_with_pruned,
};
use vstd::prelude::*;

verus! {

/// Maximum number of disjoint SACKed ranges tracked. When full, a new range that
/// cannot be merged is dropped: under-reporting SACKed data only makes recovery
/// more conservative (it retransmits more), never incorrect.
pub const MAX_RANGES: usize = 16;

/// A half-open range `[start, end)` of sequence numbers.
pub type SeqRange = (TcpSeqNumber, TcpSeqNumber);

/// `x` lies in `[r.0, r.1)`, counted forward from the start of the range.
pub open spec fn in_range(r: SeqRange, x: TcpSeqNumber) -> bool {
    steps(r.0, x) < steps(r.0, r.1)
}

/// Some range of `rs` holds `x`.
pub open spec fn covered(rs: Seq<SeqRange>, x: TcpSeqNumber) -> bool {
    exists|i: int| 0 <= i < rs.len() && in_range(#[trigger] rs[i], x)
}

/// `x` lies less than half of the circle ahead of `una`. Numbers that do are ordered
/// by how far ahead of `una` they are.
pub open spec fn ahead(una: TcpSeqNumber, x: TcpSeqNumber) -> bool {
    steps(una, x) < HALF
}

/// Going forward from `una`, for less than half of the circle, the ranges come one
/// after the other, none of them empty, and no two of them meet.
pub open spec fn ordered_from(una: TcpSeqNumber, rs: Seq<SeqRange>) -> bool {
    &&& forall|i: int|
        0 <= i < rs.len() ==> steps(una, (#[trigger] rs[i]).0) < steps(una, rs[i].1) < HALF
    &&& forall|i: int, j: int|
        0 <= i < j < rs.len() ==> steps(una, (#[trigger] rs[i]).1) < steps(
            una,
            (#[trigger] rs[j]).0,
        )
}

/// `r` overlaps `span` or is adjacent to it.
pub open spec fn touches(r: SeqRange, span: SeqRange) -> bool {
    !seq_lt(r.1, span.0) && !seq_gt(r.0, span.1)
}

/// The span from the earlier start to the later end.
pub open spec fn hull(span: SeqRange, r: SeqRange) -> SeqRange {
    (seq_min(span.0, r.0), seq_max(span.1, r.1))
}

/// `span` after taking in, from the first range to the last, each that touches it.
pub open spec fn absorbing(rs: Seq<SeqRange>, span: SeqRange) -> SeqRange
    decreases rs.len(),
{
    if rs.len() == 0 {
        span
    } else {
        let grown = absorbing(rs.drop_last(), span);
        if touches(rs.last(), grown) {
            hull(grown, rs.last())
        } else {
            grown
        }
    }
}

/// The ranges that `absorbing` does not take in.
pub open spec fn untouched(rs: Seq<SeqRange>, span: SeqRange) -> Seq<SeqRange>
    decreases rs.len(),
{
    if rs.len() == 0 {
        Seq::empty()
    } else if touches(rs.last(), absorbing(rs.drop_last(), span)) {
        untouched(rs.drop_last(), span)
    } else {
        untouched(rs.drop_last(), span).push(rs.last())
    }
}

/// The index of the first range that starts above `start`, or the length.
pub open spec fn first_above(rs: Seq<SeqRange>, start: TcpSeqNumber) -> int
    decreases rs.len(),
{
    if rs.len() == 0 {
        0
    } else {
        let before = first_above(rs.drop_last(), start);
        if before < rs.len() - 1 || seq_gt(rs.last().0, start) {
            before
        } else {
            rs.len() as int
        }
    }
}

/// `[start, end)` is empty, or the board is full and no range of it can be merged with
/// `[start, end)`: recording it then changes nothing.
pub open spec fn ignored(rs: Seq<SeqRange>, start: TcpSeqNumber, end: TcpSeqNumber) -> bool {
    ||| seq_le(end, start)
    ||| rs.len() == MAX_RANGES && forall|i: int|
        0 <= i < rs.len() ==> !touches(#[trigger] rs[i], (start, end))
}

/// The board `rs` with `[start, end)` recorded.
pub open spec fn with_added(
    rs: Seq<SeqRange>,
    start: TcpSeqNumber,
    end: TcpSeqNumber,
) -> Seq<SeqRange> {
    let kept = untouched(rs, (start, end));
    let span = absorbing(rs, (start, end));
    if ignored(rs, start, end) {
        rs
    } else {
        kept.insert(first_above(kept, span.0), span)
    }
}

/// The ranges that end above `una`, each cut off below it.
pub open spec fn with_pruned(rs: Seq<SeqRange>, una: TcpSeqNumber) -> Seq<SeqRange> {
    rs.filter(|r: SeqRange| !seq_le(r.1, una)).map_values(
        |r: SeqRange| (seq_max(r.0, una), r.1),
    )
}

/// The octets of all the ranges together.
pub open spec fn octets(rs: Seq<SeqRange>) -> int
    decreases rs.len(),
{
    if rs.len() == 0 {
        0
    } else {
        octets(rs.drop_last()) + steps(rs.last().0, rs.last().1)
    }
}

/// The octets of `r` that lie in `[from, to)`.
pub open spec fn clipped(r: SeqRange, from: TcpSeqNumber, to: TcpSeqNumber) -> int {
    let s = seq_max(r.0, from);
    let e = seq_min(r.1, to);
    if seq_gt(e, s) {
        steps(s, e)
    } else {
        0
    }
}

/// The octets of all the ranges together that lie in `[from, to)`.
pub open spec fn octets_in(rs: Seq<SeqRange>, from: TcpSeqNumber, to: TcpSeqNumber) -> int
    decreases rs.len(),
{
    if rs.len() == 0 || seq_le(to, from) {
        0
    } else {
        octets_in(rs.drop_last(), from, to) + clipped(rs.last(), from, to)
    }
}

/// The first hole at or after `a` and below `limit`: ranges that end at or before `a` are
/// passed over, one that holds `a` moves it to the end of that range, and the next one
/// bounds the hole.
pub open spec fn first_hole(
    rs: Seq<SeqRange>,
    a: TcpSeqNumber,
    limit: TcpSeqNumber,
) -> Option<SeqRange>
    decreases rs.len(),
{
    if rs.len() > 0 && seq_le(rs[0].1, a) {
        first_hole(rs.drop_first(), a, limit)
    } else if rs.len() > 0 && seq_le(rs[0].0, a) {
        first_hole(rs.drop_first(), rs[0].1, limit)
    } else if !seq_lt(a, limit) {
        None
    } else if rs.len() > 0 {
        Some((a, seq_min(rs[0].0, limit)))
    } else {
        Some((a, limit))
    }
}

/// `[from, limit)`, counted from `una`, is read as `hole` says: what comes before the hole
/// is covered, nothing of the hole is, and the hole ends at `limit` or where cover begins.
pub open spec fn is_first_hole(
    una: TcpSeqNumber,
    rs: Seq<SeqRange>,
    from: TcpSeqNumber,
    limit: TcpSeqNumber,
    hole: Option<SeqRange>,
) -> bool {
    match hole {
        Some((a, b)) => {
            &&& steps(una, from) <= steps(una, a) < steps(una, b) <= steps(una, limit)
            &&& forall|x: TcpSeqNumber|
                steps(una, from) <= steps(una, x) < steps(una, a) ==> #[trigger] covered(rs, x)
            &&& forall|x: TcpSeqNumber|
                steps(una, a) <= steps(una, x) < steps(una, b) ==> !#[trigger] covered(rs, x)
            &&& b == limit || covered(rs, b)
        },
        None => forall|x: TcpSeqNumber|
            steps(una, from) <= steps(una, x) < steps(una, limit) ==> #[trigger] covered(rs, x),
    }
}

/// The two ranges overlap or are adjacent.
fn touch(r: SeqRange, span: SeqRange) -> (res: bool)
    ensures
        res == touches(r, span),
{
    !(r.1 < span.0 || r.0 > span.1)
}

/// Sender-side record of the sequence ranges that the peer has SACKed.
#[derive(Debug, Clone, Copy)]
pub struct SackBoard {
    ranges: [SeqRange; MAX_RANGES],
    len: usize,
}

impl View for SackBoard {
    type V = Seq<SeqRange>;

    /// The recorded ranges, in the order in which the board holds them.
    closed spec fn view(&self) -> Seq<SeqRange> {
        self.ranges@.take(self.len as int)
    }
}

impl Default for SackBoard {
    fn default() -> (r: Self)
        ensures
            r@ == Seq::<SeqRange>::empty(),
    {
        SackBoard { ranges: [(TcpSeqNumber::default(), TcpSeqNumber::default()); MAX_RANGES], len: 0 }
    }
}

impl SackBoard {
    #[verifier::type_invariant]
    spec fn within_capacity(self) -> bool {
        self.len <= MAX_RANGES
    }

    /// Forget every range.
    pub fn clear(&mut self)
        ensures
            final(self)@ == Seq::<SeqRange>::empty(),
    {
        self.len = 0;
    }

    /// No range is recorded.
    pub fn is_empty(&self) -> (r: bool)
        ensures
            r == (self@.len() == 0),
    {
        proof {
            use_type_invariant(self);
        }
        self.len == 0
    }

    /// The recorded ranges.
    pub fn slice(&self) -> (r: &[SeqRange])
        ensures
            r@ == self@,
            r@.len() <= MAX_RANGES,
    {
        proof {
            use_type_invariant(self);
        }
        vstd::slice::slice_subrange(self.ranges.as_slice(), 0, self.len)
    }

    /// Record `[start, end)` as SACKed, merging with overlapping or adjacent ranges.
    pub fn add(&mut self, start: TcpSeqNumber, end: TcpSeqNumber)
        ensures
            final(self)@ == with_added(old(self)@, start, end),
            forall|una: TcpSeqNumber|
                #[trigger] ordered_from(una, old(self)@) && ahead(una, start) && ahead(una, end)
                    ==> {
                    &&& ordered_from(una, final(self)@)
                    &&& forall|x: TcpSeqNumber| #[trigger]
                        covered(final(self)@, x) <==> (covered(old(self)@, x) || (!ignored(
                            old(self)@,
                            start,
                            end,
                        ) && in_range((start, end), x)))
                },
    {
        if end <= start {
            return;
        }
        proof {
            use_type_invariant(&*self);
        }
        let ghost rs = self@;
        let ghost given = (start, end);
        let mut span: SeqRange = (start, end);
        let mut kept: [SeqRange; MAX_RANGES] = [(TcpSeqNumber::default(), TcpSeqNumber::default());
            MAX_RANGES];
        let mut kept_len: usize = 0;
        let mut i: usize = 0;
        assert(rs.take(0) =~= Seq::empty());
        assert(kept@.take(0) =~= Seq::empty());
        while i < self.len
            invariant
                i <= self.len <= MAX_RANGES,
                self@ == rs,
                kept_len <= i,
                span == absorbing(rs.take(i as int), given),
                kept@.take(kept_len as int) == untouched(rs.take(i as int), given),
            decreases self.len - i,
        {
            let r = self.ranges[i];
            proof {
                assert(r == rs[i as int]);
                assert(rs.take(i + 1).drop_last() =~= rs.take(i as int));
                assert(rs.take(i + 1).last() == r);
            }
            let ghost before = kept@.take(kept_len as int);
            if !touch(r, span) {
                kept[kept_len] = r;
                kept_len = kept_len + 1;
                assert(kept@.take(kept_len as int) =~= before.push(r));
            } else {
                span = (span.0.min(r.0), span.1.max(r.1));
            }
            i = i + 1;
        }
        assert(rs.take(self.len as int) =~= rs);
        proof {
            lemma_all_untouched(rs, given);
            assert forall|una: TcpSeqNumber|
                #[trigger] ordered_from(una, rs) && ahead(una, start) && ahead(una, end) implies {
                &&& ordered_from(una, with_added(rs, start, end))
                &&& forall|x: TcpSeqNumber| #[trigger]
                    covered(with_added(rs, start, end), x) <==> (covered(rs, x) || (!ignored(
                        rs,
                        start,
                        end,
                    ) && in_range((start, end), x)))
            } by {
                lemma_with_added(una, rs, start, end);
            }
        }
        if kept_len == MAX_RANGES {
            return;
        }
        let ghost rest = kept@.take(kept_len as int);
        let mut pos: usize = 0;
        assert(rest.take(0) =~= Seq::empty());
        proof {
            lemma_first_above_bounds(rest, span.0);
        }
        while pos < kept_len && !(kept[pos].0 > span.0)
            invariant
                pos <= kept_len < MAX_RANGES,
                rest == kept@.take(kept_len as int),
                first_above(rest.take(pos as int), span.0) == pos,
            decreases kept_len - pos,
        {
            assert(rest.take(pos + 1).drop_last() =~= rest.take(pos as int));
            assert(rest.take(pos + 1).last() == kept[pos as int]);
            pos = pos + 1;
        }
        proof {
            lemma_first_above_found(rest, span.0, pos as int);
        }
        let mut j: usize = kept_len;
        while j > pos
            invariant
                pos <= j <= kept_len < MAX_RANGES,
                rest.len() == kept_len,
                forall|k: int| 0 <= k < j ==> kept@[k] == rest[k],
                forall|k: int| j < k <= kept_len ==> #[trigger] kept@[k] == rest[k - 1],
            decreases j,
        {
            kept[j] = kept[j - 1];
            j = j - 1;
        }
        kept[pos] = span;
        self.ranges = kept;
        self.len = kept_len + 1;
        assert(self@ =~= rest.insert(pos as int, span));
    }

    /// Forget everything below `snd_una` (it has been cumulatively ACKed).
    pub fn prune(&mut self, snd_una: TcpSeqNumber)
        ensures
            final(self)@ == with_pruned(old(self)@, snd_una),
            forall|una: TcpSeqNumber| #[trigger]
                ordered_from(una, old(self)@) ==> ordered_from(una, final(self)@),
            forall|una: TcpSeqNumber| #[trigger]
                ordered_from(una, old(self)@) && ahead(una, snd_una) ==> {
                    &&& ordered_from(snd_una, final(self)@)
                    &&& forall|x: TcpSeqNumber| #[trigger]
                        covered(final(self)@, x) <==> (covered(old(self)@, x) && steps(una, snd_una)
                            <= steps(una, x))
                },
    {
        proof {
            use_type_invariant(&*self);
        }
        let ghost rs = self@;
        let ghost stays = |r: SeqRange| !seq_le(r.1, snd_una);
        let ghost cut = |r: SeqRange| (seq_max(r.0, snd_una), r.1);
        let mut out: usize = 0;
        let mut i: usize = 0;
        proof {
            reveal(Seq::filter);
            assert(rs.take(0).filter(stays).map_values(cut) =~= Seq::empty());
            assert(self.ranges@.take(0) =~= Seq::empty());
        }
        while i < self.len
            invariant
                out <= i <= self.len <= MAX_RANGES,
                rs.len() == self.len,
                stays == (|r: SeqRange| !seq_le(r.1, snd_una)),
                cut == (|r: SeqRange| (seq_max(r.0, snd_una), r.1)),
                forall|k: int| i <= k < self.len ==> self.ranges@[k] == rs[k],
                self.ranges@.take(out as int) == rs.take(i as int).filter(stays).map_values(cut),
            decreases self.len - i,
        {
            let (s, e) = self.ranges[i];
            let ghost done = rs.take(i as int);
            let ghost written = self.ranges@.take(out as int);
            proof {
                reveal(Seq::filter);
                assert(rs.take(i + 1).drop_last() =~= done);
                assert(rs.take(i + 1).last() == (s, e));
            }
            if !(e <= snd_una) {
                self.ranges[out] = (s.max(snd_una), e);
                out = out + 1;
                proof {
                    assert(rs.take(i as int + 1).filter(stays).map_values(cut) =~= done.filter(
                        stays,
                    ).map_values(cut).push(cut((s, e))));
                    assert(self.ranges@.take(out as int) =~= written.push(cut((s, e))));
                }
            }
            i = i + 1;
        }
        self.len = out;
        proof {
            assert(rs.take(rs.len() as int) =~= rs);
            assert forall|una: TcpSeqNumber| #[trigger] ordered_from(una, rs) implies ordered_from(
                una,
                with_pruned(rs, snd_una),
            ) && (ahead(una, snd_una) ==> {
                &&& ordered_from(snd_una, with_pruned(rs, snd_una))
                &&& forall|x: TcpSeqNumber| #[trigger]
                    covered(with_pruned(rs, snd_una), x) <==> (covered(rs, x) && steps(una, snd_una)
                        <= steps(una, x))
            }) by {
                lemma_with_pruned(una, rs, rs.len() as int, snd_una);
            }
        }
    }

    /// Total SACKed octets.
    pub fn sacked_bytes(&self) -> (r: usize)
        requires
            forall|i: int|
                0 <= i < self@.len() ==> ahead((#[trigger] self@[i]).0, self@[i].1),
            octets(self@) <= usize::MAX,
        ensures
            r == octets(self@),
    {
        let ranges = self.slice();
        let ghost rs = self@;
        let mut sum: usize = 0;
        let mut i: usize = 0;
        while i < ranges.len()
            invariant
                i <= ranges@.len(),
                ranges@ == rs,
                forall|k: int| 0 <= k < rs.len() ==> ahead((#[trigger] rs[k]).0, rs[k].1),
                octets(rs) <= usize::MAX,
                sum == octets(rs.take(i as int)),
            decreases ranges@.len() - i,
        {
            let (s, e) = ranges[i];
            proof {
                assert(rs.take(i + 1).drop_last() =~= rs.take(i as int));
                assert(rs[i as int] == (s, e));
                lemma_octets_prefix(rs, i + 1);
            }
            sum = sum + e.octets_since(s);
            i = i + 1;
        }
        proof {
            assert(rs.take(rs.len() as int) =~= rs);
        }
        sum
    }

    /// SACKed octets within `[from, to)`.
    pub fn sacked_in(&self, from: TcpSeqNumber, to: TcpSeqNumber) -> (r: usize)
        requires
            octets_in(self@, from, to) <= usize::MAX,
        ensures
            r == octets_in(self@, from, to),
    {
        if to <= from {
            return 0;
        }
        let ranges = self.slice();
        let ghost rs = self@;
        let mut sum: usize = 0;
        let mut i: usize = 0;
        while i < ranges.len()
            invariant
                i <= ranges@.len(),
                ranges@ == rs,
                !seq_le(to, from),
                octets_in(rs, from, to) <= usize::MAX,
                sum == octets_in(rs.take(i as int), from, to),
            decreases ranges@.len() - i,
        {
            proof {
                assert(rs.take(i + 1).drop_last() =~= rs.take(i as int));
                lemma_octets_in_prefix(rs, i + 1, from, to);
            }
            let s = ranges[i].0.max(from);
            let e = ranges[i].1.min(to);
            proof {
                lemma_steps(s, e);
            }
            if e > s {
                sum = sum + e.octets_since(s);
            }
            i = i + 1;
        }
        proof {
            assert(rs.take(rs.len() as int) =~= rs);
        }
        sum
    }

    /// Highest SACKed sequence number (exclusive end), if any.
    pub fn highest(&self) -> (r: Option<TcpSeqNumber>)
        ensures
            r == if self@.len() == 0 {
                None::<TcpSeqNumber>
            } else {
                Some(self@.last().1)
            },
            forall|una: TcpSeqNumber| #[trigger]
                ordered_from(una, self@) && r is Some ==> {
                    &&& forall|x: TcpSeqNumber| #[trigger]
                        covered(self@, x) ==> steps(una, x) < steps(una, r->0)
                    &&& exists|x: TcpSeqNumber| #[trigger]
                        covered(self@, x) && steps(una, x) + 1 == steps(una, r->0)
                },
    {
        proof {
            assert forall|una: TcpSeqNumber| #[trigger]
                ordered_from(una, self@) && self@.len() > 0 implies {
                &&& forall|x: TcpSeqNumber| #[trigger]
                    covered(self@, x) ==> steps(una, x) < steps(una, self@.last().1)
                &&& exists|x: TcpSeqNumber| #[trigger]
                    covered(self@, x) && steps(una, x) + 1 == steps(una, self@.last().1)
            } by {
                lemma_highest(una, self@);
            }
        }
        let ranges = self.slice();
        if ranges.len() == 0 {
            None
        } else {
            Some(ranges[ranges.len() - 1].1)
        }
    }

    /// First un-SACKed hole `[a, b)` with `from <= a < limit`; `b` is capped at `limit` and
    /// at the start of the next SACKed range.
    pub fn next_hole(&self, from: TcpSeqNumber, limit: TcpSeqNumber) -> (r: Option<SeqRange>)
        ensures
            r == first_hole(self@, from, limit),
            forall|una: TcpSeqNumber| #[trigger]
                ordered_from(una, self@) && ahead(una, from) && ahead(una, limit) ==> is_first_hole(
                    una,
                    self@,
                    from,
                    limit,
                    r,
                ),
    {
        proof {
            lemma_first_hole_from_start(self@, from, limit);
        }
        let ranges = self.slice();
        let ghost rs = self@;
        let mut a = from;
        let mut i: usize = 0;
        assert(rs.skip(0) =~= rs);
        while i < ranges.len()
            invariant
                i <= ranges@.len(),
                ranges@ == rs,
                self@ == rs,
                forall|una: TcpSeqNumber| #[trigger]
                    ordered_from(una, rs) && ahead(una, from) && ahead(una, limit)
                        ==> is_first_hole(una, rs, from, limit, first_hole(rs, from, limit)),
                first_hole(rs, from, limit) == first_hole(rs.skip(i as int), a, limit),
            decreases ranges@.len() - i,
        {
            let (s, e) = ranges[i];
            proof {
                assert(rs.skip(i as int)[0] == (s, e));
                assert(rs.skip(i as int).drop_first() =~= rs.skip(i + 1));
            }
            if e <= a {
                i = i + 1;
                continue ;
            }
            if s <= a {
                a = e;
                i = i + 1;
                continue ;
            }
            if a >= limit {
                return None;
            }
            return Some((a, s.min(limit)));
        }
        if a < limit {
            Some((a, limit))
        } else {
            None
        }
    }
}

} // verus!
