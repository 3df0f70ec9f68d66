//! TCP sequence numbers: points on a circle of `2^32` positions.

use core::cmp::Ordering;
use vstd::prelude::*;

verus! {

/// Number of positions on the circle.
pub const CIRCLE: i64 = 0x1_0000_0000;

/// Half of the circle: the furthest that one number can lie ahead of another.
pub const HALF: i64 = 0x8000_0000;

/// A TCP sequence number. Numbers are compared by the shorter way round the circle.
#[derive(Debug, Clone, Copy, PartialEq, Eq, Structural)]
pub struct TcpSeqNumber(pub i32);

/// How many steps forward lead from `a` to `b`, in `0..2^32`.
#[verifier::opaque]
pub open spec fn steps(a: TcpSeqNumber, b: TcpSeqNumber) -> int {
    (b.0 - a.0) % (CIRCLE as int)
}

/// `a < b`: going forward from `a`, `b` is met within half of the circle.
pub open spec fn seq_lt(a: TcpSeqNumber, b: TcpSeqNumber) -> bool {
    a != b && steps(a, b) <= HALF
}

/// `a <= b`.
pub open spec fn seq_le(a: TcpSeqNumber, b: TcpSeqNumber) -> bool {
    a == b || seq_lt(a, b)
}

/// `a > b`. Of two opposite numbers each is below the other, and neither is above.
pub open spec fn seq_gt(a: TcpSeqNumber, b: TcpSeqNumber) -> bool {
    a != b && !seq_lt(a, b)
}

/// The later of two numbers, the second where neither is above the other.
pub open spec fn seq_max(a: TcpSeqNumber, b: TcpSeqNumber) -> TcpSeqNumber {
    if seq_gt(a, b) {
        a
    } else {
        b
    }
}

/// The earlier of two numbers.
pub open spec fn seq_min(a: TcpSeqNumber, b: TcpSeqNumber) -> TcpSeqNumber {
    if seq_lt(a, b) {
        a
    } else {
        b
    }
}

/// The distance forward is counted on a circle, and what is above lies within half of it.
pub proof fn lemma_steps(a: TcpSeqNumber, b: TcpSeqNumber)
    ensures
        0 <= steps(a, b) < CIRCLE,
        steps(a, b) == 0 <==> a == b,
        a != b ==> steps(a, b) + steps(b, a) == CIRCLE,
        seq_gt(b, a) <==> 0 < steps(a, b) < HALF,
{
    reveal(steps);
}

/// Counted forward, on a circle of `2^32` positions, the distance is the difference, or what is
/// missing to it from the whole circle.
pub proof fn law_steps_go_forward(a: TcpSeqNumber, b: TcpSeqNumber)
    ensures
        steps(a, b) == (if b.0 >= a.0 {
            b.0 - a.0
        } else {
            b.0 - a.0 + 4_294_967_296
        }),
{
    reveal(steps);
}

/// One number is below another exactly where the other is met, going forward, within half of
/// the circle, and above it where it is met within less than half going backward.
pub proof fn law_order_is_by_the_shorter_way(a: TcpSeqNumber, b: TcpSeqNumber)
    ensures
        seq_lt(a, b) <==> 0 < steps(a, b) <= 0x8000_0000,
        seq_gt(a, b) <==> 0 < steps(b, a) < 0x8000_0000,
        seq_le(a, b) <==> steps(a, b) <= 0x8000_0000,
        a == b <==> steps(a, b) == 0,
        seq_max(a, b) == (if 0 < steps(b, a) < 0x8000_0000 {
            a
        } else {
            b
        }),
        seq_min(a, b) == (if 0 < steps(a, b) <= 0x8000_0000 {
            a
        } else {
            b
        }),
{
    reveal(steps);
}

impl Default for TcpSeqNumber {
    fn default() -> (r: Self)
        ensures
            r == TcpSeqNumber(0),
    {
        TcpSeqNumber(0)
    }
}

impl PartialOrd for TcpSeqNumber {
    fn partial_cmp(&self, other: &Self) -> (r: Option<Ordering>) {
        reveal(steps);
        self.0.wrapping_sub(other.0).partial_cmp(&0)
    }
}

impl vstd::std_specs::cmp::PartialOrdSpecImpl for TcpSeqNumber {
    open spec fn obeys_partial_cmp_spec() -> bool {
        true
    }

    open spec fn partial_cmp_spec(&self, other: &Self) -> Option<Ordering> {
        if *self == *other {
            Some(Ordering::Equal)
        } else if seq_lt(*self, *other) {
            Some(Ordering::Less)
        } else {
            Some(Ordering::Greater)
        }
    }
}

impl TcpSeqNumber {
    /// The later of the two numbers.
    pub fn max(self, rhs: Self) -> (r: Self)
        ensures
            r == seq_max(self, rhs),
    {
        if self > rhs {
            self
        } else {
            rhs
        }
    }

    /// The earlier of the two numbers.
    pub fn min(self, rhs: Self) -> (r: Self)
        ensures
            r == seq_min(self, rhs),
    {
        if self < rhs {
            self
        } else {
            rhs
        }
    }

    /// The number of octets from `rhs` up to `self`, which must not lie below it.
    pub fn octets_since(self, rhs: Self) -> (r: usize)
        requires
            steps(rhs, self) < HALF,
        ensures
            r == steps(rhs, self),
    {
        reveal(steps);
        self.0.wrapping_sub(rhs.0) as usize
    }
}

} // verus!
