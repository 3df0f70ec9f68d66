//! "Brutal" congestion control: send at a fixed, configured rate regardless of loss.

use crate::rtt::RttEstimator;
use crate::time::{Duration, Instant};
use vstd::math::{max, min};
use vstd::prelude::*;

verus! {

/// Congestion-window gain over the BDP (headroom so pacing, not cwnd, is the limiter).
pub const WINDOW_GAIN: u64 = 2;

/// Absolute floor for the window so it is never 0 / tiny on cold start.
pub const MIN_WINDOW: usize = 65536;

/// RTT assumption before the first sample, in microseconds. It keeps the initial window
/// non-trivial so the connection can ramp before the RTT is known.
pub const DEFAULT_RTT_MICROS: u64 = 100_000;

/// The larger of `x` and `y`.
pub open spec fn at_least(x: int, y: int) -> int {
    if x > y {
        x
    } else {
        y
    }
}

/// The smaller of `x` and `y`.
pub open spec fn at_most(x: int, y: int) -> int {
    if x < y {
        x
    } else {
        y
    }
}

/// Fixed-rate congestion control. Unlike loss- or model-based controllers, the
/// congestion window is *not* the limiter: it is kept wide (BDP x gain) and the actual
/// send rate is enforced entirely by pacing. Losses are not compensated for.
#[derive(Debug)]
pub struct Brutal {
    /// Target send rate in bytes/sec. 0 until [`set_rate`](Self::set_rate) is called:
    /// pacing is then disabled and the window alone limits.
    pub rate_bytes_per_sec: u64,
    /// Maximum segment size.
    pub mss: usize,
    /// Smoothed RTT, used to size the congestion window.
    pub rtt: Duration,
}

impl Brutal {
    /// The least window: ten segments, and never less than [`MIN_WINDOW`].
    pub open spec fn floor(&self) -> int {
        at_least(at_most(self.mss * 10, usize::MAX as int), MIN_WINDOW as int)
    }

    /// The bandwidth-delay product in bytes, the RTT taken in whole milliseconds and as at
    /// least one; a product beyond 64 bits counts as the largest of them.
    pub open spec fn bdp(&self) -> int {
        at_most(
            self.rate_bytes_per_sec * at_least(self.rtt.micros as int / 1000, 1),
            u64::MAX as int,
        ) / 1000
    }

    /// The congestion window: the BDP times the gain, never below the floor; the floor alone
    /// while there is no rate.
    pub open spec fn sized_window(&self) -> int {
        if self.rate_bytes_per_sec == 0 {
            self.floor()
        } else {
            at_least(at_most(self.bdp() * WINDOW_GAIN, usize::MAX as int), self.floor())
        }
    }

    /// A controller with no rate yet.
    pub fn new() -> (r: Self)
        ensures
            r.rate_bytes_per_sec == 0,
            r.mss == 1480,
            r.rtt.micros == DEFAULT_RTT_MICROS,
    {
        Brutal { rate_bytes_per_sec: 0, mss: 1480, rtt: Duration { micros: DEFAULT_RTT_MICROS } }
    }

    /// Inject the fixed target rate (bytes/sec).
    pub fn set_rate(&mut self, bytes_per_sec: u64)
        ensures
            *final(self) == (Brutal { rate_bytes_per_sec: bytes_per_sec, ..*old(self) }),
    {
        self.rate_bytes_per_sec = bytes_per_sec;
    }

    /// The congestion window: the BDP times the gain, never below the floor; the floor
    /// alone while there is no rate.
    pub fn window(&self) -> (r: usize)
        ensures
            r == self.sized_window(),
            r >= MIN_WINDOW,
            r == ({
                let millis = max(self.rtt.micros as int / 1000, 1);
                let bytes = min(self.rate_bytes_per_sec * millis, u64::MAX as int) / 1000;
                let floor = max(min(self.mss * 10, usize::MAX as int), 65_536);
                max(min(bytes * 2, usize::MAX as int), floor)
            }),
    {
        let ten_segments: usize = match self.mss.checked_mul(10) {
            Some(n) => n,
            None => usize::MAX,
        };
        let floor: usize = ten_segments.max(MIN_WINDOW);
        if self.rate_bytes_per_sec == 0 {
            return floor;
        }
        let rtt_ms: u64 = self.rtt.total_millis().max(1);
        let bytes: u64 = match self.rate_bytes_per_sec.checked_mul(rtt_ms) {
            Some(n) => n,
            None => u64::MAX,
        };
        let bdp: u64 = bytes / 1000;
        let win: u64 = bdp * WINDOW_GAIN;
        let win: usize = if win <= usize::MAX as u64 {
            win as usize
        } else {
            usize::MAX
        };
        win.max(floor)
    }

    /// An ACK arrived: track the RTT for sizing the window.
    pub fn on_ack(&mut self, _now: Instant, _len: usize, rtt: &RttEstimator)
        ensures
            *final(self) == (Brutal {
                rtt: match rtt.smoothed {
                    Some(srtt) => srtt,
                    None => old(self).rtt,
                },
                ..*old(self)
            }),
    {
        if let Some(srtt) = rtt.smoothed_rtt() {
            self.rtt = srtt;
        }
    }

    /// Set the maximum segment size.
    pub fn set_mss(&mut self, mss: usize)
        ensures
            *final(self) == (Brutal { mss, ..*old(self) }),
    {
        self.mss = mss;
    }

    /// The rate to pace at, in bytes/sec; 0 disables pacing.
    pub fn pacing_rate(&self) -> (r: u64)
        ensures
            r == self.rate_bytes_per_sec,
    {
        self.rate_bytes_per_sec
    }
}

impl Default for Brutal {
    fn default() -> (r: Self)
        ensures
            r.rate_bytes_per_sec == 0,
            r.mss == 1480,
            r.rtt.micros == DEFAULT_RTT_MICROS,
    {
        Self::new()
    }
}

/// The window is twice what the rate sends in a round-trip time, the time taken in whole
/// milliseconds and as at least one; or ten segments, or 64 KiB, whichever is most.
pub proof fn law_window_is_twice_the_rate_times_the_rtt(b: Brutal)
    requires
        b.rate_bytes_per_sec * max(b.rtt.micros as int / 1000, 1) <= u64::MAX,
        b.rate_bytes_per_sec * max(b.rtt.micros as int / 1000, 1) / 1000 * 2 <= usize::MAX,
        b.mss * 10 <= usize::MAX,
    ensures
        b.sized_window() == max(
            2 * (b.rate_bytes_per_sec * max(b.rtt.micros as int / 1000, 1) / 1000),
            max(10 * b.mss, 65_536),
        ),
{
    assert(b.rate_bytes_per_sec * max(b.rtt.micros as int / 1000, 1) >= 0) by (nonlinear_arith);
    lemma_no_rate(b);
}

/// The window never limits the rate: it holds what the rate sends in a round-trip time, to the
/// byte, whatever the time is.
pub proof fn law_window_holds_what_the_rate_sends(b: Brutal)
    requires
        b.rate_bytes_per_sec * max(b.rtt.micros as int / 1000, 1) <= u64::MAX,
        b.rate_bytes_per_sec * max(b.rtt.micros as int / 1000, 1) / 1000 * 2 <= usize::MAX,
    ensures
        (b.sized_window() + 2) * 1000 >= 2 * (b.rate_bytes_per_sec * max(
            b.rtt.micros as int / 1000,
            1,
        )),
        b.sized_window() >= 65_536,
        b.sized_window() >= min(10 * b.mss, usize::MAX as int),
{
    assert(b.rate_bytes_per_sec * max(b.rtt.micros as int / 1000, 1) >= 0) by (nonlinear_arith);
    lemma_no_rate(b);
}

/// A higher rate, a longer round-trip time or a larger segment never makes the window smaller.
pub proof fn law_window_grows_with_rate_and_rtt(a: Brutal, b: Brutal)
    requires
        a.rate_bytes_per_sec <= b.rate_bytes_per_sec,
        a.rtt.micros <= b.rtt.micros,
        a.mss <= b.mss,
    ensures
        a.sized_window() <= b.sized_window(),
{
    let x = max(a.rtt.micros as int / 1000, 1);
    let y = max(b.rtt.micros as int / 1000, 1);
    assert(0 <= a.rate_bytes_per_sec * x <= b.rate_bytes_per_sec * y) by (nonlinear_arith)
        requires
            0 <= a.rate_bytes_per_sec <= b.rate_bytes_per_sec,
            1 <= x <= y,
    ;
    lemma_no_rate(a);
    lemma_no_rate(b);
}

/// Without a rate the formula gives the floor.
proof fn lemma_no_rate(b: Brutal)
    requires
        b.rate_bytes_per_sec * max(b.rtt.micros as int / 1000, 1) >= 0,
    ensures
        b.rate_bytes_per_sec == 0 ==> b.rate_bytes_per_sec * max(b.rtt.micros as int / 1000, 1)
            == 0,
{
    let millis = max(b.rtt.micros as int / 1000, 1);
    assert(0 * millis == 0);
}

} // verus!
