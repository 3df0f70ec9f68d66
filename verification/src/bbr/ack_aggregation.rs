//! Tracking of the degree to which ACKs arrive in bursts.

use crate::time::Instant;
use vstd::math::{max, min};
use vstd::prelude::*;

verus! {

/// Gain factor for adding extra_acked to the target cwnd, in `2^-BBR_SCALE`.
pub const BBR_EXTRA_ACKED_GAIN: u32 = 256;

/// Window length of the extra_acked window in round trips.
pub const BBR_EXTRA_ACKED_WIN_RTTS: u32 = 5;

/// The largest age that is recorded of a window, in round trips.
pub const WIN_RTTS_MAX: u32 = 0x1F;

/// Value of ack_epoch_acked from which the sampling epoch is reset.
pub const BBR_ACK_EPOCH_ACKED_RESET_THRESH: u64 = 0x10_0000;

/// The largest count that is recorded of an epoch.
pub const ACK_EPOCH_ACKED_MAX: u64 = 0xF_FFFF;

/// Time period for clamping the cwnd increment due to ACK aggregation (100 ms in
/// microseconds).
pub const BBR_EXTRA_ACKED_MAX_US: u64 = 100_000;

/// Binary digits behind the point in a gain of this module.
pub const BBR_SCALE: u32 = 8;

/// How much more than the estimated bandwidth explains has been ACKed.
#[derive(Debug, Clone, Copy)]
pub struct AckAggregationState {
    /// Windowed max filter for tracking the maximum extra acked: the two latest windows.
    pub extra_acked: (u64, u64),
    /// Which of the two is the current window.
    pub extra_acked_win_idx: usize,
    /// Age of the current window in round trips.
    pub extra_acked_win_rtts: u32,
    /// Start time of the current ACK aggregation epoch.
    pub ack_epoch_mstamp: Option<Instant>,
    /// Bytes ACKed in the current sampling epoch.
    pub ack_epoch_acked: u64,
}

impl AckAggregationState {
    /// The index names a window, and the counts keep to their limits.
    pub open spec fn wf(self) -> bool {
        &&& self.extra_acked_win_idx < 2
        &&& self.extra_acked_win_rtts < BBR_EXTRA_ACKED_WIN_RTTS
        &&& self.ack_epoch_acked <= ACK_EPOCH_ACKED_MAX
        &&& self.extra_acked.0 <= ACK_EPOCH_ACKED_MAX
        &&& self.extra_acked.1 <= ACK_EPOCH_ACKED_MAX
    }

    /// Nothing tracked yet.
    pub open spec fn empty() -> Self {
        AckAggregationState {
            extra_acked: (0, 0),
            extra_acked_win_idx: 0,
            extra_acked_win_rtts: 0,
            ack_epoch_mstamp: None,
            ack_epoch_acked: 0,
        }
    }

    /// The maximum in window `idx`.
    pub open spec fn slot(self, idx: usize) -> u64 {
        if idx == 0 {
            self.extra_acked.0
        } else {
            self.extra_acked.1
        }
    }

    /// The state with `value` as the maximum in the current window.
    pub open spec fn with_slot(self, value: u64) -> Self {
        AckAggregationState {
            extra_acked: if self.extra_acked_win_idx == 0 {
                (value, self.extra_acked.1)
            } else {
                (self.extra_acked.0, value)
            },
            ..self
        }
    }

    /// The state one round trip later: after so many of them the older window is emptied
    /// and becomes the current one.
    pub open spec fn aged(self) -> Self {
        if self.extra_acked_win_rtts + 1 >= BBR_EXTRA_ACKED_WIN_RTTS {
            (AckAggregationState {
                extra_acked_win_rtts: 0,
                extra_acked_win_idx: if self.extra_acked_win_idx == 0 {
                    1
                } else {
                    0
                },
                ..self
            }).with_slot(0)
        } else {
            AckAggregationState {
                extra_acked_win_rtts: (self.extra_acked_win_rtts + 1) as u32,
                ..self
            }
        }
    }

    /// The microseconds since the epoch began, none where it has not begun.
    pub open spec fn epoch_micros(self, now: Instant) -> int {
        match self.ack_epoch_mstamp {
            Some(start) => max(now.micros - start.micros, 0),
            None => 0,
        }
    }

    /// The bytes that `bandwidth` delivers in the time since the epoch began.
    pub open spec fn expected_acked(self, now: Instant, bandwidth: u64) -> int {
        bandwidth * self.epoch_micros(now) / 1_000_000
    }

    /// The epoch ends: no more was ACKed in it than was expected, or it has become too large.
    pub open spec fn epoch_ends(self, newly: u64, now: Instant, bandwidth: u64) -> bool {
        ||| self.ack_epoch_acked <= self.expected_acked(now, bandwidth)
        ||| self.ack_epoch_acked + newly >= BBR_ACK_EPOCH_ACKED_RESET_THRESH
    }

    /// The bytes ACKed in the epoch that runs after `newly` more were.
    pub open spec fn next_epoch_acked(self, newly: u64, now: Instant, bandwidth: u64) -> int {
        let before = if self.epoch_ends(newly, now, bandwidth) {
            0
        } else {
            self.ack_epoch_acked as int
        };
        min(before + newly, ACK_EPOCH_ACKED_MAX as int)
    }

    /// What was ACKed, once `newly` more bytes were, in the epoch that then runs, beyond what
    /// was expected of it, and not beyond `cwnd`. Nothing is expected of an epoch that has
    /// just begun.
    pub open spec fn excess(self, newly: u64, now: Instant, bandwidth: u64, cwnd: usize) -> int {
        let expected = if self.epoch_ends(newly, now, bandwidth) {
            0
        } else {
            self.expected_acked(now, bandwidth)
        };
        min(max(self.next_epoch_acked(newly, now, bandwidth) - expected, 0), cwnd as int)
    }

    /// The state after `newly` bytes were ACKed at `now`. The excess of the epoch that then
    /// runs enters the current window.
    pub open spec fn with_acked(
        self,
        newly: u64,
        now: Instant,
        round_start: bool,
        bandwidth: u64,
        cwnd: usize,
    ) -> Self {
        if newly == 0 {
            self
        } else {
            let window = if round_start {
                self.aged()
            } else {
                self
            };
            let acked = self.next_epoch_acked(newly, now, bandwidth);
            let extra = self.excess(newly, now, bandwidth, cwnd);
            let slot = window.slot(window.extra_acked_win_idx) as int;
            AckAggregationState {
                ack_epoch_mstamp: if self.epoch_ends(newly, now, bandwidth) {
                    Some(now)
                } else {
                    self.ack_epoch_mstamp
                },
                ack_epoch_acked: acked as u64,
                ..window.with_slot(max(slot, extra) as u64)
            }
        }
    }

    /// Nothing overflows while `newly` bytes ACKed at `now` are taken in: not the time since
    /// the epoch began, not the bytes expected in it, and not those ACKed in it.
    pub open spec fn acked_fits(self, newly: u64, now: Instant, bandwidth: u64) -> bool {
        newly != 0 ==> {
            &&& self.epoch_micros(now) <= i64::MAX
            &&& bandwidth * self.epoch_micros(now) <= u64::MAX
            &&& self.ack_epoch_acked > self.expected_acked(now, bandwidth) ==> self.ack_epoch_acked
                + newly <= u64::MAX
        }
    }

    /// What the cwnd is raised by: the extra acked times the gain, and no more than the
    /// bandwidth delivers in 100 ms; nothing before the full bandwidth is reached.
    pub open spec fn increment(self, bw: u64, is_at_full_bandwidth: bool) -> usize {
        if !is_at_full_bandwidth {
            0
        } else {
            let clamp = (bw * BBR_EXTRA_ACKED_MAX_US / 1_000_000) as u64 as usize;
            let extra = max(self.extra_acked.0 as int, self.extra_acked.1 as int) as usize;
            if extra < clamp {
                extra
            } else {
                clamp
            }
        }
    }

    /// Nothing tracked yet.
    pub fn new() -> (r: Self)
        ensures
            r == Self::empty(),
            r.wf(),
    {
        AckAggregationState {
            extra_acked: (0, 0),
            extra_acked_win_idx: 0,
            extra_acked_win_rtts: 0,
            ack_epoch_mstamp: None,
            ack_epoch_acked: 0,
        }
    }

    /// The maximum extra acked of the current window and the one before it.
    pub fn extra_acked(&self) -> (r: u64)
        ensures
            r == max(self.extra_acked.0 as int, self.extra_acked.1 as int),
    {
        self.extra_acked.0.max(self.extra_acked.1)
    }

    fn set_slot(&mut self, value: u64)
        ensures
            *final(self) == old(self).with_slot(value),
    {
        if self.extra_acked_win_idx == 0 {
            self.extra_acked.0 = value;
        } else {
            self.extra_acked.1 = value;
        }
    }

    /// Estimates the windowed max degree of ACK aggregation.
    pub fn update_ack_aggregation(
        &mut self,
        newly_acked_bytes: u64,
        now: Instant,
        round_start: bool,
        max_bandwidth: u64,
        cwnd: usize,
    )
        requires
            old(self).wf(),
            old(self).acked_fits(newly_acked_bytes, now, max_bandwidth),
        ensures
            *final(self) == old(self).with_acked(
                newly_acked_bytes,
                now,
                round_start,
                max_bandwidth,
                cwnd,
            ),
            final(self).wf(),
    {
        if BBR_EXTRA_ACKED_GAIN == 0 || newly_acked_bytes == 0 {
            return;
        }
        // Advance the windowed max filter on round start.
        if round_start {
            self.extra_acked_win_rtts = (self.extra_acked_win_rtts + 1).min(WIN_RTTS_MAX);
            if self.extra_acked_win_rtts >= BBR_EXTRA_ACKED_WIN_RTTS {
                self.extra_acked_win_rtts = 0;
                self.extra_acked_win_idx = if self.extra_acked_win_idx == 0 {
                    1
                } else {
                    0
                };
                self.set_slot(0);
            }
        }
        // Compute how many bytes we expected to be delivered over this epoch.
        let mut expected_acked: u64 = match self.ack_epoch_mstamp {
            Some(epoch_start) => {
                if now.micros > epoch_start.micros {
                    let epoch_us: u64 = now.since(epoch_start).micros;
                    max_bandwidth * epoch_us / 1_000_000
                } else {
                    0
                }
            },
            None => 0,
        };
        // Reset the aggregation epoch if the ACK rate is below the expected rate or the
        // epoch has become too large (stale).
        if self.ack_epoch_acked <= expected_acked || self.ack_epoch_acked + newly_acked_bytes
            >= BBR_ACK_EPOCH_ACKED_RESET_THRESH {
            self.ack_epoch_acked = 0;
            self.ack_epoch_mstamp = Some(now);
            expected_acked = 0;
        }
        // Compute excess data delivered, beyond what was expected.
        self.ack_epoch_acked = (self.ack_epoch_acked + newly_acked_bytes).min(ACK_EPOCH_ACKED_MAX);
        let extra_acked: u64 = if self.ack_epoch_acked > expected_acked {
            self.ack_epoch_acked - expected_acked
        } else {
            0
        };
        // Clamp by cwnd.
        let extra_acked: u64 = extra_acked.min(cwnd as u64);
        // Update the windowed max.
        let current: u64 = if self.extra_acked_win_idx == 0 {
            self.extra_acked.0
        } else {
            self.extra_acked.1
        };
        if extra_acked > current {
            self.set_slot(extra_acked);
        }
    }

    /// Find the cwnd increment based on the estimate of ACK aggregation.
    pub fn ack_aggregation_cwnd(&self, bw: u64, is_at_full_bandwidth: bool) -> (r: usize)
        requires
            self.wf(),
            is_at_full_bandwidth ==> bw * BBR_EXTRA_ACKED_MAX_US <= u64::MAX,
        ensures
            r == self.increment(bw, is_at_full_bandwidth),
    {
        if BBR_EXTRA_ACKED_GAIN == 0 || !is_at_full_bandwidth {
            return 0;
        }
        let max_aggr_cwnd: usize = (bw * BBR_EXTRA_ACKED_MAX_US / 1_000_000) as usize;
        let extra: u64 = self.extra_acked();
        assert((256u64 * extra) as u64 >> 8u32 == extra) by (bit_vector)
            requires
                extra <= 0xF_FFFF,
        ;
        let aggr_cwnd: usize = ((BBR_EXTRA_ACKED_GAIN as u64 * extra) >> BBR_SCALE) as usize;
        aggr_cwnd.min(max_aggr_cwnd)
    }
}

} // verus!
