//! Estimation of the bottleneck bandwidth from acknowledgements.

use super::min_max::MinMax;
use crate::time::{Duration, Instant};
use vstd::prelude::*;

verus! {

/// Floor for the sampling interval, in microseconds: timestamps have millisecond-ish
/// effective resolution, and a path with a shorter round trip would otherwise be sampled
/// per batch.
pub const MIN_SAMPLE_INTERVAL_MICROS: u64 = 1000;

/// Number of rounds over which the maximum is taken.
pub const FILTER_ROUNDS: u64 = 10;

/// Delivery-rate samples and their windowed maximum.
#[derive(Debug, Clone, Copy)]
pub struct BandwidthEstimation {
    pub total_acked: u64,
    pub prev_total_acked: u64,
    pub acked_time: Option<Instant>,
    pub prev_acked_time: Option<Instant>,
    pub total_sent: u64,
    pub prev_total_sent: u64,
    pub sent_time: Option<Instant>,
    pub prev_sent_time: Option<Instant>,
    pub max_filter: MinMax,
    pub acked_at_last_window: u64,
    /// Start of the current delivery-rate sampling interval (timestamp, `total_acked` at
    /// that time).
    pub interval_start: Option<(Instant, u64)>,
    /// Minimum sampling interval (about the min RTT, floored to 1 ms).
    pub sample_interval: Duration,
}

/// The bytes per second that `bytes` in `micros` microseconds make.
pub open spec fn rate(bytes: int, micros: int) -> int {
    bytes * 1_000_000 / micros
}

impl BandwidthEstimation {
    /// What earlier readings cannot exceed, and what the filter keeps.
    pub open spec fn wf(self) -> bool {
        &&& self.prev_total_acked <= self.total_acked
        &&& self.prev_total_sent <= self.total_sent
        &&& self.acked_at_last_window <= self.total_acked
        &&& self.interval_start matches Some((_, acked)) ==> acked <= self.total_acked
        &&& self.sample_interval.micros >= MIN_SAMPLE_INTERVAL_MICROS
        &&& self.max_filter.wf()
    }

    /// The maximum bandwidth of the recent rounds.
    pub open spec fn estimate(self) -> u64 {
        self.max_filter.first.value
    }

    /// The bytes that the running interval has seen, and the microseconds that it has
    /// lasted, when it ends with an ACK for `bytes` at `now`: when it has lasted for at
    /// least the sampling interval.
    pub open spec fn ended_interval(self, now: Instant, bytes: u64) -> Option<(int, int)> {
        match self.interval_start {
            Some((start, acked)) => {
                if now.micros >= start.micros && now.micros - start.micros
                    >= self.sample_interval.micros {
                    Some((self.total_acked + bytes - acked, now.micros - start.micros))
                } else {
                    None
                }
            },
            None => None,
        }
    }

    /// The delivery-rate sample that an ACK for `bytes` at `now` completes.
    pub open spec fn sample(self, now: Instant, bytes: u64) -> Option<u64> {
        match self.ended_interval(now, bytes) {
            Some((delivered, micros)) => Some(rate(delivered, micros) as u64),
            None => None,
        }
    }

    /// The sampling interval that runs after an ACK for `bytes` at `now`: a first one, or
    /// one in place of an interval that starts in the future, counts the ACK; one behind a
    /// completed interval does not.
    pub open spec fn next_interval(self, now: Instant, bytes: u64) -> Option<(Instant, u64)> {
        match self.interval_start {
            Some((start, acked)) => {
                if now.micros < start.micros {
                    Some((now, self.total_acked))
                } else if self.ended_interval(now, bytes) is Some {
                    Some((now, (self.total_acked + bytes) as u64))
                } else {
                    self.interval_start
                }
            },
            None => Some((now, self.total_acked)),
        }
    }

    /// The filter after the sample, if there is one. One taken while the application
    /// limited the flow only counts if it reaches the maximum.
    pub open spec fn next_filter(
        self,
        now: Instant,
        bytes: u64,
        round: u64,
        app_limited: bool,
    ) -> MinMax {
        match self.sample(now, bytes) {
            Some(bandwidth) => {
                if !app_limited || bandwidth >= self.estimate() {
                    self.max_filter.with_max(round, bandwidth)
                } else {
                    self.max_filter
                }
            },
            None => self.max_filter,
        }
    }

    /// The estimation after an ACK for `bytes` at `now`.
    pub open spec fn with_ack(
        self,
        now: Instant,
        bytes: u64,
        round: u64,
        app_limited: bool,
    ) -> Self {
        BandwidthEstimation {
            total_acked: (self.total_acked + bytes) as u64,
            prev_total_acked: self.total_acked,
            acked_time: Some(now),
            prev_acked_time: self.acked_time,
            interval_start: self.next_interval(now, bytes),
            max_filter: self.next_filter(now, bytes, round, app_limited),
            ..self
        }
    }

    /// Nothing overflows while an ACK for `bytes` at `now` is taken in: not the count of
    /// bytes, not the time since the interval began, and not the microbytes of a sample;
    /// and a sample that is not a new maximum is of no earlier round than those before it.
    pub open spec fn ack_fits(
        self,
        now: Instant,
        bytes: u64,
        round: u64,
        app_limited: bool,
    ) -> bool {
        &&& self.total_acked + bytes <= u64::MAX
        &&& self.interval_start matches Some((start, _)) ==> now.micros - start.micros <= i64::MAX
        &&& self.ended_interval(now, bytes) matches Some((delivered, _)) ==> delivered * 1_000_000
            <= u64::MAX
        &&& self.sample(now, bytes) matches Some(bandwidth) ==> {
            ||| bandwidth < self.estimate() && app_limited
            ||| self.max_filter.takes(round, bandwidth)
        }
    }

    /// Bytes were sent.
    pub fn on_sent(&mut self, now: Instant, bytes: u64)
        requires
            old(self).total_sent + bytes <= u64::MAX,
        ensures
            *final(self) == (BandwidthEstimation {
                total_sent: (old(self).total_sent + bytes) as u64,
                prev_total_sent: old(self).total_sent,
                sent_time: Some(now),
                prev_sent_time: old(self).sent_time,
                ..*old(self)
            }),
            old(self).wf() ==> final(self).wf(),
    {
        self.prev_total_sent = self.total_sent;
        self.total_sent = self.total_sent + bytes;
        self.prev_sent_time = self.sent_time;
        self.sent_time = Some(now);
    }

    /// Set the delivery-rate sampling interval (the BBR min RTT).
    pub fn set_sample_interval(&mut self, min_rtt: Duration)
        ensures
            *final(self) == (BandwidthEstimation {
                sample_interval: Duration {
                    micros: vstd::math::max(
                        min_rtt.micros as int,
                        MIN_SAMPLE_INTERVAL_MICROS as int,
                    ) as u64,
                },
                ..*old(self)
            }),
            old(self).wf() ==> final(self).wf(),
    {
        self.sample_interval = min_rtt.max(Duration { micros: MIN_SAMPLE_INTERVAL_MICROS });
    }

    /// Bytes were ACKed.
    ///
    /// The delivery rate is sampled over an interval of at least one min RTT (bytes ACKed
    /// during the interval / elapsed time), not per ACK: a whole batch of received segments
    /// may carry a single `now`, so that a per-ACK rate would read 0 for every ACK in a
    /// batch but the first.
    pub fn on_ack(
        &mut self,
        now: Instant,
        _sent: Instant,
        bytes: u64,
        round: u64,
        app_limited: bool,
    )
        requires
            old(self).wf(),
            old(self).ack_fits(now, bytes, round, app_limited),
        ensures
            *final(self) == old(self).with_ack(now, bytes, round, app_limited),
            final(self).wf(),
            old(self).max_filter.third.time <= round ==> final(self).max_filter.third.time <= round,
    {
        let acked_before: u64 = self.total_acked;
        self.prev_total_acked = self.total_acked;
        self.total_acked = self.total_acked + bytes;
        self.prev_acked_time = self.acked_time;
        self.acked_time = Some(now);

        let (start, start_acked) = match self.interval_start {
            Some(s) => s,
            None => {
                self.interval_start = Some((now, acked_before));
                return;
            },
        };
        if now.micros < start.micros {
            self.interval_start = Some((now, acked_before));
            return;
        }
        let elapsed = now.since(start);
        if elapsed.micros < self.sample_interval.micros {
            return;
        }
        let bandwidth: u64 = match Self::bw_from_delta(self.total_acked - start_acked, elapsed) {
            Some(bandwidth) => bandwidth,
            None => {
                return;
            },
        };
        self.interval_start = Some((now, self.total_acked));
        // App-limited samples only count if they raise the max.
        if !app_limited || bandwidth >= self.max_filter.get() {
            self.max_filter.update_max(round, bandwidth);
        }
    }

    /// Bytes ACKed since the ACKs were last ended.
    pub fn bytes_acked_this_window(&self) -> (r: u64)
        requires
            self.acked_at_last_window <= self.total_acked,
        ensures
            r == self.total_acked - self.acked_at_last_window,
    {
        self.total_acked - self.acked_at_last_window
    }

    /// The ACKs that arrived together have all been taken in.
    pub fn end_acks(&mut self, _current_round: u64, _app_limited: bool)
        ensures
            *final(self) == (BandwidthEstimation {
                acked_at_last_window: old(self).total_acked,
                ..*old(self)
            }),
            old(self).wf() ==> final(self).wf(),
    {
        self.acked_at_last_window = self.total_acked;
    }

    /// The maximum bandwidth of the recent rounds, in bytes per second.
    pub fn get_estimate(&self) -> (r: u64)
        ensures
            r == self.estimate(),
    {
        self.max_filter.get()
    }

    /// The bytes per second that `bytes` in `delta` make; none where no time has passed.
    pub fn bw_from_delta(bytes: u64, delta: Duration) -> (r: Option<u64>)
        requires
            delta.micros != 0 ==> bytes * 1_000_000 <= u64::MAX,
        ensures
            delta.micros == 0 ==> r is None,
            delta.micros != 0 ==> r == Some(rate(bytes as int, delta.micros as int) as u64),
            delta.micros != 0 ==> r == Some((bytes * 1_000_000 / (delta.micros as int)) as u64),
    {
        if delta.micros == 0 {
            return None;
        }
        Some(bytes * 1_000_000 / delta.micros)
    }
}

impl Default for BandwidthEstimation {
    fn default() -> (r: Self)
        ensures
            r.total_acked == 0,
            r.prev_total_acked == 0,
            r.acked_time is None,
            r.prev_acked_time is None,
            r.total_sent == 0,
            r.prev_total_sent == 0,
            r.sent_time is None,
            r.prev_sent_time is None,
            r.max_filter == MinMax::empty(FILTER_ROUNDS),
            r.acked_at_last_window == 0,
            r.interval_start is None,
            r.sample_interval.micros == MIN_SAMPLE_INTERVAL_MICROS,
            r.wf(),
    {
        BandwidthEstimation {
            total_acked: 0,
            prev_total_acked: 0,
            acked_time: None,
            prev_acked_time: None,
            total_sent: 0,
            prev_total_sent: 0,
            sent_time: None,
            prev_sent_time: None,
            max_filter: MinMax::new(FILTER_ROUNDS),
            acked_at_last_window: 0,
            interval_start: None,
            sample_interval: Duration { micros: MIN_SAMPLE_INTERVAL_MICROS },
        }
    }
}

} // verus!
