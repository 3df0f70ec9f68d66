//! What the socket's round-trip estimator reports to a congestion controller.

use crate::time::Duration;
use vstd::prelude::*;

verus! {

/// The readings of a round-trip estimator.
#[derive(Debug, Clone, Copy)]
pub struct RttEstimator {
    /// The smoothed round-trip time, once there is a measurement.
    pub smoothed: Option<Duration>,
    /// The least round-trip time of the recent past.
    pub min: Duration,
}

impl RttEstimator {
    /// The estimator with the given readings.
    pub fn new(smoothed: Option<Duration>, min: Duration) -> (r: Self)
        ensures
            r.smoothed == smoothed,
            r.min == min,
    {
        RttEstimator { smoothed, min }
    }

    /// The smoothed round-trip time, once there is a measurement.
    pub fn smoothed_rtt(&self) -> (r: Option<Duration>)
        ensures
            r == self.smoothed,
    {
        self.smoothed
    }

    /// The least round-trip time of the recent past.
    pub fn min_rtt(&self) -> (r: Duration)
        ensures
            r == self.min,
    {
        self.min
    }
}

} // verus!
