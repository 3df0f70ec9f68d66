//! The maximum of a stream of measurements over a sliding window of rounds, kept in
//! constant space (Kathleen Nichols' algorithm).

use vstd::prelude::*;

verus! {

/// A measurement and the round in which it was made.
#[derive(Debug, Clone, Copy, PartialEq, Eq, Structural)]
pub struct MinMaxSample {
    pub time: u64,
    pub value: u64,
}

/// The best three measurements of the window, each later than the one before it.
#[derive(Debug, Clone, Copy, PartialEq, Eq, Structural)]
pub struct MinMax {
    /// Length of the window, in rounds.
    pub window: u64,
    pub first: MinMaxSample,
    pub second: MinMaxSample,
    pub third: MinMaxSample,
}

impl MinMax {
    /// The choices grow later and do not grow larger.
    pub open spec fn wf(self) -> bool {
        &&& self.first.value >= self.second.value >= self.third.value
        &&& self.first.time <= self.second.time <= self.third.time
    }

    /// All three choices are `sample`.
    pub open spec fn filled(self, sample: MinMaxSample) -> Self {
        MinMax { first: sample, second: sample, third: sample, ..self }
    }

    /// The first choice is given up and `sample` becomes the last.
    pub open spec fn shifted(self, sample: MinMaxSample) -> Self {
        MinMax { first: self.second, second: self.third, third: sample, ..self }
    }

    /// `sample`, below the first choice, takes the place of each choice that it reaches.
    pub open spec fn placed(self, sample: MinMaxSample) -> Self {
        if sample.value >= self.second.value {
            MinMax { second: sample, third: sample, ..self }
        } else if sample.value >= self.third.value {
            MinMax { third: sample, ..self }
        } else {
            self
        }
    }

    /// Choices that have left the window are given up; when a quarter or half of the window
    /// has passed without a later choice, `sample` becomes one.
    pub open spec fn aged(self, sample: MinMaxSample) -> Self {
        let age = sample.time - self.first.time;
        if age > self.window {
            let next = self.shifted(sample);
            if sample.time - next.first.time > self.window {
                next.shifted(sample)
            } else {
                next
            }
        } else if self.second.time == self.first.time && age > self.window / 4 {
            MinMax { second: sample, third: sample, ..self }
        } else if self.third.time == self.second.time && age > self.window / 2 {
            MinMax { third: sample, ..self }
        } else {
            self
        }
    }

    /// The filter after `measurement` was made in round `round`.
    pub open spec fn with_max(self, round: u64, measurement: u64) -> Self {
        let sample = MinMaxSample { time: round, value: measurement };
        if self.first.value == 0 || measurement >= self.first.value || round - self.third.time
            > self.window {
            self.filled(sample)
        } else {
            self.placed(sample).aged(sample)
        }
    }

    /// A filter over `window` rounds with no measurement yet.
    pub open spec fn empty(window: u64) -> Self {
        MinMax {
            window,
            first: MinMaxSample { time: 0, value: 0 },
            second: MinMaxSample { time: 0, value: 0 },
            third: MinMaxSample { time: 0, value: 0 },
        }
    }

    /// `measurement` of round `round` can be taken in: it is a new maximum, or it is of no
    /// earlier round than those before it.
    pub open spec fn takes(self, round: u64, measurement: u64) -> bool {
        self.first.value == 0 || measurement >= self.first.value || self.third.time <= round
    }

    /// A filter over `window` rounds with no measurement yet.
    pub fn new(window: u64) -> (r: Self)
        ensures
            r == Self::empty(window),
            r.wf(),
    {
        let none = MinMaxSample { time: 0, value: 0 };
        MinMax { window, first: none, second: none, third: none }
    }

    /// The maximum; 0 before the first measurement.
    pub fn get(&self) -> (r: u64)
        ensures
            r == self.first.value,
    {
        self.first.value
    }

    /// Take in a measurement of round `current_round`.
    pub fn update_max(&mut self, current_round: u64, measurement: u64)
        requires
            old(self).wf(),
            old(self).takes(current_round, measurement),
        ensures
            *final(self) == old(self).with_max(current_round, measurement),
            final(self).wf(),
            final(self).third.time <= current_round,
            final(self).first.value >= measurement,
            final(self).first.value == measurement || final(self).first.value
                <= old(self).first.value,
            current_round - final(self).first.time <= final(self).window,
    {
        let sample = MinMaxSample { time: current_round, value: measurement };
        if self.first.value == 0 || measurement >= self.first.value || current_round
            - self.third.time > self.window {
            self.first = sample;
            self.second = sample;
            self.third = sample;
            return;
        }
        if measurement >= self.second.value {
            self.third = sample;
            self.second = sample;
        } else if measurement >= self.third.value {
            self.third = sample;
        }
        self.subwin_update(sample);
    }

    fn subwin_update(&mut self, sample: MinMaxSample)
        requires
            old(self).first.time <= old(self).second.time <= old(self).third.time <= sample.time,
        ensures
            *final(self) == old(self).aged(sample),
    {
        let age: u64 = sample.time - self.first.time;
        if age > self.window {
            self.first = self.second;
            self.second = self.third;
            self.third = sample;
            if sample.time - self.first.time > self.window {
                self.first = self.second;
                self.second = self.third;
                self.third = sample;
            }
        } else if self.second.time == self.first.time && age > self.window / 4 {
            self.third = sample;
            self.second = sample;
        } else if self.third.time == self.second.time && age > self.window / 2 {
            self.third = sample;
        }
    }
}

} // verus!
