//! Averaging samples until there are enough of them or time is up.

use vstd::prelude::*;

use crate::scale::filter::{lemma_total_within, total};

verus! {

/// How long to wait before looking again when no sample was ready, in microseconds.
pub const RETRY_WAIT_US: u32 = 100;

/// What to do next while averaging.
#[derive(Debug, Clone, Copy, PartialEq, Eq, Structural)]
pub enum AverageAction {
    /// Try to read a sample.
    Read,
    /// Nothing is left to do: this is the average, if any sample was read.
    Finish(Option<i32>),
}

/// The mean of the readings, fractions dropped.
pub open spec fn truncated_mean(readings: Seq<i32>) -> int {
    let sum = total(readings);
    if sum < 0 {
        -(-sum / readings.len() as int)
    } else {
        sum / readings.len() as int
    }
}

/// Readings being averaged. Times are in nanoseconds on one monotonic clock.
pub struct AverageRead {
    samples: usize,
    deadline: u128,
    sum: i64,
    count: usize,
    readings: Ghost<Seq<i32>>,
}

impl AverageRead {
    /// The readings so far.
    pub closed spec fn readings(self) -> Seq<i32> {
        self.readings@
    }

    /// How many readings are wanted.
    pub closed spec fn samples(self) -> nat {
        self.samples as nat
    }

    pub closed spec fn deadline(self) -> u128 {
        self.deadline
    }

    pub closed spec fn wf(self) -> bool {
        &&& self.sum == total(self.readings@)
        &&& self.count == self.readings@.len()
        &&& self.count <= self.samples
    }

    /// What to do next at a given time.
    pub open spec fn next_action(self, now: u128) -> AverageAction {
        if self.readings().len() < self.samples() && now < self.deadline() {
            AverageAction::Read
        } else if self.readings().len() == 0 {
            AverageAction::Finish(None)
        } else {
            AverageAction::Finish(Some(truncated_mean(self.readings()) as i32))
        }
    }

    /// Start collecting `samples` readings, until `deadline`.
    pub fn new(samples: usize, deadline: u128) -> (res: AverageRead)
        ensures
            res.wf(),
            res.readings() == Seq::<i32>::empty(),
            res.samples() == samples,
            res.deadline() == deadline,
    {
        AverageRead { samples, deadline, sum: 0, count: 0, readings: Ghost(Seq::empty()) }
    }

    /// What to do next at time `now`.
    pub fn action(&self, now: u128) -> (res: AverageAction)
        requires
            self.wf(),
        ensures
            res == self.next_action(now),
    {
        if self.count < self.samples && now < self.deadline {
            return AverageAction::Read;
        }
        if self.count == 0 {
            return AverageAction::Finish(None);
        }
        proof {
            lemma_mean_fits(self.readings@);
        }
        let mean: i128 = if self.sum < 0 {
            -((-(self.sum as i128)) / self.count as i128)
        } else {
            self.sum as i128 / self.count as i128
        };
        AverageAction::Finish(Some(mean as i32))
    }

    /// Take note of a reading, or of there having been none. Returns how long to wait before the
    /// next look, in microseconds.
    pub fn note(&mut self, reading: Option<i32>) -> (wait_us: u32)
        requires
            old(self).wf(),
            old(self).readings().len() < old(self).samples(),
            reading matches Some(value) ==> i64::MIN <= total(old(self).readings()) + value <= i64::MAX,
        ensures
            final(self).wf(),
            final(self).samples() == old(self).samples(),
            final(self).deadline() == old(self).deadline(),
            match reading {
                Some(value) => final(self).readings() == old(self).readings().push(value) && wait_us == 0,
                None => final(self).readings() == old(self).readings() && wait_us == RETRY_WAIT_US,
            },
    {
        match reading {
            Some(value) => {
                proof {
                    let more = self.readings@.push(value);
                    assert(more.drop_last() =~= self.readings@);
                }
                self.sum = self.sum + value as i64;
                self.count = self.count + 1;
                self.readings = Ghost(self.readings@.push(value));
                0
            },
            None => RETRY_WAIT_US,
        }
    }
}

/// The mean of readings is within the range of a reading.
pub proof fn lemma_mean_fits(readings: Seq<i32>)
    requires
        readings.len() > 0,
    ensures
        i32::MIN <= truncated_mean(readings) <= i32::MAX,
{
    lemma_total_within(readings, i32::MIN as int, i32::MAX as int);
    let (n, sum) = (readings.len() as int, total(readings));
    if sum < 0 {
        let (q, r) = (-sum / n, -sum % n);
        vstd::arithmetic::div_mod::lemma_fundamental_div_mod(-sum, n);
        assert(0 <= q <= 0x8000_0000) by (nonlinear_arith)
            requires
                -sum == n * q + r,
                0 <= r < n,
                -0x8000_0000 * n <= sum < 0,
        ;
    } else {
        let (q, r) = (sum / n, sum % n);
        vstd::arithmetic::div_mod::lemma_fundamental_div_mod(sum, n);
        assert(0 <= q <= 0x7fff_ffff) by (nonlinear_arith)
            requires
                sum == n * q + r,
                0 <= r < n,
                0 <= sum <= 0x7fff_ffff * n,
        ;
    }
}

} // verus!
