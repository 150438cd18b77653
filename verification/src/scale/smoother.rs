//! Damping of raw counts before any calibration exists.

use vstd::prelude::*;

use crate::binary32::model::Binary32;
use crate::binary32::ops::{difference, of_int, product, sum, whole};

verus! {

/// The running average once `raw` has been blended in with weight `alpha`.
pub open spec fn blended(running: Option<Binary32>, raw: int, alpha: Binary32) -> Binary32 {
    match running {
        Some(prev) => sum(prev, product(alpha, difference(of_int(raw), prev))),
        None => of_int(raw),
    }
}

/// Exponential-moving-average damper for raw (uncalibrated) ADC counts, so that on-screen jumps
/// between samples stay small even before a calibration exists.
#[derive(Debug)]
pub struct RawSignalSmoother {
    smoothed: Option<Binary32>,
}

impl View for RawSignalSmoother {
    type V = Option<Binary32>;

    closed spec fn view(&self) -> Option<Binary32> {
        self.smoothed
    }
}

impl Default for RawSignalSmoother {
    fn default() -> (res: RawSignalSmoother)
        ensures
            res@ is None,
    {
        RawSignalSmoother { smoothed: None }
    }
}

impl RawSignalSmoother {
    /// Blend `raw` into the running average and return the smoothed value, rounded.
    ///
    /// `alpha` is the weight given to the new sample, in `(0, 1]`; smaller values damp harder
    /// (slower to move, smaller jumps) but lag more behind real changes.
    pub fn smooth(&mut self, raw: i32, alpha: Binary32) -> (res: i32)
        ensures
            final(self)@ == Some(blended(old(self)@, raw as int, alpha)),
            res == whole(blended(old(self)@, raw as int, alpha)),
    {
        let sample: Binary32 = Binary32::from_i32(raw);
        let next: Binary32 = match self.smoothed {
            Some(prev) => prev.plus(alpha.times(sample.minus(prev))),
            None => sample,
        };
        self.smoothed = Some(next);
        next.round_to_i32()
    }
}

} // verus!
