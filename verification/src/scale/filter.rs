//! The rolling trimmed mean over raw samples.
//!
//! The last [`WINDOW_SAMPLES`] accepted samples are averaged without the highest [`TRIM_HIGH`]
//! and the lowest [`TRIM_LOW`] of them, so that a single spike does not skew the result. A sample
//! is accepted or ignored on its own merits, never by comparison with earlier ones, so a real
//! change always takes over the window.

use std::collections::VecDeque;

use vstd::prelude::*;
use vstd::relations::{sorted_by, total_ordering};

use crate::binary32::ops::round_half_up;
use crate::scale::calibration::ScaleCalibration;

verus! {

/// Lightest weight taken for a real reading, in tenths of a gram.
pub const MIN_WEIGHT_DG: i32 = -500;

/// Heaviest weight taken for a real reading, in tenths of a gram.
pub const MAX_WEIGHT_DG: i32 = 30_000;

/// Least value of a 24-bit sample.
pub const MIN_SAMPLE: i32 = -8_388_608;

/// Greatest value of a 24-bit sample.
pub const MAX_SAMPLE: i32 = 8_388_607;

/// Number of samples averaged.
pub const WINDOW_SAMPLES: usize = 32;

/// Number of highest samples left out.
pub const TRIM_HIGH: usize = 1;

/// Number of lowest samples left out.
pub const TRIM_LOW: usize = 1;

/// The order of samples.
pub open spec fn at_most() -> spec_fn(i32, i32) -> bool {
    |a: i32, b: i32| a <= b
}

/// The samples in ascending order.
pub open spec fn ascending(samples: Seq<i32>) -> Seq<i32> {
    samples.sort_by(at_most())
}

/// The samples that are averaged: all in order, but without the extremes where enough remain.
pub open spec fn trimmed(samples: Seq<i32>) -> Seq<i32> {
    let all = ascending(samples);
    if all.len() > TRIM_LOW + TRIM_HIGH {
        all.subrange(TRIM_LOW as int, all.len() - TRIM_HIGH)
    } else {
        all
    }
}

/// The sum of the samples.
pub open spec fn total(samples: Seq<i32>) -> int
    decreases samples.len(),
{
    if samples.len() == 0 {
        0
    } else {
        total(samples.drop_last()) + samples.last()
    }
}

/// `num / den` rounded to a whole number, halves away from zero.
pub open spec fn round_half_away(num: int, den: nat) -> int {
    if num < 0 {
        -(round_half_up((-num) as nat, den) as int)
    } else {
        round_half_up(num as nat, den) as int
    }
}

/// The trimmed mean of the samples.
pub open spec fn trimmed_mean(samples: Seq<i32>) -> int {
    round_half_away(total(trimmed(samples)), trimmed(samples).len())
}

/// The window once `raw` has entered it.
pub open spec fn slid(window: Seq<i32>, raw: i32) -> Seq<i32> {
    let longer = window.push(raw);
    if longer.len() > WINDOW_SAMPLES {
        longer.subrange(1, longer.len() as int)
    } else {
        longer
    }
}

/// Whether a reading is worth entering into the window.
pub open spec fn plausible(raw: i32, calibration: ScaleCalibration) -> bool {
    &&& MIN_SAMPLE <= raw <= MAX_SAMPLE
    &&& calibration.valid()
    &&& MIN_WEIGHT_DG <= calibration.decigrams(raw as int) <= MAX_WEIGHT_DG
}

/// Whether the arithmetic of accepting `raw` stays within `i32`.
pub open spec fn acceptable(window: Seq<i32>, raw: i32, calibration: ScaleCalibration) -> bool {
    &&& MIN_SAMPLE <= raw <= MAX_SAMPLE && calibration.valid() ==> calibration.in_span(raw as int)
    &&& plausible(raw, calibration) ==> calibration.in_span(trimmed_mean(slid(window, raw)))
}

/// Whether every sample lies between `lo` and `hi`.
pub open spec fn within(samples: Seq<i32>, lo: int, hi: int) -> bool {
    forall|i: int| 0 <= i < samples.len() ==> lo <= #[trigger] samples[i] <= hi
}

pub proof fn lemma_at_most_orders()
    ensures
        total_ordering(at_most()),
{
}

/// The samples in order are the same samples.
pub proof fn lemma_ascending(samples: Seq<i32>)
    ensures
        ascending(samples).len() == samples.len(),
        ascending(samples).to_multiset() == samples.to_multiset(),
        sorted_by(ascending(samples), at_most()),
{
    lemma_at_most_orders();
    samples.lemma_sort_by_ensures(at_most());
    broadcast use vstd::seq_lib::group_to_multiset_ensures;

    assert(samples.to_multiset().len() == samples.len());
    assert(ascending(samples).to_multiset().len() == ascending(samples).len());
}

/// Bounds on the samples hold of what is averaged.
pub proof fn lemma_trimmed_within(samples: Seq<i32>, lo: int, hi: int)
    requires
        within(samples, lo, hi),
    ensures
        within(trimmed(samples), lo, hi),
        samples.len() > 0 ==> trimmed(samples).len() > 0,
        trimmed(samples).len() <= samples.len(),
{
    lemma_ascending(samples);
    broadcast use vstd::seq_lib::group_to_multiset_ensures;

    let all = ascending(samples);
    assert forall|i: int| 0 <= i < all.len() implies lo <= #[trigger] all[i] <= hi by {
        assert(all.to_multiset().count(all[i]) > 0);
        assert(samples.contains(all[i]));
    }
}

pub proof fn lemma_total_within(samples: Seq<i32>, lo: int, hi: int)
    requires
        within(samples, lo, hi),
    ensures
        lo * samples.len() <= total(samples) <= hi * samples.len(),
    decreases samples.len(),
{
    if samples.len() > 0 {
        lemma_total_within(samples.drop_last(), lo, hi);
        let n = samples.len();
        assert(lo * n == lo * (n - 1) + lo && hi * n == hi * (n - 1) + hi) by (nonlinear_arith);
    }
}

pub proof fn lemma_round_half_away_within(num: int, den: nat, lo: int, hi: int)
    requires
        den > 0,
        lo * den <= num <= hi * den,
    ensures
        lo <= round_half_away(num, den) <= hi,
{
    let size = if num < 0 {
        (-num) as nat
    } else {
        num as nat
    };
    let r = round_half_up(size, den);
    vstd::arithmetic::div_mod::lemma_fundamental_div_mod(2 * size + den as int, 2 * den as int);
    let rem = (2 * size + den) % (2 * den);
    assert(2 * size + den == r * (2 * den) + rem) by (nonlinear_arith)
        requires
            2 * size + den == (2 * den) * r + rem,
    ;
    if num < 0 {
        assert(lo <= -r <= hi) by (nonlinear_arith)
            requires
                den > 0,
                lo * den <= -size <= hi * den,
                2 * size + den == r * (2 * den) + rem,
                0 <= rem < 2 * den,
        ;
    } else {
        assert(lo <= r <= hi) by (nonlinear_arith)
            requires
                den > 0,
                lo * den <= size <= hi * den,
                2 * size + den == r * (2 * den) + rem,
                0 <= rem < 2 * den,
        ;
    }
}

/// The mean lies between the bounds of the samples.
pub proof fn lemma_mean_within(samples: Seq<i32>, lo: int, hi: int)
    requires
        samples.len() > 0,
        within(samples, lo, hi),
    ensures
        lo <= trimmed_mean(samples) <= hi,
{
    lemma_trimmed_within(samples, lo, hi);
    lemma_total_within(trimmed(samples), lo, hi);
    lemma_round_half_away_within(total(trimmed(samples)), trimmed(samples).len(), lo, hi);
}

/// Smooths samples with a rolling trimmed-mean window and keeps disconnected, corrupt or wildly
/// out-of-range readings out of it.
#[derive(Debug)]
pub struct ScaleReadingFilter {
    window: VecDeque<i32>,
}

impl View for ScaleReadingFilter {
    type V = Seq<i32>;

    closed spec fn view(&self) -> Seq<i32> {
        self.window@
    }
}

impl Default for ScaleReadingFilter {
    fn default() -> (res: ScaleReadingFilter)
        ensures
            res@ == Seq::<i32>::empty(),
            res.wf(),
    {
        ScaleReadingFilter { window: VecDeque::new() }
    }
}

/// Put `sample` where it belongs among `sorted`.
fn insert_in_order(sorted: &mut Vec<i32>, sample: i32)
    requires
        sorted_by(old(sorted)@, at_most()),
    ensures
        sorted_by(final(sorted)@, at_most()),
        final(sorted)@.to_multiset() == old(sorted)@.to_multiset().insert(sample),
        final(sorted)@.len() == old(sorted)@.len() + 1,
{
    let mut at: usize = sorted.len();
    while at > 0 && sorted[at - 1] > sample
        invariant
            at <= sorted@.len(),
            sorted@ == old(sorted)@,
            forall|i: int| at <= i < sorted@.len() ==> sorted@[i] > sample,
        decreases at,
    {
        at = at - 1;
    }
    let ghost before = sorted@;
    sorted.insert(at, sample);
    proof {
        vstd::seq_lib::to_multiset_insert(before, at as int, sample);
        let le = at_most();
        assert forall|i: int, j: int| 0 <= i < j < sorted@.len() implies #[trigger] le(
            sorted@[i],
            sorted@[j],
        ) by {
            if i < at && j < at {
                assert(le(before[i], before[j]));
            } else if i < at && j == at {
                if i < at - 1 {
                    assert(le(before[i], before[at - 1]));
                }
            } else if i < at {
                assert(le(before[i], before[j - 1]));
            } else if i == at {
                assert(before[j - 1] > sample);
            } else {
                assert(le(before[i - 1], before[j - 1]));
            }
        }
    }
}

impl ScaleReadingFilter {
    /// The window never outgrows its size and holds 24-bit samples only.
    pub open spec fn wf(&self) -> bool {
        self@.len() <= WINDOW_SAMPLES && within(self@, MIN_SAMPLE as int, MAX_SAMPLE as int)
    }

    /// The samples of the window that `raw` would give, in order.
    fn sorted_with(&self, raw: i32) -> (res: Vec<i32>)
        requires
            self.wf(),
        ensures
            res@ == ascending(slid(self@, raw)),
    {
        let mut sorted: Vec<i32> = Vec::new();
        let from: usize = if self.window.len() + 1 > WINDOW_SAMPLES {
            1
        } else {
            0
        };
        let mut i: usize = from;
        let ghost kept = self@.subrange(from as int, self@.len() as int);
        assert(kept.take(0) =~= sorted@);
        while i < self.window.len()
            invariant
                from <= i <= self@.len(),
                kept == self@.subrange(from as int, self@.len() as int),
                sorted_by(sorted@, at_most()),
                sorted@.to_multiset() == kept.take(i - from).to_multiset(),
            decreases self@.len() - i,
        {
            let sample: i32 = self.window[i];
            proof {
                let n = i - from;
                assert(kept.take(n + 1) =~= kept.take(n).push(kept[n]));
                vstd::seq_lib::to_multiset_build(kept.take(n), kept[n]);
            }
            insert_in_order(&mut sorted, sample);
            i = i + 1;
        }
        insert_in_order(&mut sorted, raw);
        proof {
            assert(kept.take(i - from) =~= kept);
            assert(slid(self@, raw) =~= kept.push(raw));
            vstd::seq_lib::to_multiset_build(kept, raw);
            lemma_at_most_orders();
            lemma_ascending(slid(self@, raw));
            vstd::seq_lib::lemma_sorted_unique(sorted@, ascending(slid(self@, raw)), at_most());
        }
        sorted
    }

    /// The trimmed mean of the window that `raw` would give.
    fn mean_with(&self, raw: i32) -> (res: i32)
        requires
            self.wf(),
            MIN_SAMPLE <= raw <= MAX_SAMPLE,
        ensures
            res == trimmed_mean(slid(self@, raw)),
    {
        let sorted: Vec<i32> = self.sorted_with(raw);
        let ghost window = slid(self@, raw);
        proof {
            lemma_ascending(window);
            lemma_mean_within(window, MIN_SAMPLE as int, MAX_SAMPLE as int);
            lemma_trimmed_within(window, MIN_SAMPLE as int, MAX_SAMPLE as int);
        }
        let (lo, hi): (usize, usize) = if sorted.len() > TRIM_LOW + TRIM_HIGH {
            (TRIM_LOW, sorted.len() - TRIM_HIGH)
        } else {
            (0, sorted.len())
        };
        let ghost kept = trimmed(window);
        assert(kept =~= sorted@.subrange(lo as int, hi as int));
        let mut sum: i64 = 0;
        let mut i: usize = lo;
        assert(kept.take(0) =~= Seq::empty());
        while i < hi
            invariant
                lo <= i <= hi <= sorted@.len(),
                hi <= 32,
                kept == sorted@.subrange(lo as int, hi as int),
                sum == total(kept.take(i - lo)),
                -0x8000_0000 * (i - lo) <= sum <= 0x8000_0000 * (i - lo),
            decreases hi - i,
        {
            proof {
                let n = i - lo;
                assert(kept.take(n + 1).drop_last() =~= kept.take(n));
                assert(kept.take(n + 1).last() == sorted@[i as int]);
            }
            sum = sum + sorted[i] as i64;
            i = i + 1;
        }
        assert(kept.take(i - lo) =~= kept);
        let count: i64 = (hi - lo) as i64;
        if sum < 0 {
            let size: i64 = (2 * (-sum) + count) / (2 * count);
            (-size) as i32
        } else {
            ((2 * sum + count) / (2 * count)) as i32
        }
    }

    /// Whether [`Self::accept`] stays within the range of `i32` for this sample.
    pub fn can_accept(&self, raw: i32, calibration: ScaleCalibration) -> (res: bool)
        requires
            self.wf(),
        ensures
            res == acceptable(self@, raw, calibration),
    {
        if raw < MIN_SAMPLE || raw > MAX_SAMPLE || !calibration.is_valid() {
            return true;
        }
        let distance: i64 = raw as i64 - calibration.offset as i64;
        if distance < i32::MIN as i64 || distance > i32::MAX as i64 {
            return false;
        }
        let weight_dg: i32 = calibration.raw_to_decigrams(raw);
        if weight_dg < MIN_WEIGHT_DG || weight_dg > MAX_WEIGHT_DG {
            return true;
        }
        let mean_distance: i64 = self.mean_with(raw) as i64 - calibration.offset as i64;
        mean_distance >= i32::MIN as i64 && mean_distance <= i32::MAX as i64
    }

    /// Accept a raw sample and return the trimmed-mean calibrated decigrams, or ignore the
    /// sample entirely if it is out of range, before it can pollute the window.
    pub fn accept(&mut self, raw: i32, calibration: ScaleCalibration) -> (res: Option<i32>)
        requires
            old(self).wf(),
            acceptable(old(self)@, raw, calibration),
        ensures
            final(self).wf(),
            res is Some <==> plausible(raw, calibration),
            plausible(raw, calibration) ==> {
                &&& final(self)@ == slid(old(self)@, raw)
                &&& res->0 == calibration.decigrams(trimmed_mean(slid(old(self)@, raw)))
            },
            !plausible(raw, calibration) ==> final(self)@ == old(self)@,
    {
        if raw < MIN_SAMPLE || raw > MAX_SAMPLE || !calibration.is_valid() {
            return None;
        }
        let weight_dg: i32 = calibration.raw_to_decigrams(raw);
        if weight_dg < MIN_WEIGHT_DG || weight_dg > MAX_WEIGHT_DG {
            return None;
        }
        let mean_raw: i32 = self.mean_with(raw);
        self.window.push_back(raw);
        if self.window.len() > WINDOW_SAMPLES {
            self.window.pop_front();
        }
        Some(calibration.raw_to_decigrams(mean_raw))
    }
}

} // verus!
