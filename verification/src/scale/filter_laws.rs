//! What holds of the filter over whole windows.

use vstd::prelude::*;

use crate::scale::calibration::ScaleCalibration;
use crate::scale::filter::{
    acceptable, ascending, at_most, lemma_ascending, lemma_at_most_orders, lemma_mean_within,
    plausible, round_half_away, slid, total, trimmed, trimmed_mean, within, MAX_WEIGHT_DG,
    MIN_WEIGHT_DG, WINDOW_SAMPLES,
};
use crate::scale::order::law_heavier_never_reads_lighter;

verus! {

/// `n` samples of one value.
pub open spec fn steady(n: nat, raw: i32) -> Seq<i32> {
    Seq::new(n, |i: int| raw)
}

/// The window after `n` samples of `raw` in a row.
pub open spec fn slid_times(window: Seq<i32>, raw: i32, n: nat) -> Seq<i32>
    decreases n,
{
    if n == 0 {
        window
    } else {
        slid(slid_times(window, raw, (n - 1) as nat), raw)
    }
}

/// The mean lies between the lowest and the highest sample.
pub proof fn law_mean_lies_among_the_samples(samples: Seq<i32>, lo: int, hi: int)
    requires
        samples.len() > 0,
        within(samples, lo, hi),
    ensures
        lo <= trimmed_mean(samples) <= hi,
{
    lemma_mean_within(samples, lo, hi);
}

/// A steady signal reads as itself.
pub proof fn law_steady_signal_reads_as_itself(n: nat, raw: i32)
    requires
        n > 0,
    ensures
        trimmed_mean(steady(n, raw)) == raw,
{
    lemma_mean_within(steady(n, raw), raw as int, raw as int);
}

/// A sustained change takes over: once a full window of samples has followed, nothing of what
/// was there before is left, whatever it was.
pub proof fn law_sustained_change_takes_over(window: Seq<i32>, raw: i32)
    requires
        window.len() <= WINDOW_SAMPLES,
    ensures
        slid_times(window, raw, WINDOW_SAMPLES as nat) == steady(WINDOW_SAMPLES as nat, raw),
        trimmed_mean(slid_times(window, raw, WINDOW_SAMPLES as nat)) == raw,
{
    lemma_slid_times(window, raw, WINDOW_SAMPLES as nat);
    assert(slid_times(window, raw, WINDOW_SAMPLES as nat) =~= steady(WINDOW_SAMPLES as nat, raw));
    law_steady_signal_reads_as_itself(WINDOW_SAMPLES as nat, raw);
}

proof fn lemma_slid_times(window: Seq<i32>, raw: i32, n: nat)
    requires
        window.len() <= WINDOW_SAMPLES,
        n <= WINDOW_SAMPLES,
    ensures
        ({
            let after = slid_times(window, raw, n);
            &&& n <= after.len() <= WINDOW_SAMPLES
            &&& forall|i: int| after.len() - n <= i < after.len() ==> after[i] == raw
        }),
    decreases n,
{
    if n > 0 {
        lemma_slid_times(window, raw, (n - 1) as nat);
    }
}

/// A single spike, high or low, among three or more samples has no effect at all.
pub proof fn law_single_spike_is_trimmed(n: nat, raw: i32, at: int, spike: i32)
    requires
        n >= 2,
        0 <= at <= n,
    ensures
        trimmed_mean(steady(n, raw).insert(at, spike)) == raw,
{
    let rest = steady(n, raw);
    let samples = rest.insert(at, spike);
    let sorted = if spike >= raw {
        rest.push(spike)
    } else {
        rest.insert(0, spike)
    };
    vstd::seq_lib::to_multiset_insert(rest, at, spike);
    vstd::seq_lib::to_multiset_insert(rest, 0, spike);
    vstd::seq_lib::to_multiset_build(rest, spike);
    lemma_at_most_orders();
    lemma_ascending(samples);
    vstd::seq_lib::lemma_sorted_unique(sorted, ascending(samples), at_most());
    let kept = trimmed(samples);
    assert(kept =~= steady((n - 1) as nat, raw));
    crate::scale::filter::lemma_total_within(kept, raw as int, raw as int);
    crate::scale::filter::lemma_round_half_away_within(total(kept), kept.len(), raw as int, raw as int);
}

/// Whether the samples lie symmetrically about `centre`.
pub open spec fn symmetric_about(sorted: Seq<i32>, centre: int) -> bool {
    forall|i: int|
        0 <= i < sorted.len() ==> #[trigger] sorted[i] + sorted[sorted.len() - 1 - i] == 2 * centre
}

/// Noise that lies symmetrically about a steady signal averages out.
pub proof fn law_symmetric_noise_averages_out(samples: Seq<i32>, centre: int)
    requires
        samples.len() > 0,
        symmetric_about(ascending(samples), centre),
    ensures
        trimmed_mean(samples) == centre,
{
    lemma_ascending(samples);
    let kept = trimmed(samples);
    let all = ascending(samples);
    assert forall|i: int| 0 <= i < kept.len() implies #[trigger] kept[i] + kept[kept.len() - 1 - i]
        == 2 * centre by {
        if all.len() > 2 {
            assert(kept[i] == all[i + 1]);
            assert(kept[kept.len() - 1 - i] == all[all.len() - 1 - (i + 1)]);
        }
    }
    lemma_symmetric_total(kept, centre);
    let n = kept.len();
    assert(centre * n == total(kept)) by (nonlinear_arith)
        requires
            2 * total(kept) == (2 * centre) * n,
    ;
    crate::scale::filter::lemma_round_half_away_within(total(kept), n, centre, centre);
}

proof fn lemma_total_from_front(samples: Seq<i32>)
    requires
        samples.len() > 0,
    ensures
        total(samples) == samples[0] + total(samples.drop_first()),
    decreases samples.len(),
{
    if samples.len() == 1 {
        assert(samples.drop_last() =~= Seq::empty());
        assert(samples.drop_first() =~= Seq::empty());
    } else {
        lemma_total_from_front(samples.drop_last());
        assert(samples.drop_last().drop_first() =~= samples.drop_first().drop_last());
    }
}

proof fn lemma_symmetric_total(sorted: Seq<i32>, centre: int)
    requires
        symmetric_about(sorted, centre),
    ensures
        2 * total(sorted) == (2 * centre) * sorted.len(),
    decreases sorted.len(),
{
    let n = sorted.len();
    if n == 1 {
        assert(sorted[0] + sorted[n - 1 - 0] == 2 * centre);
        assert(total(sorted.drop_last()) == 0);
        assert((2 * centre) * n == 2 * centre) by (nonlinear_arith)
            requires
                n == 1,
        ;
    } else if n >= 2 {
        let inner = sorted.drop_last().drop_first();
        assert(sorted[0] + sorted[n - 1 - 0] == 2 * centre);
        assert forall|i: int| 0 <= i < inner.len() implies #[trigger] inner[i] + inner[inner.len() - 1 - i]
            == 2 * centre by {
            assert(inner[i] == sorted[i + 1]);
            assert(inner[inner.len() - 1 - i] == sorted[n - 1 - (i + 1)]);
        }
        lemma_symmetric_total(inner, centre);
        lemma_total_from_front(sorted.drop_last());
        let rest = inner.len();
        assert(2 * total(sorted) == 2 * total(inner) + 2 * (2 * centre));
        assert((2 * centre) * n == (2 * centre) * rest + 2 * (2 * centre)) by (nonlinear_arith)
            requires
                n == rest + 2,
        ;
    } else {
        assert((2 * centre) * n == 0) by (nonlinear_arith)
            requires
                n == 0,
        ;
    }
}

/// While one calibration is in use, the filter's reading stays in the range that single readings
/// are held to, and its arithmetic stays in range too.
pub proof fn law_filtered_reading_stays_plausible(window: Seq<i32>, raw: i32, calibration: ScaleCalibration)
    requires
        window.len() <= WINDOW_SAMPLES,
        forall|i: int| 0 <= i < window.len() ==> plausible(#[trigger] window[i], calibration)
            && calibration.in_span(window[i] as int),
        calibration.in_span(raw as int),
        plausible(raw, calibration),
    ensures
        acceptable(window, raw, calibration),
        MIN_WEIGHT_DG <= calibration.decigrams(trimmed_mean(slid(window, raw))) <= MAX_WEIGHT_DG,
{
    let samples = slid(window, raw);
    assert forall|i: int| 0 <= i < samples.len() implies plausible(#[trigger] samples[i], calibration)
        && calibration.in_span(samples[i] as int) by {
        let longer = window.push(raw);
        let j = if longer.len() > WINDOW_SAMPLES {
            i + 1
        } else {
            i
        };
        assert(samples[i] == longer[j]);
        if j < window.len() {
            assert(longer[j] == window[j]);
        }
    }
    let (lo, hi) = lemma_extremes(samples);
    lemma_mean_within(samples, samples[lo] as int, samples[hi] as int);
    let mean = trimmed_mean(samples);
    law_heavier_never_reads_lighter(calibration, samples[lo] as int, mean);
    law_heavier_never_reads_lighter(calibration, mean, samples[hi] as int);
}

/// Where the lowest and the highest sample are.
proof fn lemma_extremes(samples: Seq<i32>) -> (at: (int, int))
    requires
        samples.len() > 0,
    ensures
        0 <= at.0 < samples.len(),
        0 <= at.1 < samples.len(),
        within(samples, samples[at.0] as int, samples[at.1] as int),
    decreases samples.len(),
{
    if samples.len() == 1 {
        (0, 0)
    } else {
        let (lo, hi) = lemma_extremes(samples.drop_last());
        let last = samples.len() - 1;
        let first = samples.drop_last();
        let at = (
            if samples[last] < samples[lo] {
                last
            } else {
                lo
            },
            if samples[last] > samples[hi] {
                last
            } else {
                hi
            },
        );
        assert forall|i: int| 0 <= i < samples.len() implies samples[at.0] <= #[trigger] samples[i]
            <= samples[at.1] by {
            if i < last {
                assert(first[i] == samples[i]);
            }
        }
        at
    }
}

/// The window after a run of samples that all entered it.
pub open spec fn window_of(samples: Seq<i32>) -> Seq<i32>
    decreases samples.len(),
{
    if samples.len() == 0 {
        Seq::empty()
    } else {
        slid(window_of(samples.drop_last()), samples.last())
    }
}

/// The window holds the latest 32 samples, or all of them while there are fewer, in the order in
/// which they came.
pub proof fn law_window_holds_the_latest_samples(samples: Seq<i32>)
    ensures
        samples.len() <= 32 ==> window_of(samples) == samples,
        samples.len() > 32 ==> window_of(samples) == samples.skip(samples.len() - 32),
    decreases samples.len(),
{
    if samples.len() > 0 {
        let before = samples.drop_last();
        law_window_holds_the_latest_samples(before);
        assert(samples =~= before.push(samples.last()));
        if samples.len() > 32 {
            assert(window_of(samples) =~= samples.skip(samples.len() - 32));
        } else {
            assert(window_of(samples) =~= samples);
        }
    }
}

/// The sum does not depend on the order.
proof fn lemma_total_of_multiset(a: Seq<i32>, b: Seq<i32>)
    requires
        a.to_multiset() == b.to_multiset(),
    ensures
        total(a) == total(b),
        a.len() == b.len(),
    decreases a.len(),
{
    broadcast use vstd::seq_lib::group_to_multiset_ensures;

    assert(a.to_multiset().len() == a.len() && b.to_multiset().len() == b.len());
    if a.len() > 0 {
        let x = a.last();
        assert(a.to_multiset().count(x) > 0) by {
            assert(a.contains(a[a.len() - 1]));
        }
        assert(b.contains(x));
        let i = choose|i: int| 0 <= i < b.len() && b[i] == x;
        let rest = b.remove(i);
        lemma_total_of_removed(b, i);
        assert(a.drop_last() =~= a.remove(a.len() - 1));
        assert(a.drop_last().to_multiset() =~= a.to_multiset().remove(x));
        assert(rest.to_multiset() =~= b.to_multiset().remove(x));
        lemma_total_of_multiset(a.drop_last(), rest);
    }
}

proof fn lemma_total_of_removed(samples: Seq<i32>, i: int)
    requires
        0 <= i < samples.len(),
    ensures
        total(samples) == total(samples.remove(i)) + samples[i],
    decreases samples.len(),
{
    if i == samples.len() - 1 {
        assert(samples.remove(i) =~= samples.drop_last());
    } else {
        lemma_total_of_removed(samples.drop_last(), i);
        assert(samples.remove(i).drop_last() =~= samples.drop_last().remove(i));
        assert(samples.remove(i).last() == samples.last());
    }
}

/// Rounding a ratio to a whole number is off by half at most, and away from zero where it is off
/// by half.
pub proof fn law_halves_round_away_from_zero(num: int, den: nat)
    requires
        den > 0,
    ensures
        ({
            let n = round_half_away(num, den);
            &&& 2 * (n * den) - 2 * num <= den
            &&& 2 * num - 2 * (n * den) <= den
            &&& num >= 0 ==> 2 * num < 2 * (n * den) + den
            &&& num < 0 ==> 2 * num > 2 * (n * den) - den
        }),
{
    let size = if num < 0 {
        (-num) as nat
    } else {
        num as nat
    };
    let q = (2 * size + den) / (2 * den);
    let r = (2 * size + den) % (2 * den);
    vstd::arithmetic::div_mod::lemma_fundamental_div_mod(2 * size + den as int, 2 * den as int);
    assert(2 * size + den == 2 * (q * den) + r) by (nonlinear_arith)
        requires
            2 * size + den == (2 * den) * q + r,
    ;
    let n = round_half_away(num, den);
    assert(n == q || n == -q);
    assert((-(q as int)) * den == -(q * den)) by (nonlinear_arith);
}

/// The mean leaves out one highest and one lowest of three or more samples and divides the sum
/// of all the others by their number, to the nearest whole, halves away from zero.
pub proof fn law_mean_leaves_out_one_extreme_each(samples: Seq<i32>, highest: int, lowest: int)
    requires
        samples.len() >= 3,
        0 <= highest < samples.len(),
        0 <= lowest < samples.len(),
        forall|i: int| 0 <= i < samples.len() ==> samples[lowest] <= #[trigger] samples[i] <= samples[highest],
    ensures
        ({
            let (sum, n) = (total(samples) - samples[highest] - samples[lowest], samples.len() - 2);
            let mean = trimmed_mean(samples);
            &&& 2 * (mean * n) - 2 * sum <= n
            &&& 2 * sum - 2 * (mean * n) <= n
            &&& sum >= 0 ==> 2 * sum < 2 * (mean * n) + n
            &&& sum < 0 ==> 2 * sum > 2 * (mean * n) - n
        }),
{
    lemma_ascending(samples);
    let all = ascending(samples);
    let kept = trimmed(samples);
    lemma_total_of_multiset(samples, all);
    broadcast use vstd::seq_lib::group_to_multiset_ensures;

    let le = at_most();
    assert(samples.to_multiset().count(samples[highest]) > 0) by {
        assert(samples.contains(samples[highest]));
    }
    assert(samples.to_multiset().count(samples[lowest]) > 0) by {
        assert(samples.contains(samples[lowest]));
    }
    let (h, l) = (
        choose|i: int| 0 <= i < all.len() && all[i] == samples[highest],
        choose|i: int| 0 <= i < all.len() && all[i] == samples[lowest],
    );
    assert(all.contains(samples[highest]) && all.contains(samples[lowest]));
    let last = all.len() - 1;
    assert(samples.contains(all[last]) && samples.contains(all[0])) by {
        assert(all.to_multiset().count(all[last]) > 0);
        assert(all.to_multiset().count(all[0]) > 0);
    }
    if h < last {
        assert(le(all[h], all[last]));
    }
    if 0 < l {
        assert(le(all[0], all[l]));
    }
    assert(all[last] == samples[highest]);
    assert(all[0] == samples[lowest]);
    lemma_total_from_front(all);
    assert(kept =~= all.drop_first().drop_last());
    assert(total(all.drop_first()) == total(kept) + all[last]);
    law_halves_round_away_from_zero(total(kept), kept.len());
}

/// The mean of one sample is that sample, and that of two lies halfway, halves away from zero.
pub proof fn law_mean_of_one_or_two(first: i32, second: i32)
    ensures
        trimmed_mean(seq![first]) == first,
        ({
            let (sum, mean) = (first + second, trimmed_mean(seq![first, second]));
            &&& sum % 2 == 0 ==> 2 * mean == sum
            &&& sum % 2 != 0 && sum > 0 ==> 2 * mean == sum + 1
            &&& sum % 2 != 0 && sum < 0 ==> 2 * mean == sum - 1
        }),
{
    let (one, two) = (seq![first], seq![first, second]);
    lemma_mean_within(one, first as int, first as int);
    lemma_ascending(two);
    lemma_total_of_multiset(two, ascending(two));
    reveal_with_fuel(total, 3);
    assert(two.drop_last() =~= seq![first]);
    assert(two.drop_last().drop_last() =~= Seq::empty());
    assert(total(two) == first + second);
    law_halves_round_away_from_zero(first + second, 2);
}

/// Only 24-bit samples of a valid calibration that weigh from -50 g to 3 kg are plausible.
pub proof fn law_plausible_samples_weigh_up_to_three_kilograms(raw: i32, calibration: ScaleCalibration)
    ensures
        plausible(raw, calibration) <==> {
            &&& -8_388_608 <= raw < 8_388_608
            &&& calibration.valid()
            &&& -500 <= calibration.decigrams(raw as int) <= 30_000
        },
{
}

} // verus!
