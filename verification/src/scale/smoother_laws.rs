//! What is shown of damped raw counts lies between what was shown before and the new sample.

use vstd::arithmetic::power2::*;
use vstd::math::abs;
use vstd::prelude::*;

use crate::binary32::laws::{
    lemma_nearest_of_units, lemma_of_int, lemma_of_int_exact, lemma_whole_of_int,
};
use crate::binary32::model::{
    lemma_nearest, lemma_units_grid, lemma_units_increase, nearest, units, Binary32,
};
use crate::binary32::ops::{difference, negated, of_int, product, round_half_up, sum, whole};
use crate::binary32::order::{
    lemma_difference_side, lemma_parts_ordered, lemma_product_with_one, lemma_rounded_ordered,
    lemma_sum_half_step, lemma_sum_ordered, lemma_sum_rank, lemma_value_ordered,
    lemma_whole_ordered, rank, rounded,
};
use crate::scale::order::{law_average_moves_part_of_the_way, law_smaller_weight_damps_harder};
use crate::scale::smoother::blended;

verus! {

/// The largest counts for which nothing is shown beyond a new sample: `2^22`.
pub const SMOOTH_RANGE: i32 = 0x40_0000;

/// A sample and the weight given to it.
pub struct WeightedSample {
    pub raw: i32,
    pub alpha: Binary32,
}

/// Whether a sample is in range and its weight in `(0, 1]`.
pub open spec fn ordinary(sample: WeightedSample) -> bool {
    &&& -SMOOTH_RANGE <= sample.raw <= SMOOTH_RANGE
    &&& sample.alpha.finite()
    &&& 0 < rank(sample.alpha) <= rank(of_int(1))
}

/// The running average after a number of samples, from none.
pub open spec fn averaged(samples: Seq<WeightedSample>) -> Option<Binary32>
    decreases samples.len(),
{
    if samples.len() == 0 {
        None
    } else {
        Some(
            blended(
                averaged(samples.drop_last()),
                samples.last().raw as int,
                samples.last().alpha,
            ),
        )
    }
}

/// Whether a running average is in range.
spec fn in_range(running: Binary32) -> bool {
    running.finite() && abs(running.value()) <= pow2(171)
}

/// The powers of two that the bounds are made of, against one count, `2^149`.
proof fn lemma_powers()
    ensures
        pow2(149) == 8 * pow2(146),
        pow2(149) == 4 * pow2(147),
        pow2(149) == 2 * pow2(148),
        pow2(171) == 0x40_0000 * pow2(149),
        pow2(171) == 0x100_0000 * pow2(147),
        2 * pow2(171) == 0x100_0000 * pow2(148),
        pow2(146) > 0,
{
    lemma2_to64();
    lemma_pow2_pos(146);
    lemma_pow2_unfold(147);
    lemma_pow2_unfold(148);
    lemma_pow2_unfold(149);
    lemma_pow2_adds(149, 22);
}

/// A whole number of counts in range is represented exactly.
proof fn lemma_sample_value(raw: i32)
    requires
        -SMOOTH_RANGE <= raw <= SMOOTH_RANGE,
    ensures
        of_int(raw as int).finite(),
        of_int(raw as int).value() == raw * pow2(149),
        abs(raw * pow2(149)) <= pow2(171),
{
    let p = pow2(149);
    lemma_of_int(raw as int);
    lemma_of_int_exact(raw as int);
    lemma_powers();
    assert(abs(raw as int) * p == abs(raw * p)) by (nonlinear_arith)
        requires
            p >= 0,
    ;
    assert(abs(raw as int) * p <= 0x40_0000 * p) by (nonlinear_arith)
        requires
            abs(raw as int) <= 0x40_0000,
            p >= 0,
    ;
    assert(raw < 0 ==> raw * p <= 0) by (nonlinear_arith)
        requires
            p >= 0,
    ;
    assert(raw >= 0 ==> raw * p >= 0) by (nonlinear_arith)
        requires
            p >= 0,
    ;
}

/// At the end of the range a quarter of a count more is rounded off.
proof fn lemma_end_of_range()
    ensures
        nearest(pow2(171), 1) == 0x4a80_0000,
        nearest(pow2(171) + pow2(147), 1) == 0x4a80_0000,
        units(0x4a80_0000) == pow2(171),
{
    lemma_powers();
    lemma_units_grid(148, 0x80_0000);
    lemma_units_grid(148, 0x80_0001);
    lemma_units_grid(147, 0xff_ffff);
    assert(units(0x4a80_0000) == 0x80_0000 * pow2(148));
    assert(units(0x4a80_0001) == 0x80_0001 * pow2(148));
    assert(units(0x4a7f_ffff) == 0xff_ffff * pow2(147));
    lemma_nearest_of_units(0x4a80_0000, 1);
    lemma_nearest(pow2(171) + pow2(147), 1, 0x4a80_0000);
}

/// The distance to a sample is off by a quarter of a count at most.
proof fn lemma_distance(running: Binary32, raw: i32)
    requires
        in_range(running),
        -SMOOTH_RANGE <= raw <= SMOOTH_RANGE,
    ensures
        ({
            let distance = difference(of_int(raw as int), running);
            &&& distance.finite()
            &&& 4 * abs(running.value() + distance.value() - raw * pow2(149)) <= pow2(149)
        }),
{
    let sample = of_int(raw as int);
    let minus = negated(running);
    lemma_powers();
    lemma_sample_value(raw);
    assert(minus.magnitude() == running.magnitude() && minus.negative() != running.negative());
    assert(minus.value() == -running.value());
    lemma_sum_half_step(sample, minus, 148);
}

/// A quarter of a count off from beyond the end of the range leaves nothing but the end.
proof fn lemma_at_the_end(raw: int, p: int, exact: int)
    requires
        p > 0,
        -0x40_0000 <= raw <= 0x40_0000,
        4 * abs(exact - raw * p) <= p,
    ensures
        exact > 0x40_0000 * p ==> raw == 0x40_0000,
        exact < -0x40_0000 * p ==> raw == -0x40_0000,
{
    if exact > 0x40_0000 * p {
        assert(raw == 0x40_0000) by (nonlinear_arith)
            requires
                raw * p > 0x40_0000 * p - p,
                raw <= 0x40_0000,
                p > 0,
        ;
    }
    if exact < -0x40_0000 * p {
        assert(raw == -0x40_0000) by (nonlinear_arith)
            requires
                raw * p < -0x40_0000 * p + p,
                raw >= -0x40_0000,
                p > 0,
        ;
    }
}

/// A sum within a quarter of a count of the range is rounded into the range.
proof fn lemma_rounded_into_range(a: Binary32, b: Binary32)
    requires
        a.finite(),
        b.finite(),
        abs(a.value() + b.value()) <= pow2(171) + pow2(147),
    ensures
        in_range(sum(a, b)),
        a.value() + b.value() > pow2(171) ==> sum(a, b).value() == pow2(171),
        a.value() + b.value() < -pow2(171) ==> sum(a, b).value() == -pow2(171),
{
    let exact = a.value() + b.value();
    let end = sum(a, b);
    let (limit, edge) = (pow2(171) as int, (pow2(171) + pow2(147)) as int);
    lemma_powers();
    lemma_sum_rank(a, b);
    lemma_end_of_range();
    lemma_rounded_ordered(exact, edge);
    lemma_rounded_ordered(-edge, exact);
    assert(rounded(edge) == 0x4a80_0000 && rounded(-edge) == -0x4a80_0000);
    assert(rounded(limit) == 0x4a80_0000 && rounded(-limit) == -0x4a80_0000);
    assert(end.magnitude() <= 0x4a80_0000);
    if end.magnitude() < 0x4a80_0000 {
        lemma_units_increase(end.magnitude(), 0x4a80_0000);
    }
    if exact > limit {
        lemma_rounded_ordered(limit, exact);
    }
    if exact < -limit {
        lemma_rounded_ordered(exact, -limit);
    }
}

/// The sum of the running average and its distance to a sample is that sample but for three
/// eighths of a count, and stays in range.
proof fn lemma_whole_way(running: Binary32, raw: i32)
    requires
        in_range(running),
        -SMOOTH_RANGE <= raw <= SMOOTH_RANGE,
    ensures
        ({
            let end = sum(running, difference(of_int(raw as int), running));
            &&& in_range(end)
            &&& 8 * abs(end.value() - raw * pow2(149)) <= 3 * pow2(149)
        }),
{
    let p = pow2(149) as int;
    let distance = difference(of_int(raw as int), running);
    let exact = running.value() + distance.value();
    lemma_powers();
    lemma_sample_value(raw);
    lemma_distance(running, raw);
    lemma_rounded_into_range(running, distance);
    lemma_at_the_end(raw as int, p, exact);
    if abs(exact) <= pow2(171) {
        lemma_sum_half_step(running, distance, 147);
    }
}

/// What lies within three eighths of a whole number is shown as that number.
proof fn lemma_whole_near(a: Binary32, n: int)
    requires
        a.finite(),
        -SMOOTH_RANGE <= n <= SMOOTH_RANGE,
        8 * abs(a.value() - n * pow2(149)) <= 3 * pow2(149),
    ensures
        whole(a) == n,
{
    let (p, u, k) = (pow2(149), units(a.magnitude()), abs(n));
    lemma_pow2_pos(149);
    assert(n > 0 ==> n * p >= p) by (nonlinear_arith)
        requires
            p > 0,
    ;
    assert(n < 0 ==> n * p <= -p) by (nonlinear_arith)
        requires
            p > 0,
    ;
    assert(n == 0 ==> n * p == 0) by (nonlinear_arith);
    assert(abs(n * p) == k * p) by (nonlinear_arith)
        requires
            k == abs(n),
            p > 0,
    ;
    let rest = 2 * u + p - 2 * (k * p);
    assert(0 <= rest < 2 * p);
    assert(2 * u + p == k * (2 * p) + rest) by (nonlinear_arith)
        requires
            rest == 2 * u + p - 2 * (k * p),
    ;
    vstd::arithmetic::div_mod::lemma_fundamental_div_mod_converse(
        2 * u + p as int,
        2 * p as int,
        k as int,
        rest,
    );
    assert(round_half_up(u, p) == k);
}

/// A step keeps the average in range and what is shown between the old value and the sample.
proof fn lemma_step(running: Binary32, next: WeightedSample)
    requires
        in_range(running),
        ordinary(next),
    ensures
        ({
            let after = blended(Some(running), next.raw as int, next.alpha);
            let (before, shown) = (whole(running), whole(after));
            &&& in_range(after)
            &&& before <= next.raw ==> before <= shown <= next.raw
            &&& next.raw <= before ==> next.raw <= shown <= before
            &&& next.alpha == of_int(1) ==> shown == next.raw
        }),
{
    let (raw, alpha) = (next.raw, next.alpha);
    let sample = of_int(raw as int);
    let distance = difference(sample, running);
    let end = sum(running, distance);
    let after = blended(Some(running), raw as int, alpha);
    let one = of_int(1);
    lemma_whole_way(running, raw);
    lemma_whole_near(end, raw as int);
    lemma_sample_value(raw);
    lemma_whole_of_int(raw as int);
    lemma_of_int(1);
    law_average_moves_part_of_the_way(running, raw, alpha);
    law_smaller_weight_damps_harder(running, raw, alpha, alpha);
    if rank(running) <= rank(sample) {
        lemma_whole_ordered(running, sample);
        lemma_value_ordered(running, after);
        lemma_value_ordered(after, end);
        lemma_whole_ordered(after, end);
    } else {
        lemma_whole_ordered(sample, running);
        lemma_value_ordered(after, running);
        lemma_value_ordered(end, after);
        lemma_whole_ordered(end, after);
    }
    if alpha == one {
        lemma_difference_side(sample, running);
        lemma_parts_ordered(one, one, distance);
        lemma_product_with_one(distance);
        lemma_sum_ordered(running, product(one, distance), distance);
        lemma_sum_ordered(running, distance, product(one, distance));
        lemma_whole_ordered(after, end);
        lemma_whole_ordered(end, after);
    }
}

proof fn lemma_averaged_in_range(samples: Seq<WeightedSample>)
    requires
        samples.len() > 0,
        forall|i: int| 0 <= i < samples.len() ==> ordinary(#[trigger] samples[i]),
    ensures
        in_range(averaged(samples)->0),
    decreases samples.len(),
{
    let before = samples.drop_last();
    assert(samples.last() == samples[samples.len() - 1]);
    if before.len() > 0 {
        assert forall|i: int| 0 <= i < before.len() implies ordinary(#[trigger] before[i]) by {
            assert(before[i] == samples[i]);
        }
        lemma_averaged_in_range(before);
        lemma_step(averaged(before)->0, samples.last());
    } else {
        lemma_sample_value(samples.last().raw);
    }
}

/// With weights in `(0, 1]` and counts of up to [`SMOOTH_RANGE`], what is shown for a new sample
/// lies between what was shown last and the sample: it neither overshoots nor moves away. With a
/// weight of one it is the sample.
pub proof fn law_shown_value_stays_between(samples: Seq<WeightedSample>, next: WeightedSample)
    requires
        samples.len() > 0,
        forall|i: int| 0 <= i < samples.len() ==> ordinary(#[trigger] samples[i]),
        ordinary(next),
    ensures
        ({
            let before = whole(averaged(samples)->0);
            let shown = whole(blended(averaged(samples), next.raw as int, next.alpha));
            &&& before <= next.raw ==> before <= shown <= next.raw
            &&& next.raw <= before ==> next.raw <= shown <= before
            &&& next.alpha == of_int(1) ==> shown == next.raw
        }),
{
    lemma_averaged_in_range(samples);
    lemma_step(averaged(samples)->0, next);
}

} // verus!
