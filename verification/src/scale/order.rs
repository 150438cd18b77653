//! Weights and averages move the way that the readings do.

use vstd::arithmetic::power2::*;
use vstd::prelude::*;

use crate::binary32::laws::lemma_of_int;
use crate::binary32::model::Binary32;
use crate::binary32::ops::{difference, of_int, product, quotient, sum, whole};
use crate::binary32::order::{
    lemma_difference_side, lemma_of_int_ordered, lemma_parts_ordered, lemma_product_ordered,
    lemma_product_with_one, lemma_quotient_ordered, lemma_sum_ordered, lemma_sum_with_zero,
    lemma_whole_ordered, rank,
};
use crate::scale::calibration::ScaleCalibration;
use crate::scale::smoother::blended;

verus! {

/// With a valid calibration a higher reading never converts to a lower weight.
pub proof fn law_heavier_never_reads_lighter(calibration: ScaleCalibration, raw: int, higher: int)
    requires
        calibration.valid(),
        calibration.in_span(raw),
        calibration.in_span(higher),
        raw <= higher,
    ensures
        calibration.decigrams(raw) <= calibration.decigrams(higher),
{
    let (a, b) = (of_int(raw - calibration.offset), of_int(higher - calibration.offset));
    let scale = calibration.scale;
    let ten = of_int(10);
    lemma_of_int(raw - calibration.offset);
    lemma_of_int(higher - calibration.offset);
    lemma_of_int(10);
    lemma_of_int_ordered(raw - calibration.offset, higher - calibration.offset);
    lemma_pow2_pos(126);
    lemma_quotient_ordered(a, b, scale);
    lemma_product_ordered(quotient(a, scale), quotient(b, scale), ten);
    lemma_whole_ordered(product(quotient(a, scale), ten), product(quotient(b, scale), ten));
}

/// A sample moves the running average towards itself, and the smaller its weight the less, so
/// smaller weights damp harder. What is shown moves likewise.
pub proof fn law_smaller_weight_damps_harder(
    running: Binary32,
    raw: i32,
    small: Binary32,
    large: Binary32,
)
    requires
        running.finite(),
        small.finite(),
        large.finite(),
        0 < rank(small) <= rank(large),
    ensures
        ({
            let slow = blended(Some(running), raw as int, small);
            let fast = blended(Some(running), raw as int, large);
            &&& rank(running) <= rank(of_int(raw as int)) ==> {
                &&& rank(running) <= rank(slow) <= rank(fast)
                &&& whole(running) <= whole(slow) <= whole(fast)
            }
            &&& rank(of_int(raw as int)) <= rank(running) ==> {
                &&& rank(fast) <= rank(slow) <= rank(running)
                &&& whole(fast) <= whole(slow) <= whole(running)
            }
        }),
{
    let sample = of_int(raw as int);
    let distance = difference(sample, running);
    let zero = of_int(0);
    lemma_of_int(raw as int);
    lemma_of_int(0);
    lemma_difference_side(sample, running);
    lemma_parts_ordered(small, large, distance);
    lemma_sum_with_zero(running, zero);
    let (less, more) = (product(small, distance), product(large, distance));
    let (slow, fast) = (sum(running, less), sum(running, more));
    if rank(running) <= rank(sample) {
        lemma_sum_ordered(running, zero, less);
        lemma_sum_ordered(running, less, more);
        lemma_whole_ordered(running, slow);
        lemma_whole_ordered(slow, fast);
    }
    if rank(sample) <= rank(running) {
        lemma_sum_ordered(running, less, zero);
        lemma_sum_ordered(running, more, less);
        lemma_whole_ordered(slow, running);
        lemma_whole_ordered(fast, slow);
    }
}

/// With a weight of at most one the running average moves at most the whole way to the sample.
pub proof fn law_average_moves_part_of_the_way(running: Binary32, raw: i32, alpha: Binary32)
    requires
        running.finite(),
        alpha.finite(),
        0 < rank(alpha) <= rank(of_int(1)),
    ensures
        ({
            let next = blended(Some(running), raw as int, alpha);
            let whole_way = sum(running, difference(of_int(raw as int), running));
            &&& rank(running) <= rank(of_int(raw as int)) ==> rank(running) <= rank(next) <= rank(
                whole_way,
            )
            &&& rank(of_int(raw as int)) <= rank(running) ==> rank(whole_way) <= rank(next) <= rank(
                running,
            )
        }),
{
    let distance = difference(of_int(raw as int), running);
    let one = of_int(1);
    lemma_of_int(1);
    lemma_of_int(raw as int);
    law_smaller_weight_damps_harder(running, raw, alpha, one);
    lemma_difference_side(of_int(raw as int), running);
    lemma_product_with_one(distance);
    lemma_parts_ordered(alpha, one, distance);
    lemma_sum_ordered(running, product(one, distance), distance);
    lemma_sum_ordered(running, distance, product(one, distance));
}

} // verus!
