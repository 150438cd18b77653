//! What a weight, a factor and their stored form are, in plain arithmetic.

use vstd::arithmetic::power2::*;
use vstd::math::abs;
use vstd::prelude::*;

use crate::binary32::laws::{
    lemma_nearest_any_error, lemma_nearest_error, lemma_of_int, lemma_of_int_exact,
};
use crate::binary32::model::{lemma_signed, nearest, units, Binary32};
use crate::binary32::ops::{above_epsilon, of_int, product, quotient, whole};
use crate::binary32::rounding_laws::{law_epsilon_in_bits, law_rounding_is_off_by_half};
use crate::scale::calibration::{DualScaleCalibration, ScaleCalibration};
use crate::scale::laws::{law_calibration_survives_storage, law_zero_point_reads_zero};

verus! {

/// The total of both cells is what each cell weighs on its own, added up: take the left cell's
/// weight away and the right cell's is left. A cell at its zero point adds nothing.
pub proof fn law_both_cells_count_once(pair: DualScaleCalibration, left_raw: int, right_raw: int)
    ensures
        pair.decigrams(left_raw, right_raw) - pair.left.decigrams(left_raw)
            == pair.right.decigrams(right_raw),
        pair.decigrams(left_raw, pair.right.offset as int) == pair.left.decigrams(left_raw),
        pair.decigrams(pair.left.offset as int, right_raw) == pair.right.decigrams(right_raw),
{
    law_zero_point_reads_zero(pair.left);
    law_zero_point_reads_zero(pair.right);
}

/// The total changes with a cell's reading by as much as that cell's weight does.
pub proof fn law_total_follows_each_cell(
    pair: DualScaleCalibration,
    left_raw: int,
    left_later: int,
    right_raw: int,
    right_later: int,
)
    ensures
        pair.decigrams(left_later, right_raw) - pair.decigrams(left_raw, right_raw)
            == pair.left.decigrams(left_later) - pair.left.decigrams(left_raw),
        pair.decigrams(left_raw, right_later) - pair.decigrams(left_raw, right_raw)
            == pair.right.decigrams(right_later) - pair.right.decigrams(right_raw),
{
}

/// A factor is valid just where its bits lie above those of `2^-23` and below those of infinity.
pub proof fn law_valid_factors_in_bits(calibration: ScaleCalibration)
    ensures
        calibration.valid() <==> 0x3400_0000 < calibration.scale.bits < 0x7f80_0000,
{
    law_epsilon_in_bits(calibration.scale);
}

/// The stored form is the offset in two's complement and then the factor's bits, each as four
/// bytes, least significant first.
pub proof fn law_stored_form_is_little_endian(calibration: ScaleCalibration)
    ensures
        ({
            let b = calibration.stored();
            let word = |at: int| b[at] + 256 * b[at + 1] + 65_536 * b[at + 2] + 16_777_216 * b[at + 3];
            &&& b.len() == 8
            &&& word(0) == if calibration.offset < 0 {
                calibration.offset + 4_294_967_296
            } else {
                calibration.offset as int
            }
            &&& word(4) == calibration.scale.bits
        }),
{
    law_calibration_survives_storage(calibration);
}

/// The stored pair is the left cell's eight bytes and then the right cell's.
pub proof fn law_stored_pair_is_left_then_right(pair: DualScaleCalibration)
    ensures
        pair.stored().len() == 16,
        pair.stored().take(8) == pair.left.stored(),
        pair.stored().skip(8) == pair.right.stored(),
{
    law_calibration_survives_storage(pair.left);
    law_calibration_survives_storage(pair.right);
    assert(pair.stored().take(8) =~= pair.left.stored());
    assert(pair.stored().skip(8) =~= pair.right.stored());
}

/// The errors of each rounding, put together. Everything is in units of `2^-149`, `p` to the
/// gram: `d` counts, `a` as a number, `q` grams at `s` counts per gram, `t` tenths, `n` rounded.
proof fn lemma_errors_add_up(d: int, p: int, s: int, a: int, q: int, t: int, n: int)
    requires
        d >= 0,
        p >= 0x1000_0000_0000,
        s > 0,
        a >= 0,
        q >= 0,
        0x100_0000 * abs(a - d * p) <= d * p,
        0x200_0000 * abs(q * s - a * p) <= 2 * (a * p) + 0x100_0000 * s,
        0x200_0000 * abs(t - 10 * q) <= 20 * q + 0x100_0000,
        2 * abs(n * p - t) <= p,
    ensures
        0x80_0000 * abs(n * s - 10 * (d * p)) <= 0x40_0001 * s + 20 * (d * p),
{
    let k: int = 0x100_0000;
    let (dp, ns) = (d * p, n * s);
    let (dpp, ap, qs, sp, nsp, ts) = (dp * p, a * p, q * s, s * p, ns * p, t * s);
    let x = ns - 10 * dp;
    assert(dp >= 0 && dpp >= 0 && ap >= 0 && qs >= 0 && sp >= 0x1000_0000_0000 * s)
        by (nonlinear_arith)
        requires
            dp == d * p,
            dpp == dp * p,
            ap == a * p,
            qs == q * s,
            sp == s * p,
            d >= 0,
            a >= 0,
            q >= 0,
            s > 0,
            p >= 0x1000_0000_0000,
    ;
    assert(2 * abs(nsp - ts) <= sp) by (nonlinear_arith)
        requires
            nsp == (n * s) * p,
            ts == t * s,
            sp == s * p,
            2 * abs(n * p - t) <= p,
            s > 0,
    ;
    assert(2 * k * abs(ts - 10 * qs) <= 20 * qs + k * s) by (nonlinear_arith)
        requires
            k == 0x100_0000,
            ts == t * s,
            qs == q * s,
            0x200_0000 * abs(t - 10 * q) <= 20 * q + 0x100_0000,
            s > 0,
    ;
    assert(k * abs(ap - dpp) <= dpp) by (nonlinear_arith)
        requires
            k == 0x100_0000,
            ap == a * p,
            dp == d * p,
            dpp == dp * p,
            k * abs(a - dp) <= dp,
            p > 0,
    ;
    // The parts make up the whole, `p` times over.
    assert(x * p == nsp - 10 * dpp) by (nonlinear_arith)
        requires
            x == ns - 10 * dp,
            nsp == ns * p,
            dpp == dp * p,
    ;
    assert(2 * k * abs(x * p) <= k * sp + 20 * qs + k * s + 20 * ap + 10 * k * s + 20 * dpp);
    assert(2 * k * abs(x * p) <= k * sp + 4 * sp + 80 * dpp);
    assert(0x80_0000 * abs(x) <= 0x40_0001 * s + 20 * dp) by (nonlinear_arith)
        requires
            k == 0x100_0000,
            2 * k * abs(x * p) <= k * sp + 4 * sp + 80 * dpp,
            sp == s * p,
            dpp == dp * p,
            p > 0,
    ;
}

/// Counts become a number that is off by no more than one part in `2^24`.
proof fn lemma_counts_error(n: int)
    requires
        i32::MIN <= n <= i32::MAX,
    ensures
        0x100_0000 * abs(units(of_int(n).magnitude()) - abs(n) * pow2(149)) <= abs(n) * pow2(149),
{
    let (p, d) = (pow2(149), abs(n));
    let dp = d * p;
    lemma_of_int(n);
    lemma2_to64();
    lemma_pow2_pos(126);
    if d > 0 {
        lemma_pow2_adds(23, 126);
        lemma_pow2_adds(32, 244);
        lemma_pow2_adds(149, 95);
        lemma_pow2_pos(95);
        assert(0x80_0000 * 1 <= dp) by (nonlinear_arith)
            requires
                dp == d * p,
                d >= 1,
                p == 0x80_0000 * pow2(126),
                pow2(126) >= 1,
        ;
        assert(dp <= pow2(276) * 1) by (nonlinear_arith)
            requires
                dp == d * p,
                d <= 0x1_0000_0000,
                pow2(276) == 0x1_0000_0000 * pow2(244),
                pow2(244) == p * pow2(95),
                pow2(95) >= 1,
                p >= 0,
        ;
        lemma_nearest_error(dp, 1);
    } else {
        assert(dp == 0) by (nonlinear_arith)
            requires
                dp == d * p,
                d == 0,
        ;
    }
}

/// A weight is ten times the counts above the zero point over the counts per gram, to the
/// nearest tenth of a gram but for one part in four million: multiplied out, ten times the
/// counts and the weight times the factor differ by half a factor, and so little more. It has the
/// sign of the counts, or the other one where the factor is negative.
pub proof fn law_weight_is_counts_over_factor(calibration: ScaleCalibration, raw: int)
    requires
        calibration.scale.finite(),
        calibration.in_span(raw),
        calibration.scale.value() != 0,
        10 * (abs(raw - calibration.offset) * pow2(149)) <= 0x4000_0000 * abs(
            calibration.scale.value(),
        ),
    ensures
        ({
            let (p, s) = (pow2(149), abs(calibration.scale.value()));
            let counts = raw - calibration.offset;
            let weight = calibration.decigrams(raw);
            &&& 0x80_0000 * abs(abs(weight) * s - 10 * (abs(counts) * p)) <= 0x40_0001 * s + 20 * (abs(
                counts,
            ) * p)
            &&& calibration.scale.value() > 0 ==> (counts >= 0 ==> weight >= 0) && (counts <= 0 ==> weight
                <= 0)
            &&& calibration.scale.value() < 0 ==> (counts >= 0 ==> weight <= 0) && (counts <= 0 ==> weight
                >= 0)
        }),
{
    let (p, scale, ten) = (pow2(149), calibration.scale, of_int(10));
    let s = units(scale.magnitude());
    let counts = raw - calibration.offset;
    let d = abs(counts);
    let number = of_int(counts);
    let a = units(number.magnitude());
    lemma2_to64();
    lemma2_to64_rest();
    lemma_pow2_pos(126);
    lemma_pow2_adds(48, 101);
    lemma_pow2_pos(101);
    assert(p >= 0x1000_0000_0000) by (nonlinear_arith)
        requires
            p == 0x1_0000_0000_0000 * pow2(101),
            pow2(101) > 0,
    ;
    lemma_of_int(counts);
    lemma_of_int(10);
    lemma_of_int_exact(10);
    assert(abs(scale.value()) == s && s > 0);
    let negative = number.negative() != scale.negative();
    // The counts.
    let dp = d * p;
    lemma_counts_error(counts);
    // The grams.
    let grams = quotient(number, scale);
    let ap = a * p;
    assert(2 * a <= 3 * dp);
    lemma_pow2_adds(149, 31);
    lemma_pow2_adds(180, 96);
    lemma_pow2_pos(96);
    assert(ap <= pow2(276) * s) by (nonlinear_arith)
        requires
            ap == a * p,
            2 * a <= 3 * dp,
            10 * dp <= 0x4000_0000 * s,
            pow2(276) == pow2(180) * pow2(96),
            pow2(180) == p * 0x8000_0000,
            pow2(96) >= 1,
            p > 0,
            s > 0,
    ;
    lemma_nearest_any_error(ap, s);
    let q = nearest(ap, s);
    lemma_signed(negative, q);
    let qu = units(q);
    assert(grams.magnitude() == q && grams.negative() == negative);
    // The tenths.
    let tenths = product(grams, ten);
    assert(units(ten.magnitude()) == 10 * p);
    assert(qu * (10 * p) == (10 * qu) * p) by (nonlinear_arith);
    assert(qu <= 0x8000_0000 * p) by (nonlinear_arith)
        requires
            0x200_0000 * abs(qu * s - ap) <= 2 * ap + 0x100_0000 * s,
            ap == a * p,
            2 * a <= 3 * dp,
            10 * dp <= 0x4000_0000 * s,
            s > 0,
            p >= 0x1000_0000_0000,
    ;
    lemma_pow2_adds(32, 64);
    lemma_pow2_pos(64);
    assert((10 * qu) * p <= pow2(276) * p) by (nonlinear_arith)
        requires
            qu <= 0x8000_0000 * p,
            pow2(276) == pow2(180) * pow2(96),
            pow2(180) == p * 0x8000_0000,
            pow2(96) >= 10,
            p > 0,
    ;
    lemma_nearest_any_error((10 * qu) * p, p);
    let t = nearest((10 * qu) * p, p);
    lemma_signed(negative, t);
    let tu = units(t);
    assert(tenths.magnitude() == t && tenths.negative() == negative);
    assert(0x200_0000 * abs(tu - 10 * qu) <= 20 * qu + 0x100_0000) by (nonlinear_arith)
        requires
            0x200_0000 * abs(tu * p - (10 * qu) * p) <= 2 * ((10 * qu) * p) + 0x100_0000 * p,
            p > 0,
    ;
    // The whole.
    assert(tu <= 0x7fff_ffff * p) by (nonlinear_arith)
        requires
            0x200_0000 * abs(tu - 10 * qu) <= 20 * qu + 0x100_0000,
            0x200_0000 * abs(qu * s - ap) <= 2 * ap + 0x100_0000 * s,
            0x100_0000 * abs(a - dp) <= dp,
            ap == a * p,
            10 * dp <= 0x4000_0000 * s,
            s > 0,
            p >= 0x1000_0000_0000,
    ;
    law_rounding_is_off_by_half(tenths);
    let weight = whole(tenths);
    let n = abs(weight);
    if counts == 0 {
        law_zero_point_reads_zero(calibration);
    }
    assert(2 * abs(n * p - tu) <= p && (negative ==> weight <= 0) && (!negative ==> weight >= 0))
        by (nonlinear_arith)
        requires
            2 * abs(weight * p - tenths.value()) <= p,
            negative ==> tenths.value() == -tu,
            !negative ==> tenths.value() == tu,
            n == abs(weight),
            tu >= 0,
            p > 0,
    ;
    lemma_errors_add_up(d as int, p as int, s as int, a as int, qu as int, tu as int, n as int);
}

/// A factor is the counts that a reference weight adds over its grams, but for one part in four
/// million: multiplied out, the factor times the grams and the counts differ by so little. It
/// has the sign of the counts. Without counts, or without a reference above machine epsilon, it
/// is zero. The zero point is kept.
pub proof fn law_factor_is_counts_over_grams(offset: i32, raw: i32, reference: Binary32)
    requires
        i32::MIN <= raw - offset <= i32::MAX,
    ensures
        ({
            let calibration = ScaleCalibration::calibrated(offset, raw, reference);
            let (p, g) = (pow2(149), units(reference.magnitude()));
            let (f, d) = (units(calibration.scale.magnitude()), abs(raw - offset));
            &&& calibration.offset == offset
            &&& raw == offset || !(0x3400_0000 < reference.bits <= 0x7f80_0000)
                ==> calibration.scale.bits == 0
            &&& raw != offset && 0x3400_0000 < reference.bits < 0x7f80_0000 ==> {
                &&& calibration.scale.finite()
                &&& calibration.scale.negative() <==> raw < offset
                &&& 0x200_0000 * abs(f * g - (d * p) * p) <= 5 * ((d * p) * p) + 0x100_0000 * g
            }
        }),
{
    let p = pow2(149);
    let number = of_int(raw - offset);
    let (a, g, dp) = (units(number.magnitude()), units(reference.magnitude()), abs(raw - offset) * p);
    law_epsilon_in_bits(reference);
    lemma_of_int(raw - offset);
    lemma2_to64();
    lemma_pow2_pos(149);
    if raw != offset && above_epsilon(reference) && reference.finite() {
        lemma_counts_error(raw - offset);
        assert(g > pow2(126));
        lemma_pow2_pos(126);
        lemma_pow2_adds(149, 31);
        lemma_pow2_adds(180, 149);
        lemma_pow2_adds(276, 126);
        lemma_pow2_strictly_increases(329, 402);
        let ap = a * p;
        assert(ap <= pow2(276) * g) by (nonlinear_arith)
            requires
                ap == a * p,
                a <= pow2(180),
                pow2(180) * p < pow2(276) * pow2(126),
                g >= pow2(126),
                pow2(276) >= 0,
                p > 0,
        ;
        lemma_nearest_any_error(ap, g);
        let f = units(nearest(ap, g));
        lemma_signed(number.negative(), nearest(ap, g));
        let dpp = dp * p;
        assert(0x200_0000 * abs(f * g - dpp) <= 5 * dpp + 0x100_0000 * g) by {
            assert(0x100_0000 * abs(ap - dpp) <= dpp) by (nonlinear_arith)
                requires
                    ap == a * p,
                    dpp == dp * p,
                    0x100_0000 * abs(a - dp) <= dp,
                    p > 0,
            ;
        }
    }
}

} // verus!
