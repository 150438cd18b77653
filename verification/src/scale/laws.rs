//! What holds of calibrations, the filter and the smoother as a whole.

use vstd::arithmetic::power2::*;
use vstd::prelude::*;

use crate::binary32::laws::{
    lemma_nearest_error, lemma_nearest_of_units, lemma_nearest_zero, lemma_of_int,
    lemma_of_int_exact, lemma_whole_of_int,
};
use crate::binary32::model::{lemma_signed, lemma_units_increase, nearest, signed, units, Binary32};
use crate::binary32::ops::{
    above_epsilon, difference, negated, of_int, product, quotient, round_half_up, whole,
};
use crate::scale::calibration::{
    le_bytes, le_value, twos_complement, DualScaleCalibration, ScaleCalibration,
};
use crate::scale::smoother::blended;

verus! {

/// Reading back the bytes of a calibration gives that calibration, bit for bit.
pub proof fn law_calibration_survives_storage(calibration: ScaleCalibration)
    ensures
        calibration.stored().len() == 8,
        ScaleCalibration::restored(calibration.stored(), 0) == calibration,
{
    lemma_le(twos_complement(calibration.offset));
    lemma_le(calibration.scale.bits);
}

/// Any eight bytes are the stored form of the calibration read from them.
pub proof fn law_stored_bytes_survive_reading(bytes: Seq<u8>)
    requires
        bytes.len() == 8,
    ensures
        ScaleCalibration::restored(bytes, 0).stored() == bytes,
{
    let restored = ScaleCalibration::restored(bytes, 0);
    lemma_le_bytes_of_value(bytes, 0);
    lemma_le_bytes_of_value(bytes, 4);
    assert(twos_complement(restored.offset) == le_value(bytes, 0));
    assert(restored.stored() =~= bytes);
}

proof fn lemma_le_bytes_of_value(bytes: Seq<u8>, at: int)
    ensures
        ({
            let split = le_bytes(le_value(bytes, at));
            &&& split.len() == 4
            &&& split[0] == bytes[at]
            &&& split[1] == bytes[at + 1]
            &&& split[2] == bytes[at + 2]
            &&& split[3] == bytes[at + 3]
        }),
{
    let (a, b, c, d) = (bytes[at] as int, bytes[at + 1] as int, bytes[at + 2] as int, bytes[at + 3] as int);
    let x = a + b * 0x100 + c * 0x1_0000 + d * 0x100_0000;
    let upper = b + c * 0x100 + d * 0x1_0000;
    assert(x == a + 0x100 * upper);
    assert(x / 0x100 == upper && x % 0x100 == a);
    let top = c + d * 0x100;
    assert(upper == b + 0x100 * top);
    assert(upper / 0x100 == top && upper % 0x100 == b);
    assert(x / 0x1_0000 == top);
    assert(top / 0x100 == d && top % 0x100 == c);
    assert(x / 0x100_0000 == d);
}

/// Reading back the bytes of a pair of calibrations gives that pair, bit for bit.
pub proof fn law_dual_calibration_survives_storage(calibration: DualScaleCalibration)
    ensures
        calibration.stored().len() == 16,
        DualScaleCalibration::restored(calibration.stored()) == calibration,
{
    law_calibration_survives_storage(calibration.left);
    law_calibration_survives_storage(calibration.right);
    let bytes = calibration.stored();
    assert(bytes.subrange(0, 8) =~= calibration.left.stored());
    assert(bytes.subrange(8, 16) =~= calibration.right.stored());
    assert(ScaleCalibration::restored(bytes, 0) == ScaleCalibration::restored(bytes.subrange(0, 8), 0));
    assert(ScaleCalibration::restored(bytes, 8) == ScaleCalibration::restored(bytes.subrange(8, 16), 0));
}

/// Any sixteen bytes are the stored form of the pair of calibrations read from them.
pub proof fn law_dual_stored_bytes_survive_reading(bytes: Seq<u8>)
    requires
        bytes.len() == 16,
    ensures
        DualScaleCalibration::restored(bytes).stored() == bytes,
{
    let (l, r) = (bytes.subrange(0, 8), bytes.subrange(8, 16));
    law_stored_bytes_survive_reading(l);
    law_stored_bytes_survive_reading(r);
    assert(ScaleCalibration::restored(bytes, 0) == ScaleCalibration::restored(l, 0));
    assert(ScaleCalibration::restored(bytes, 8) == ScaleCalibration::restored(r, 0));
    assert(bytes =~= l + r);
}

proof fn lemma_le(x: u32)
    ensures
        le_value(le_bytes(x), 0) == x,
{
}

/// An uncalibrated scale is not valid.
pub proof fn law_uncalibrated_is_invalid(offset: i32)
    ensures
        !(ScaleCalibration { offset, scale: signed(false, 0) }).valid(),
{
    lemma_pow2_pos(126);
}

/// At the zero point every calibration, valid or not, reads zero.
pub proof fn law_zero_point_reads_zero(calibration: ScaleCalibration)
    ensures
        calibration.decigrams(calibration.offset as int) == 0,
{
    let zero = of_int(0);
    let scale = calibration.scale;
    lemma_of_int(0);
    lemma_of_int(10);
    lemma_pow2_pos(149);
    assert(0 * pow2(149) == 0) by (nonlinear_arith);
    if !scale.nan() && scale.magnitude() != 0 {
        let grams = quotient(zero, scale);
        if scale.finite() {
            lemma_units_increase(0, scale.magnitude());
            lemma_nearest_zero(units(scale.magnitude()));
        }
        lemma_signed(zero.negative() != scale.negative(), 0);
        assert(grams.magnitude() == 0);
        assert(0 * units(of_int(10).magnitude()) == 0) by (nonlinear_arith);
        lemma_nearest_zero(pow2(149));
        let tenths = product(grams, of_int(10));
        lemma_signed(grams.negative() != of_int(10).negative(), 0);
        assert(tenths.magnitude() == 0);
        let p = pow2(149);
        assert(p / (2 * p) == 0) by (nonlinear_arith)
            requires
                p > 0,
        ;
    }
}

/// `whole` of a magnitude close to a whole number.
proof fn lemma_rounds_to_tenths(t: nat, p: nat, n: nat)
    requires
        p > 0,
        n > 0,
        (2 * n - 1) * p <= 2 * t < (2 * n + 1) * p,
    ensures
        round_half_up(t, p) == n,
{
    let rem = 2 * t + p - n * (2 * p);
    assert(0 <= rem < 2 * p && 2 * t + p == n * (2 * p) + rem) by (nonlinear_arith)
        requires
            rem == 2 * t + p - n * (2 * p),
            (2 * n - 1) * p <= 2 * t < (2 * n + 1) * p,
    ;
    vstd::arithmetic::div_mod::lemma_fundamental_div_mod_converse(
        (2 * t + p) as int,
        2 * p as int,
        n as int,
        rem,
    );
}

/// Three roundings, each off by at most one part in `2^24`, leave ten times a weight of up to
/// 100 kg within half a unit.
proof fn lemma_three_roundings(v: nat, p: nat, grams: nat, s: nat, g: nat, t: nat)
    requires
        p > 0,
        v > 0,
        s > 0,
        0 < grams <= 100_000,
        0x100_0000 * (s * grams - v) <= v,
        0x100_0000 * (v - s * grams) <= v,
        0x100_0000 * (g * s - v * p) <= v * p,
        0x100_0000 * (v * p - g * s) <= v * p,
        0x100_0000 * (t - 10 * g) <= 10 * g,
        0x100_0000 * (10 * g - t) <= 10 * g,
    ensures
        (2 * (10 * grams) - 1) * p <= 2 * t < (2 * (10 * grams) + 1) * p,
{
    let w = grams * p;
    let (x, u, y, z) = (s * grams, v * p, s * w, g * s);
    assert(y == x * p) by (nonlinear_arith)
        requires
            y == s * w,
            w == grams * p,
            x == s * grams,
    ;
    assert(0xff_ffff * u <= 0x100_0000 * y) by (nonlinear_arith)
        requires
            0xff_ffff * v <= 0x100_0000 * x,
            u == v * p,
            y == x * p,
    ;
    assert(0x100_0000 * y <= 0x100_0001 * u) by (nonlinear_arith)
        requires
            0x100_0000 * x <= 0x100_0001 * v,
            u == v * p,
            y == x * p,
    ;
    // g is within two roundings of grams * p.
    assert(0xff_ffff * z <= 0x100_0001 * y && 0xff_ffff * y <= 0x100_0001 * z);
    assert(0xff_ffff * g <= 0x100_0001 * w && 0xff_ffff * w <= 0x100_0001 * g) by (nonlinear_arith)
        requires
            0xff_ffff * z <= 0x100_0001 * y,
            0xff_ffff * y <= 0x100_0001 * z,
            z == g * s,
            y == s * w,
            s > 0,
    ;
    // The rest is linear in t, g, w and p.
    assert(w <= 100_000 * p) by (nonlinear_arith)
        requires
            w == grams * p,
            grams <= 100_000,
    ;
    assert((2 * (10 * grams) - 1) * p == 20 * w - p && (2 * (10 * grams) + 1) * p == 20 * w + p)
        by (nonlinear_arith)
        requires
            w == grams * p,
    ;
}

/// A scale calibrated with a whole number of grams, up to 100 kg, reads back exactly that
/// weight; the calibration is valid just where the reference pushed the reading up.
pub proof fn law_calibrated_scale_reads_its_reference(offset: i32, raw_with_reference: i32, grams: int)
    requires
        i32::MIN <= raw_with_reference - offset <= i32::MAX,
        raw_with_reference != offset,
        0 < grams <= 100_000,
    ensures
        ({
            let calibration = ScaleCalibration::calibrated(offset, raw_with_reference, of_int(grams));
            &&& calibration.decigrams(raw_with_reference as int) == 10 * grams
            &&& calibration.valid() <==> raw_with_reference > offset
        }),
{
    let d = raw_with_reference - offset;
    let reference = of_int(grams);
    let calibration = ScaleCalibration::calibrated(offset, raw_with_reference, reference);
    let p = pow2(149);
    lemma2_to64();
    lemma_of_int(d);
    lemma_of_int(grams);
    lemma_of_int_exact(grams);
    lemma_of_int(10);
    lemma_of_int_exact(10);
    lemma_pow2_pos(149);
    lemma_pow2_strictly_increases(126, 149);
    let v = units(of_int(d).magnitude());
    let r = units(reference.magnitude());
    assert(r >= p) by (nonlinear_arith)
        requires
            r == grams * p,
            grams >= 1,
    ;
    assert(above_epsilon(reference));
    // The factor.
    lemma_pow2_adds(23, 126);
    lemma2_to64_rest();
    lemma_pow2_strictly_increases(64, 149);
    lemma_pow2_adds(180, 96);
    lemma_pow2_pos(96);
    assert(0x80_0000 * r <= v * p) by (nonlinear_arith)
        requires
            r == grams * p,
            grams <= 100_000,
            v >= p,
            p >= 0x80_0000 * 100_000,
    ;
    assert(v * p <= pow2(276) * r) by (nonlinear_arith)
        requires
            r >= p,
            v <= pow2(180),
            pow2(276) == pow2(180) * pow2(96),
            pow2(96) > 0,
            p > 0,
    {
        assert(pow2(180) <= pow2(276));
    }
    lemma_nearest_error(v * p, r);
    let ms = nearest(v * p, r);
    let s = units(ms);
    lemma_signed(d < 0, ms);
    assert(calibration.scale == signed(d < 0, ms));
    assert(0x100_0000 * (s * grams - v) <= v && 0x100_0000 * (v - s * grams) <= v) by (nonlinear_arith)
        requires
            0x100_0000 * (s * r - v * p) <= v * p,
            0x100_0000 * (v * p - s * r) <= v * p,
            r == grams * p,
            p > 0,
    ;
    assert(s * 200_000 >= v) by (nonlinear_arith)
        requires
            0x100_0000 * (v - s * grams) <= v,
            grams <= 100_000,
            s >= 0,
    ;
    assert(s <= 2 * v) by (nonlinear_arith)
        requires
            0x100_0000 * (s * grams - v) <= v,
            grams >= 1,
            s >= 0,
            v >= 0,
    ;
    lemma_pow2_adds(126, 23);
    assert(s > pow2(126)) by {
        let q = pow2(126);
        assert(p == q * 0x80_0000);
    }
    // The weight in grams.
    assert(0x80_0000 * s <= v * p) by (nonlinear_arith)
        requires
            s <= 2 * v,
            p >= 0x100_0000,
            v >= 0,
    ;
    lemma_pow2_adds(149, 127);
    lemma_pow2_strictly_increases(64, 127);
    assert(v * p <= pow2(276) * s) by (nonlinear_arith)
        requires
            v <= s * 200_000,
            pow2(276) == p * pow2(127),
            pow2(127) >= 200_000,
            s >= 0,
            p >= 0,
    {
        assert(v * p <= (s * 200_000) * p);
        assert((s * 200_000) * p <= (p * pow2(127)) * s);
    }
    lemma_nearest_error(v * p, s);
    let mg = nearest(v * p, s);
    let g = units(mg);
    let weight = quotient(of_int(d), calibration.scale);
    lemma_signed(false, mg);
    assert(ms > 0);
    assert(weight == signed(false, mg));
    // Ten times that.
    let ten = units(of_int(10).magnitude());
    let num = g * ten;
    assert(num == (10 * g) * p) by (nonlinear_arith)
        requires
            num == g * ten,
            ten == 10 * p,
    ;
    lemma_weight_bounds(v, p, grams as nat, s, g);
    assert(0x80_0000 * p <= num) by (nonlinear_arith)
        requires
            num == (10 * g) * p,
            10 * g >= 0x80_0000,
    ;
    assert(num <= pow2(276) * p) by (nonlinear_arith)
        requires
            num == (10 * g) * p,
            10 * g <= pow2(276),
    ;
    lemma_nearest_error(num, p);
    let mt = nearest(num, p);
    let t = units(mt);
    lemma_signed(false, mt);
    assert(product(weight, of_int(10)) == signed(false, mt));
    assert(0x100_0000 * (t - 10 * g) <= 10 * g && 0x100_0000 * (10 * g - t) <= 10 * g) by (nonlinear_arith)
        requires
            0x100_0000 * (t * p - num) <= num,
            0x100_0000 * (num - t * p) <= num,
            num == (10 * g) * p,
            p > 0,
    ;
    lemma_three_roundings(v, p, grams as nat, s, g, t);
    lemma_rounds_to_tenths(t, p, (10 * grams) as nat);
}

/// The weight in grams stays far from both ends of the representable range.
proof fn lemma_weight_bounds(v: nat, p: nat, grams: nat, s: nat, g: nat)
    requires
        p == pow2(149),
        v > 0,
        s > 0,
        0 < grams <= 100_000,
        v <= s * 200_000,
        s <= 2 * v,
        0x100_0000 * (g * s - v * p) <= v * p,
        0x100_0000 * (v * p - g * s) <= v * p,
    ensures
        10 * g >= 0x80_0000,
        10 * g <= pow2(276),
{
    lemma2_to64();
    lemma2_to64_rest();
    lemma_pow2_strictly_increases(64, 149);
    lemma_pow2_adds(149, 127);
    lemma_pow2_strictly_increases(64, 127);
    let u = v * p;
    assert(2 * (g * s) <= v * (4 * g)) by (nonlinear_arith)
        requires
            s <= 2 * v,
            g >= 0,
    ;
    assert(p <= 4 * g) by (nonlinear_arith)
        requires
            v * p <= v * (4 * g),
            v > 0,
    ;
    assert(2 * (v * p) <= (400_000 * p) * s) by (nonlinear_arith)
        requires
            v <= s * 200_000,
            p >= 0,
    ;
    assert(g <= 400_000 * p) by (nonlinear_arith)
        requires
            g * s <= (400_000 * p) * s,
            s > 0,
    ;
    assert(4_000_000 * p <= pow2(276)) by (nonlinear_arith)
        requires
            pow2(276) == p * pow2(127),
            pow2(127) >= 4_000_000,
    ;
}

/// The first sample, of up to 24 bits, passes through the smoother unchanged.
pub proof fn law_first_sample_passes_through(raw: int, alpha: Binary32)
    requires
        -0x100_0000 <= raw <= 0x100_0000,
    ensures
        whole(blended(None, raw, alpha)) == raw,
{
    lemma_whole_of_int(raw);
}

/// Once the running average has reached a steady input it stays there.
pub proof fn law_steady_input_holds_the_average(raw: int, alpha: Binary32)
    requires
        i32::MIN <= raw <= i32::MAX,
        alpha.finite(),
    ensures
        blended(Some(of_int(raw)), raw, alpha) == of_int(raw),
{
    let prev = of_int(raw);
    lemma_of_int(raw);
    let gap = difference(prev, prev);
    assert(prev.value() + negated(prev).value() == 0);
    lemma_signed(false, 0);
    assert(gap == signed(false, 0));
    let u = units(alpha.magnitude());
    assert(u * units(0) == 0) by (nonlinear_arith)
        requires
            units(0) == 0,
    ;
    lemma_pow2_pos(149);
    lemma_nearest_zero(pow2(149));
    lemma_signed(alpha.negative(), 0);
    let change = product(alpha, gap);
    assert(change == signed(alpha.negative(), 0));
    assert(change.value() == 0);
    let m = prev.magnitude();
    if m > 0 {
        lemma_units_increase(0, m);
        lemma_nearest_of_units(m, 1);
        assert(units(m) * 1 == units(m)) by (nonlinear_arith);
    }
    assert(signed(prev.negative(), m) == prev);
}

} // verus!
