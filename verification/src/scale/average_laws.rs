//! How far a sample moves the running average of raw counts.

use vstd::arithmetic::power2::*;
use vstd::math::abs;
use vstd::prelude::*;

use crate::binary32::laws::{lemma_nearest_any_error, lemma_of_int, lemma_of_int_exact};
use crate::binary32::model::{lemma_signed, nearest, units, Binary32};
use crate::binary32::ops::{difference, negated, of_int, product, sum};
use crate::binary32::order::{lemma_value_ordered, rank};
use crate::binary32::rounding_laws::law_whole_number_becomes_the_nearest;
use crate::scale::smoother::blended;

verus! {

/// A sum is off by no more than one part in `2^24`, or half a unit.
proof fn lemma_sum_error(a: Binary32, b: Binary32)
    requires
        a.finite(),
        b.finite(),
        abs(a.value() + b.value()) <= pow2(276),
    ensures
        sum(a, b).finite(),
        0x200_0000 * abs(sum(a, b).value() - (a.value() + b.value())) <= 2 * abs(a.value() + b.value())
            + 0x100_0000,
{
    let exact = a.value() + b.value();
    lemma_nearest_any_error(abs(exact), 1);
    lemma_signed(exact < 0, nearest(abs(exact), 1));
    lemma_signed(a.negative() && b.negative(), 0);
}

/// A product is off by no more than one part in `2^24`, or half a unit.
proof fn lemma_product_error(a: Binary32, b: Binary32)
    requires
        a.finite(),
        b.finite(),
        abs(a.value()) * abs(b.value()) <= pow2(276) * pow2(149),
    ensures
        product(a, b).finite(),
        0x200_0000 * abs(product(a, b).value() * pow2(149) - a.value() * b.value()) <= 2 * (abs(
            a.value(),
        ) * abs(b.value())) + 0x100_0000 * pow2(149),
{
    let (p, u, v) = (pow2(149), units(a.magnitude()), units(b.magnitude()));
    lemma_pow2_pos(149);
    lemma_nearest_any_error(u * v, p);
    let t = nearest(u * v, p);
    let negative = a.negative() != b.negative();
    lemma_signed(negative, t);
    let w = units(t);
    assert((-(w as int)) * p == -(w * p)) by (nonlinear_arith);
    assert((-(u as int)) * v == -(u * v) && u * (-(v as int)) == -(u * v) && (-(u as int)) * (-(v as int))
        == u * v) by (nonlinear_arith);
}

/// The errors of the three operations, put together.
proof fn lemma_errors_add_up(p: int, alpha: int, r: int, d: int, dist: int, x: int, n: int)
    requires
        p > 0,
        0 <= alpha <= p,
        0x200_0000 * abs(dist - d) <= 2 * abs(d) + 0x100_0000,
        0x200_0000 * abs(x * p - alpha * dist) <= 2 * (alpha * abs(dist)) + 0x100_0000 * p,
        0x200_0000 * abs(n - (r + x)) <= 2 * abs(r + x) + 0x100_0000,
    ensures
        0x100_0000 * abs(n * p - (r * p + alpha * d)) <= (abs(r) + 4 * abs(d) + 0x200_0000) * p,
{
    let k: int = 0x100_0000;
    let (np, rp, xp) = (n * p, r * p, x * p);
    let (ad, az) = (alpha * d, alpha * dist);
    let (ar, bd, bz, bx) = (abs(r) * p, abs(d) * p, abs(dist) * p, abs(x) * p);
    // Each error, times `p`.
    assert(2 * k * abs(np - rp - xp) <= 2 * ar + 2 * bx + k * p) by (nonlinear_arith)
        requires
            np == n * p,
            rp == r * p,
            xp == x * p,
            ar == abs(r) * p,
            bx == abs(x) * p,
            2 * k * abs(n - (r + x)) <= 2 * abs(r + x) + k,
            abs(r + x) <= abs(r) + abs(x),
            k == 0x100_0000,
            p > 0,
    ;
    assert(alpha * abs(dist) <= bz) by (nonlinear_arith)
        requires
            bz == abs(dist) * p,
            0 <= alpha <= p,
    ;
    assert(2 * k * abs(xp - az) <= 2 * bz + k * p);
    assert(2 * k * abs(az - ad) <= 2 * bd + k * p) by (nonlinear_arith)
        requires
            az == alpha * dist,
            ad == alpha * d,
            bd == abs(d) * p,
            2 * k * abs(dist - d) <= 2 * abs(d) + k,
            k == 0x100_0000,
            0 <= alpha <= p,
    ;
    // What the distance and its part can amount to.
    assert(k * bz <= (k + 1) * bd + k * p) by (nonlinear_arith)
        requires
            bz == abs(dist) * p,
            bd == abs(d) * p,
            2 * k * abs(dist - d) <= 2 * abs(d) + k,
            k == 0x100_0000,
            p > 0,
    ;
    assert(abs(az) <= bz) by (nonlinear_arith)
        requires
            az == alpha * dist,
            bz == abs(dist) * p,
            0 <= alpha <= p,
    ;
    assert(bx == abs(xp)) by (nonlinear_arith)
        requires
            bx == abs(x) * p,
            xp == x * p,
            p > 0,
    ;
    assert(k * bx <= (k + 1) * bz + k * p);
    assert(bd >= 0 && p >= 1 && bz >= 0) by (nonlinear_arith)
        requires
            bd == abs(d) * p,
            bz == abs(dist) * p,
            p > 0,
    ;
    assert(2 * k * abs(np - (rp + ad)) <= 2 * ar + 7 * bd + 3 * k * p + 16 * p);
    assert((abs(r) + 4 * abs(d) + 0x200_0000) * p == ar + 4 * bd + 0x200_0000 * p) by (nonlinear_arith)
        requires
            ar == abs(r) * p,
            bd == abs(d) * p,
    ;
}

/// A sample moves the running average by its weight's part of the distance between them: the new
/// average is the old one and `alpha` times the distance, but for one part in four million of
/// what goes in and two units of `2^-149`.
pub proof fn law_average_moves_by_its_weight(running: Binary32, raw: i32, alpha: Binary32)
    requires
        running.finite(),
        abs(running.value()) <= pow2(200),
        alpha.finite(),
        0 < rank(alpha) <= rank(of_int(1)),
    ensures
        ({
            let next = blended(Some(running), raw as int, alpha);
            let (p, r) = (pow2(149), running.value());
            let distance = of_int(raw as int).value() - r;
            &&& next.finite()
            &&& 0x100_0000 * abs(next.value() * p - (r * p + alpha.value() * distance)) <= (abs(r) + 4
                * abs(distance) + 0x200_0000) * p
        }),
{
    let p = pow2(149);
    let sample = of_int(raw as int);
    let minus = negated(running);
    let (r, a) = (running.value(), alpha.value());
    let d = sample.value() - r;
    lemma_of_int(raw as int);
    lemma_of_int(1);
    lemma_of_int_exact(1);
    lemma_value_ordered(alpha, of_int(1));
    lemma_pow2_pos(149);
    assert(1 * p == p) by (nonlinear_arith);
    assert(0 <= a <= p);
    lemma_pow2_strictly_increases(180, 200);
    lemma_pow2_unfold(201);
    lemma_pow2_unfold(202);
    lemma_pow2_strictly_increases(202, 276);
    lemma_pow2_strictly_increases(149, 200);
    lemma2_to64();
    lemma_pow2_strictly_increases(24, 149);
    assert(minus.magnitude() == running.magnitude() && minus.negative() != running.negative());
    assert(minus.value() == -r);
    assert(abs(d) <= pow2(201));
    lemma_sum_error(sample, minus);
    let distance = difference(sample, running);
    let z = distance.value();
    assert(abs(z) <= pow2(202));
    let az = abs(a) * abs(z);
    assert(az <= pow2(202) * p) by (nonlinear_arith)
        requires
            az == abs(a) * abs(z),
            0 <= a <= p,
            abs(z) <= pow2(202),
    ;
    assert(pow2(202) * p <= pow2(276) * p) by (nonlinear_arith)
        requires
            pow2(202) <= pow2(276),
            p >= 0,
    ;
    lemma_product_error(alpha, distance);
    let part = product(alpha, distance);
    let x = part.value();
    lemma_pow2_unfold(203);
    lemma_pow2_unfold(204);
    lemma_pow2_strictly_increases(204, 276);
    assert(abs(a * z) == az) by (nonlinear_arith)
        requires
            az == abs(a) * abs(z),
    ;
    assert(abs(x) <= pow2(203)) by (nonlinear_arith)
        requires
            0x200_0000 * abs(x * p - a * z) <= 2 * az + 0x100_0000 * p,
            abs(a * z) == az,
            az <= pow2(202) * p,
            pow2(203) == 2 * pow2(202),
            pow2(202) >= 1,
            p > 0,
    ;
    lemma_sum_error(running, part);
    let next = sum(running, part);
    assert(a * abs(z) == az);
    lemma_errors_add_up(p as int, a, r, d, z, x, next.value());
}

/// The first sample is the average, whatever its weight.
pub proof fn law_first_sample_is_the_average(raw: i32, alpha: Binary32, other: nat)
    requires
        other <= 0x7f80_0000,
    ensures
        ({
            let (exact, got) = (abs(raw as int) * pow2(149), blended(None, raw as int, alpha));
            &&& got.finite()
            &&& got.negative() <==> raw < 0
            &&& abs(units(got.magnitude()) - exact) <= abs(units(other) - exact)
        }),
{
    law_whole_number_becomes_the_nearest(raw as int, other);
}

} // verus!
