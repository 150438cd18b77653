//! The order of numbers, and the operations that keep it.

use vstd::arithmetic::power2::*;
use vstd::math::abs;
use vstd::prelude::*;

use crate::binary32::laws::{
    lemma_nearest_half_step, lemma_nearest_is_monotone, lemma_nearest_of_units, lemma_nearest_zero,
    lemma_of_int, lemma_of_int_exact,
};
use crate::binary32::model::{
    lemma_nearest_rounds, lemma_signed, lemma_units_increase, nearest, units, Binary32,
};
use crate::binary32::ops::{
    difference, negated, of_int, product, quotient, round_half_up, sum, whole,
};

verus! {

/// A number's place in the order of numbers.
pub open spec fn rank(a: Binary32) -> int {
    if a.negative() {
        -(a.magnitude() as int)
    } else {
        a.magnitude() as int
    }
}

proof fn lemma_units_ordered(a: nat, b: nat)
    requires
        a <= b,
    ensures
        units(a) <= units(b),
{
    if a < b {
        lemma_units_increase(a, b);
    }
}

proof fn lemma_nearest_ordered(num1: nat, num2: nat, den: nat)
    requires
        num1 <= num2,
        den > 0,
    ensures
        nearest(num1, den) <= nearest(num2, den) <= 0x7f80_0000,
{
    assert(num1 * den <= num2 * den) by (nonlinear_arith)
        requires
            num1 <= num2,
    ;
    lemma_nearest_is_monotone(num1, den, num2, den);
    lemma_nearest_rounds(num2, den);
}

/// Conversion keeps order.
pub proof fn lemma_of_int_ordered(a: int, b: int)
    requires
        i32::MIN <= a <= b <= i32::MAX,
    ensures
        rank(of_int(a)) <= rank(of_int(b)),
{
    lemma_of_int(a);
    lemma_of_int(b);
    let p = pow2(149);
    if a >= 0 {
        assert(abs(a) * p <= abs(b) * p) by (nonlinear_arith)
            requires
                abs(a) <= abs(b),
        ;
        lemma_nearest_ordered(abs(a) * p, abs(b) * p, 1);
    } else if b < 0 {
        assert(abs(b) * p <= abs(a) * p) by (nonlinear_arith)
            requires
                abs(b) <= abs(a),
        ;
        lemma_nearest_ordered(abs(b) * p, abs(a) * p, 1);
    }
}

proof fn lemma_scaled_ordered(a: nat, b: nat, mul: nat, den: nat)
    requires
        a <= b,
        den > 0,
    ensures
        nearest(units(a) * mul, den) <= nearest(units(b) * mul, den) <= 0x7f80_0000,
{
    lemma_units_ordered(a, b);
    let (x, y) = (units(a), units(b));
    assert(x * mul <= y * mul) by (nonlinear_arith)
        requires
            x <= y,
    ;
    lemma_nearest_ordered(x * mul, y * mul, den);
}

/// Division by a positive number keeps order.
pub proof fn lemma_quotient_ordered(a: Binary32, b: Binary32, by: Binary32)
    requires
        a.finite(),
        b.finite(),
        by.finite(),
        !by.negative(),
        by.magnitude() > 0,
        rank(a) <= rank(b),
    ensures
        rank(quotient(a, by)) <= rank(quotient(b, by)),
        !quotient(a, by).nan(),
        !quotient(b, by).nan(),
{
    lemma_units_increase(0, by.magnitude());
    let (p, d) = (pow2(149), units(by.magnitude()));
    let (qa, qb) = (nearest(units(a.magnitude()) * p, d), nearest(units(b.magnitude()) * p, d));
    lemma_scaled_ordered(a.magnitude(), a.magnitude(), p, d);
    lemma_scaled_ordered(b.magnitude(), b.magnitude(), p, d);
    lemma_signed(a.negative(), qa);
    lemma_signed(b.negative(), qb);
    if !a.negative() && !b.negative() {
        lemma_scaled_ordered(a.magnitude(), b.magnitude(), p, d);
    } else if a.negative() && b.negative() {
        lemma_scaled_ordered(b.magnitude(), a.magnitude(), p, d);
    } else if !a.negative() {
        // Both are zero.
        assert(a.magnitude() == 0 && b.magnitude() == 0);
        lemma_nearest_zero(d);
        assert(0 * p == 0) by (nonlinear_arith);
    }
}

/// Multiplication by a positive number keeps order.
pub proof fn lemma_product_ordered(a: Binary32, b: Binary32, by: Binary32)
    requires
        !a.nan(),
        !b.nan(),
        by.finite(),
        !by.negative(),
        by.magnitude() > 0,
        rank(a) <= rank(b),
    ensures
        rank(product(a, by)) <= rank(product(b, by)),
        !product(a, by).nan(),
        !product(b, by).nan(),
{
    let (u, p) = (units(by.magnitude()), pow2(149));
    lemma_pow2_pos(149);
    let (qa, qb) = (nearest(units(a.magnitude()) * u, p), nearest(units(b.magnitude()) * u, p));
    lemma_scaled_ordered(a.magnitude(), a.magnitude(), u, p);
    lemma_scaled_ordered(b.magnitude(), b.magnitude(), u, p);
    lemma_signed(a.negative(), qa);
    lemma_signed(b.negative(), qb);
    lemma_signed(a.negative(), 0x7f80_0000);
    lemma_signed(b.negative(), 0x7f80_0000);
    if !a.negative() && !b.negative() {
        lemma_scaled_ordered(a.magnitude(), b.magnitude(), u, p);
    } else if a.negative() && b.negative() {
        lemma_scaled_ordered(b.magnitude(), a.magnitude(), u, p);
    } else if !a.negative() {
        assert(a.magnitude() == 0 && b.magnitude() == 0);
        lemma_nearest_zero(p);
        assert(0 * u == 0) by (nonlinear_arith);
    }
}

proof fn lemma_round_half_up_ordered(a: nat, b: nat, den: nat)
    requires
        a <= b,
        den > 0,
    ensures
        round_half_up(a, den) <= round_half_up(b, den),
{
    vstd::arithmetic::div_mod::lemma_div_is_ordered(2 * a + den as int, 2 * b + den as int, 2 * den as int);
}

/// Rounding to a whole number keeps order.
pub proof fn lemma_whole_ordered(a: Binary32, b: Binary32)
    requires
        !a.nan(),
        !b.nan(),
        rank(a) <= rank(b),
    ensures
        whole(a) <= whole(b),
{
    let (ma, mb, p) = (a.magnitude(), b.magnitude(), pow2(149));
    lemma_pow2_pos(149);
    if !a.negative() && !b.negative() {
        lemma_units_ordered(ma, mb);
        lemma_round_half_up_ordered(units(ma), units(mb), p);
    } else if a.negative() && b.negative() {
        lemma_units_ordered(mb, ma);
        lemma_round_half_up_ordered(units(mb), units(ma), p);
    } else if !a.negative() {
        assert(ma == 0 && mb == 0);
        assert(p / (2 * p) == 0) by (nonlinear_arith)
            requires
                p > 0,
        ;
    }
}

/// The place in the order of the number nearest to `exact` units.
pub open spec fn rounded(exact: int) -> int {
    if exact < 0 {
        -(nearest((-exact) as nat, 1) as int)
    } else {
        nearest(exact as nat, 1) as int
    }
}

/// Rounding keeps order.
pub proof fn lemma_rounded_ordered(a: int, b: int)
    requires
        a <= b,
    ensures
        -0x7f80_0000 <= rounded(a) <= rounded(b) <= 0x7f80_0000,
{
    let (x, y) = (abs(a), abs(b));
    if x <= y {
        lemma_nearest_ordered(x, y, 1);
    } else {
        lemma_nearest_ordered(y, x, 1);
    }
}

/// Numbers in order have values in order.
pub proof fn lemma_value_ordered(a: Binary32, b: Binary32)
    requires
        rank(a) <= rank(b),
    ensures
        a.value() <= b.value(),
{
    let (ma, mb) = (a.magnitude(), b.magnitude());
    if !a.negative() && !b.negative() {
        lemma_units_ordered(ma, mb);
    } else if a.negative() && b.negative() {
        lemma_units_ordered(mb, ma);
    }
}

/// The sum of finite numbers is the exact sum, rounded.
pub proof fn lemma_sum_rank(a: Binary32, b: Binary32)
    requires
        a.finite(),
        b.finite(),
    ensures
        !sum(a, b).nan(),
        rank(sum(a, b)) == rounded(a.value() + b.value()),
{
    let exact = a.value() + b.value();
    lemma_nearest_rounds(abs(exact), 1);
    lemma_signed(exact < 0, nearest(abs(exact), 1));
    lemma_signed(a.negative() && b.negative(), 0);
    lemma_nearest_zero(1);
}

/// Up to `2^24` steps of `2^e`, a sum is off by half a step at most.
pub proof fn lemma_sum_half_step(a: Binary32, b: Binary32, e: nat)
    requires
        a.finite(),
        b.finite(),
        e <= 252,
        abs(a.value() + b.value()) <= 0x100_0000 * pow2(e),
    ensures
        sum(a, b).finite(),
        2 * abs(sum(a, b).value() - (a.value() + b.value())) <= pow2(e),
{
    let exact = a.value() + b.value();
    lemma_nearest_half_step(abs(exact), e);
    lemma_signed(exact < 0, nearest(abs(exact), 1));
    lemma_signed(a.negative() && b.negative(), 0);
    lemma_pow2_pos(e);
}

/// Addition keeps order.
pub proof fn lemma_sum_ordered(a: Binary32, b: Binary32, c: Binary32)
    requires
        a.finite(),
        !b.nan(),
        !c.nan(),
        rank(b) <= rank(c),
    ensures
        !sum(a, b).nan(),
        !sum(a, c).nan(),
        rank(sum(a, b)) <= rank(sum(a, c)),
{
    lemma_signed(b.negative(), 0x7f80_0000);
    lemma_signed(c.negative(), 0x7f80_0000);
    if b.finite() {
        lemma_sum_rank(a, b);
        lemma_rounded_ordered(a.value() + b.value(), a.value() + b.value());
    }
    if c.finite() {
        lemma_sum_rank(a, c);
        lemma_rounded_ordered(a.value() + c.value(), a.value() + c.value());
    }
    if b.finite() && c.finite() {
        lemma_value_ordered(b, c);
        lemma_rounded_ordered(a.value() + b.value(), a.value() + c.value());
    }
}

/// Adding zero changes nothing.
pub proof fn lemma_sum_with_zero(a: Binary32, zero: Binary32)
    requires
        a.finite(),
        zero.magnitude() == 0,
    ensures
        !sum(a, zero).nan(),
        rank(sum(a, zero)) == rank(a),
{
    lemma_sum_rank(a, zero);
    lemma_nearest_of_units(a.magnitude(), 1);
    assert(units(a.magnitude()) * 1 == units(a.magnitude()));
    if a.magnitude() > 0 {
        lemma_units_increase(0, a.magnitude());
    }
}

/// A difference is on the side of the larger number.
pub proof fn lemma_difference_side(a: Binary32, b: Binary32)
    requires
        a.finite(),
        b.finite(),
    ensures
        !difference(a, b).nan(),
        rank(b) <= rank(a) ==> rank(difference(a, b)) >= 0,
        rank(a) <= rank(b) ==> rank(difference(a, b)) <= 0,
{
    let minus = negated(b);
    assert(minus.magnitude() == b.magnitude() && minus.negative() != b.negative());
    lemma_sum_rank(a, minus);
    lemma_nearest_zero(1);
    if rank(b) <= rank(a) {
        lemma_value_ordered(b, a);
        lemma_rounded_ordered(0, a.value() - b.value());
    }
    if rank(a) <= rank(b) {
        lemma_value_ordered(a, b);
        lemma_rounded_ordered(a.value() - b.value(), 0);
    }
}

/// Of two positive weights the larger gives the larger part of a number, on its own side.
pub proof fn lemma_parts_ordered(small: Binary32, large: Binary32, d: Binary32)
    requires
        small.finite(),
        large.finite(),
        0 < rank(small) <= rank(large),
        !d.nan(),
    ensures
        !product(small, d).nan(),
        !product(large, d).nan(),
        rank(d) >= 0 ==> 0 <= rank(product(small, d)) <= rank(product(large, d)),
        rank(d) <= 0 ==> rank(product(large, d)) <= rank(product(small, d)) <= 0,
{
    let (p, u) = (pow2(149), units(d.magnitude()));
    lemma_pow2_pos(149);
    lemma_signed(d.negative(), 0x7f80_0000);
    if d.finite() {
        let (a, b) = (units(small.magnitude()), units(large.magnitude()));
        lemma_units_ordered(small.magnitude(), large.magnitude());
        lemma_scaled_ordered(small.magnitude(), large.magnitude(), u, p);
        lemma_signed(d.negative(), nearest(a * u, p));
        lemma_signed(d.negative(), nearest(b * u, p));
        if d.magnitude() == 0 {
            assert(a * 0 == 0 && b * 0 == 0) by (nonlinear_arith);
            lemma_nearest_zero(p);
        }
    }
}

/// The whole of a number is that number.
pub proof fn lemma_product_with_one(d: Binary32)
    requires
        !d.nan(),
    ensures
        rank(product(of_int(1), d)) == rank(d),
{
    let (p, u) = (pow2(149), units(d.magnitude()));
    lemma_of_int(1);
    lemma_of_int_exact(1);
    lemma_pow2_pos(149);
    lemma_signed(d.negative(), 0x7f80_0000);
    if d.finite() {
        assert(1 * p == p) by (nonlinear_arith);
        assert(p * u == u * p) by (nonlinear_arith);
        lemma_nearest_of_units(d.magnitude(), p);
        lemma_signed(d.negative(), d.magnitude());
    }
}

} // verus!
