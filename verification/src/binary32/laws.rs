//! Properties of rounding and of the operations that callers rely on.

use vstd::arithmetic::power2::*;
use vstd::math::abs;
use vstd::prelude::*;

use crate::binary32::model::{
    grid_of, lemma_grid_of, lemma_nearest, lemma_nearest_rounds, lemma_rounding_is_monotone,
    lemma_signed, lemma_units_grid, lemma_units_increase, nearest, units,
};
use crate::binary32::ops::{of_int, whole};

verus! {

/// What is representable rounds to itself.
pub proof fn lemma_nearest_of_units(m: nat, den: nat)
    requires
        den > 0,
        m <= 0x7f80_0000,
    ensures
        nearest(units(m) * den, den) == m,
{
    let num = units(m) * den;
    if m > 0 {
        lemma_units_increase((m - 1) as nat, m);
        assert((units((m - 1) as nat) + units(m)) * den < 2 * num) by (nonlinear_arith)
            requires
                num == units(m) * den,
                units((m - 1) as nat) < units(m),
                den > 0,
        ;
    }
    lemma_units_increase(m, m + 1);
    assert(2 * num < (units(m) + units(m + 1)) * den) by (nonlinear_arith)
        requires
            num == units(m) * den,
            units(m) < units(m + 1),
            den > 0,
    ;
    lemma_nearest(num, den, m);
}

/// Rounding keeps order.
pub proof fn lemma_nearest_is_monotone(num1: nat, den1: nat, num2: nat, den2: nat)
    requires
        den1 > 0,
        den2 > 0,
        num1 * den2 <= num2 * den1,
    ensures
        nearest(num1, den1) <= nearest(num2, den2),
{
    lemma_nearest_rounds(num1, den1);
    lemma_nearest_rounds(num2, den2);
    lemma_rounding_is_monotone(
        num1,
        den1,
        nearest(num1, den1),
        num2,
        den2,
        nearest(num2, den2),
    );
}

/// Zero rounds to zero.
pub proof fn lemma_nearest_zero(den: nat)
    requires
        den > 0,
    ensures
        nearest(0, den) == 0,
{
    lemma_nearest_of_units(0, den);
    assert(units(0) * den == 0) by (nonlinear_arith)
        requires
            units(0) == 0,
    ;
}

/// Every 24-bit significand is representable at every exponent in range.
pub proof fn lemma_representable(k: nat, e: nat) -> (m: nat)
    requires
        k < 0x100_0000,
        e <= 253,
    ensures
        m < 0x7f80_0000,
        units(m) == k * pow2(e),
    decreases e,
{
    lemma2_to64();
    if k == 0 {
        lemma_units_grid(0, 0);
        assert(0 * pow2(e) == 0) by (nonlinear_arith);
        0
    } else if k >= 0x80_0000 || e == 0 {
        lemma_units_grid(e, k);
        e * 0x80_0000 + k
    } else {
        let m = lemma_representable(2 * k, (e - 1) as nat);
        lemma_pow2_unfold(e);
        let p = pow2((e - 1) as nat);
        assert((2 * k) * p == k * (2 * p)) by (nonlinear_arith);
        m
    }
}

/// The nearest magnitude to a normal ratio is off by no more than one part in `2^24`.
pub proof fn lemma_nearest_error(num: nat, den: nat)
    requires
        den > 0,
        0x80_0000 * den <= num,
        num <= pow2(276) * den,
    ensures
        ({
            let got = units(nearest(num, den)) * den;
            &&& nearest(num, den) < 0x7f80_0000
            &&& 0x100_0000 * (got - num) <= num
            &&& 0x100_0000 * (num - got) <= num
        }),
{
    let m = nearest(num, den);
    lemma_nearest_rounds(num, den);
    lemma2_to64();
    // The ratio is at most 2^276, which is magnitude 254 * 2^23.
    let cap: nat = 254 * 0x80_0000;
    lemma_units_grid(253, 0x80_0000);
    lemma_pow2_adds(23, 253);
    assert(units(cap) == pow2(276));
    lemma_nearest_of_units(cap, den);
    assert(num * den <= (units(cap) * den) * den) by (nonlinear_arith)
        requires
            num <= units(cap) * den,
    ;
    lemma_nearest_is_monotone(num, den, units(cap) * den, den);
    lemma_grid_of(m);
    let (q, k) = grid_of(m);
    let p = pow2(q);
    lemma_pow2_pos(q);
    let got = units(m) * den;
    assert((units(m) + units(m + 1)) * den == 2 * got + p * den) by (nonlinear_arith)
        requires
            got == units(m) * den,
            units(m) == k * p,
            units(m + 1) == (k + 1) * p,
    ;
    assert(2 * num <= 2 * got + p * den);
    if num >= got {
        assert(2 * (num - got) <= p * den);
        if k >= 0x80_0000 {
            assert(0x80_0000 * (p * den) <= num) by (nonlinear_arith)
                requires
                    got <= num,
                    got == (k * p) * den,
                    k >= 0x80_0000,
                    p * den >= 0,
            ;
        } else {
            assert(p * den == den) by (nonlinear_arith)
                requires
                    p == 1,
            ;
        }
    } else {
        assert(m > 0) by (nonlinear_arith)
            requires
                got == units(m) * den,
                got > 0,
                m == 0 ==> units(m) == 0,
        ;
        let below = (m - 1) as nat;
        lemma_grid_of(below);
        let (ql, kl) = grid_of(below);
        let pl = pow2(ql);
        lemma_pow2_pos(ql);
        assert((units(below) + units(m)) * den == 2 * got - pl * den) by (nonlinear_arith)
            requires
                got == units(m) * den,
                units(below) == kl * pl,
                units(m) == (kl + 1) * pl,
        ;
        assert(2 * (got - num) <= pl * den);
        // The step below m starts at 2^23 steps, or m would be below the normal range.
        if kl >= 0x80_0000 {
            assert(0x80_0000 * (pl * den) <= num) by (nonlinear_arith)
                requires
                    2 * got - pl * den <= 2 * num,
                    got == ((kl + 1) * pl) * den,
                    kl >= 0x80_0000,
                    pl * den >= 0,
            ;
        } else {
            assert(pl * den == den) by (nonlinear_arith)
                requires
                    pl == 1,
            ;
        }
    }
}

/// Whole numbers in the range of `i32` convert to finite numbers of the same sign, no smaller
/// than one unless zero.
pub proof fn lemma_of_int(n: int)
    requires
        i32::MIN <= n <= i32::MAX,
    ensures
        of_int(n).finite(),
        of_int(n).negative() <==> n < 0,
        of_int(n).magnitude() == nearest(abs(n) * pow2(149), 1),
        of_int(n).magnitude() == 0 <==> n == 0,
        n != 0 ==> pow2(149) <= units(of_int(n).magnitude()) <= pow2(180),
{
    let p = pow2(149);
    let num = abs(n) * p;
    lemma2_to64();
    lemma_pow2_pos(149);
    lemma_nearest_rounds(num, 1);
    let m = nearest(num, 1);
    // 2^31 is magnitude 158 * 2^23.
    lemma_units_grid(157, 0x80_0000);
    lemma_pow2_adds(23, 157);
    lemma_pow2_adds(31, 149);
    let top: nat = 158 * 0x80_0000;
    assert(units(top) == pow2(180));
    lemma_nearest_of_units(top, 1);
    assert(num <= pow2(180)) by (nonlinear_arith)
        requires
            num == abs(n) * p,
            abs(n) <= 0x8000_0000,
            pow2(180) == 0x8000_0000 * p,
    ;
    lemma_nearest_is_monotone(num, 1, units(top) * 1, 1);
    lemma_signed(n < 0, m);
    if m < top {
        lemma_units_increase(m, top);
    }
    if n == 0 {
        assert(num == 0) by (nonlinear_arith)
            requires
                num == abs(n) * p,
                abs(n) == 0,
        ;
        lemma_nearest_zero(1);
    } else {
        // 1 is magnitude 127 * 2^23.
        lemma_units_grid(126, 0x80_0000);
        lemma_pow2_adds(23, 126);
        let one: nat = 127 * 0x80_0000;
        assert(units(one) == p);
        lemma_nearest_of_units(one, 1);
        assert(p <= num) by (nonlinear_arith)
            requires
                num == abs(n) * p,
                abs(n) >= 1,
        ;
        lemma_nearest_is_monotone(units(one) * 1, 1, num, 1);
        if one < m {
            lemma_units_increase(one, m);
        }
    }
}

/// Whole numbers of up to 24 bits convert exactly.
pub proof fn lemma_of_int_exact(n: int)
    requires
        -0x100_0000 <= n <= 0x100_0000,
    ensures
        units(of_int(n).magnitude()) == abs(n) * pow2(149),
{
    lemma_of_int(n);
    lemma_pow2_unfold(150);
    let p = pow2(149);
    let m = if abs(n) < 0x100_0000 {
        lemma_representable(abs(n), 149)
    } else {
        assert(0x80_0000 * (2 * p) == 0x100_0000 * p) by (nonlinear_arith);
        lemma_representable(0x80_0000, 150)
    };
    lemma_nearest_of_units(m, 1);
    assert(units(m) * 1 == units(m)) by (nonlinear_arith);
}

/// Whole numbers of up to 24 bits survive conversion and rounding.
pub proof fn lemma_whole_of_int(n: int)
    requires
        -0x100_0000 <= n <= 0x100_0000,
    ensures
        whole(of_int(n)) == n,
{
    lemma_of_int(n);
    lemma_of_int_exact(n);
    let p = pow2(149);
    lemma_pow2_pos(149);
    let k = abs(n);
    assert(2 * (k * p) + p == k * (2 * p) + p) by (nonlinear_arith);
    vstd::arithmetic::div_mod::lemma_fundamental_div_mod_converse(
        (2 * (k * p) + p) as int,
        2 * p as int,
        k as int,
        p as int,
    );
}

/// No magnitude is nearer to a ratio than the nearest one; another that is as near is odd beside
/// an even one.
pub proof fn lemma_nearest_is_closest(num: nat, den: nat, other: nat)
    requires
        den > 0,
        other <= 0x7f80_0000,
    ensures
        abs(units(nearest(num, den)) * den - num) <= abs(units(other) * den - num),
        abs(units(nearest(num, den)) * den - num) == abs(units(other) * den - num) ==> other
            == nearest(num, den) || nearest(num, den) % 2 == 0,
{
    let m = nearest(num, den);
    lemma_nearest_rounds(num, den);
    let (x, y) = (units(m) * den, units(other) * den);
    if other < m {
        let w = units((m - 1) as nat);
        lemma_units_increase((m - 1) as nat, m);
        if other < m - 1 {
            lemma_units_increase(other, (m - 1) as nat);
        }
        let (u, v) = (units(m), units(other));
        let z = w * den;
        assert((w + u) * den == z + x && z < x && y <= z && (v < w ==> y < z)) by (nonlinear_arith)
            requires
                w < u,
                v <= w,
                den > 0,
                z == w * den,
                x == u * den,
                y == v * den,
        ;
    } else if m < other {
        let w = units(m + 1);
        lemma_units_increase(m, m + 1);
        if m + 1 < other {
            lemma_units_increase(m + 1, other);
        }
        let (u, v) = (units(m), units(other));
        let z = w * den;
        assert((u + w) * den == z + x && x < z && z <= y && (w < v ==> z < y)) by (nonlinear_arith)
            requires
                u < w,
                w <= v,
                den > 0,
                z == w * den,
                x == u * den,
                y == v * den,
        ;
    }
}

/// Up to `2^24` steps of `2^e`, rounding is off by half a step at most.
pub proof fn lemma_nearest_half_step(num: nat, e: nat)
    requires
        e <= 252,
        num <= 0x100_0000 * pow2(e),
    ensures
        nearest(num, 1) < 0x7f80_0000,
        2 * abs(units(nearest(num, 1)) - num) <= pow2(e),
{
    let step = pow2(e);
    lemma_pow2_pos(e);
    lemma_pow2_unfold(e + 1);
    let top = lemma_representable(0x80_0000, e + 1);
    assert(units(top) == 0x100_0000 * step);
    lemma_nearest_of_units(top, 1);
    assert(units(top) * 1 == units(top) && num * 1 == num);
    lemma_nearest_is_monotone(num, 1, units(top), 1);
    let (k, r) = (num / step, num % step);
    vstd::arithmetic::div_mod::lemma_fundamental_div_mod(num as int, step as int);
    assert(k <= 0x100_0000) by (nonlinear_arith)
        requires
            num == step * k + r,
            r >= 0,
            num <= 0x100_0000 * step,
            step > 0,
    ;
    if k == 0x100_0000 {
        assert(num == units(top)) by (nonlinear_arith)
            requires
                num == step * k + r,
                r >= 0,
                k == 0x100_0000,
                num <= 0x100_0000 * step,
                units(top) == 0x100_0000 * step,
        ;
        lemma_nearest_is_closest(num, 1, top);
    } else {
        let below = lemma_representable(k, e);
        let above = if k + 1 < 0x100_0000 {
            lemma_representable(k + 1, e)
        } else {
            top
        };
        assert(units(below) == num - r && units(above) == num - r + step) by (nonlinear_arith)
            requires
                num == step * k + r,
                units(below) == k * step,
                units(above) == (k + 1) * step,
        ;
        lemma_nearest_is_closest(num, 1, below);
        lemma_nearest_is_closest(num, 1, above);
    }
}

/// The nearest magnitude to any ratio in range is off by no more than one part in `2^24`, or half
/// a unit.
pub proof fn lemma_nearest_any_error(num: nat, den: nat)
    requires
        den > 0,
        num <= pow2(276) * den,
    ensures
        nearest(num, den) < 0x7f80_0000,
        0x200_0000 * abs(units(nearest(num, den)) * den - num) <= 2 * num + 0x100_0000 * den,
{
    if 0x80_0000 * den <= num {
        lemma_nearest_error(num, den);
    } else {
        let (k, r) = (num / den, num % den);
        vstd::arithmetic::div_mod::lemma_fundamental_div_mod(num as int, den as int);
        assert(k < 0x80_0000) by (nonlinear_arith)
            requires
                num == den * k + r,
                r >= 0,
                num < 0x80_0000 * den,
                den > 0,
        ;
        lemma2_to64();
        lemma_units_grid(0, k);
        lemma_units_grid(0, k + 1);
        assert(units(k) * den == num - r && units(k + 1) * den == num - r + den) by (nonlinear_arith)
            requires
                num == den * k + r,
                units(k) == k * 1,
                units(k + 1) == (k + 1) * 1,
        ;
        lemma_nearest_is_closest(num, den, k);
        lemma_nearest_is_closest(num, den, k + 1);
        assert(units(0x80_0000) == 0x80_0000 * 1) by {
            lemma_units_grid(0, 0x80_0000);
        }
        lemma_nearest_of_units(0x80_0000, den);
        assert(num * den <= (units(0x80_0000) * den) * den) by (nonlinear_arith)
            requires
                num <= units(0x80_0000) * den,
        ;
        lemma_nearest_is_monotone(num, den, units(0x80_0000) * den, den);
    }
}

} // verus!
