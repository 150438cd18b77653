//! What the operations give, without saying how: of all numbers, the one nearest to the exact
//! result.

use vstd::arithmetic::power2::*;
use vstd::math::abs;
use vstd::prelude::*;

use crate::binary32::laws::{lemma_nearest_is_closest, lemma_of_int};
use crate::binary32::model::{
    lemma_nearest_rounds, lemma_signed, lemma_units_grid, lemma_units_increase,
    nearest, signed, units, Binary32,
};
use crate::binary32::ops::{
    above_epsilon, difference, of_int, product, quotient, round_half_up, sum, whole,
};

verus! {

/// The first `2^24` magnitudes count in units. From there on, and from `2^23` on, a magnitude
/// `2^23` higher stands for twice as much.
pub proof fn law_magnitudes_stand_for_values(m: nat)
    ensures
        m < 0x100_0000 ==> units(m) == m,
        m >= 0x80_0000 ==> units(m + 0x80_0000) == 2 * units(m),
{
    lemma2_to64();
    if m >= 0x80_0000 {
        let q = (m / 0x80_0000 - 1) as nat;
        let k = 0x80_0000 + m % 0x80_0000;
        assert((m + 0x80_0000) / 0x80_0000 == q + 2 && (m + 0x80_0000) % 0x80_0000 == m % 0x80_0000);
        lemma_pow2_unfold(q + 1);
        assert(k * (2 * pow2(q)) == 2 * (k * pow2(q))) by (nonlinear_arith);
        if m < 0x100_0000 {
            lemma_units_grid(0, m);
        }
    }
}

/// A number and the one with the other sign have opposite values; the sign is the highest bit.
pub proof fn law_sign_is_the_highest_bit(bits: u32)
    requires
        bits < 0x8000_0000,
    ensures
        ({
            let (plus, minus) = (
                Binary32 { bits },
                Binary32 { bits: (bits + 0x8000_0000) as u32 },
            );
            &&& plus.value() == units(bits as nat)
            &&& minus.value() == -plus.value()
            &&& plus.finite() <==> bits < 0x7f80_0000
            &&& minus.finite() <==> bits < 0x7f80_0000
            &&& plus.nan() <==> bits > 0x7f80_0000
            &&& minus.nan() <==> bits > 0x7f80_0000
        }),
{
}

/// Numbers are equal just where they are worth the same; what is no number equals nothing.
pub proof fn law_equality_goes_by_value(a: Binary32, b: Binary32)
    ensures
        a.finite() && b.finite() ==> (a.equals(b) <==> a.value() == b.value()),
        a.nan() ==> !a.equals(b) && !b.equals(a),
        a.infinite() && !b.nan() ==> (a.equals(b) <==> a.bits == b.bits),
{
    let (ma, mb) = (a.magnitude(), b.magnitude());
    if ma < mb {
        lemma_units_increase(ma, mb);
    } else if mb < ma {
        lemma_units_increase(mb, ma);
    }
    if ma > 0 {
        lemma_units_increase(0, ma);
    }
}

/// The product has the sign of the signs' product, and no magnitude is nearer to the exact one,
/// which is in units of `2^-298`. Of two that are equally near it has the even one.
pub proof fn law_product_is_nearest(a: Binary32, b: Binary32, other: nat)
    requires
        a.finite(),
        b.finite(),
        other <= 0x7f80_0000,
    ensures
        ({
            let exact = units(a.magnitude()) * units(b.magnitude());
            let (p, got) = (pow2(149), product(a, b));
            &&& got.negative() <==> a.negative() != b.negative()
            &&& got.magnitude() <= 0x7f80_0000
            &&& abs(units(got.magnitude()) * p - exact) <= abs(units(other) * p - exact)
            &&& abs(units(got.magnitude()) * p - exact) == abs(units(other) * p - exact) ==> other
                == got.magnitude() || got.magnitude() % 2 == 0
        }),
{
    let exact = units(a.magnitude()) * units(b.magnitude());
    lemma_pow2_pos(149);
    lemma_nearest_rounds(exact, pow2(149));
    lemma_signed(a.negative() != b.negative(), nearest(exact, pow2(149)));
    lemma_nearest_is_closest(exact, pow2(149), other);
}

/// The quotient has the sign of the signs' product, and no magnitude is nearer to the exact one:
/// times the divisor, none comes nearer to the dividend. Of two that are equally near it has the
/// even one.
pub proof fn law_quotient_is_nearest(a: Binary32, b: Binary32, other: nat)
    requires
        a.finite(),
        b.finite(),
        b.value() != 0,
        other <= 0x7f80_0000,
    ensures
        ({
            let (num, den) = (units(a.magnitude()) * pow2(149), units(b.magnitude()));
            let got = quotient(a, b);
            &&& got.negative() <==> a.negative() != b.negative()
            &&& got.magnitude() <= 0x7f80_0000
            &&& abs(units(got.magnitude()) * den - num) <= abs(units(other) * den - num)
            &&& abs(units(got.magnitude()) * den - num) == abs(units(other) * den - num) ==> other
                == got.magnitude() || got.magnitude() % 2 == 0
        }),
{
    let (num, den) = (units(a.magnitude()) * pow2(149), units(b.magnitude()));
    lemma_nearest_rounds(num, den);
    lemma_signed(a.negative() != b.negative(), nearest(num, den));
    lemma_nearest_is_closest(num, den, other);
}

/// The sum has the sign of the exact one, and no magnitude is nearer to it. Of two that are
/// equally near it has the even one. A difference is the sum with the other sign.
pub proof fn law_sum_is_nearest(a: Binary32, b: Binary32, other: nat)
    requires
        a.finite(),
        b.finite(),
        other <= 0x7f80_0000,
    ensures
        ({
            let (exact, got) = (a.value() + b.value(), sum(a, b));
            &&& exact < 0 ==> got.negative()
            &&& exact > 0 ==> !got.negative()
            &&& exact == 0 ==> got.magnitude() == 0
            &&& got.magnitude() <= 0x7f80_0000
            &&& abs(units(got.magnitude()) - abs(exact)) <= abs(units(other) - abs(exact))
            &&& abs(units(got.magnitude()) - abs(exact)) == abs(units(other) - abs(exact)) ==> other
                == got.magnitude() || got.magnitude() % 2 == 0
        }),
        ({
            let minus = Binary32 {
                bits: if b.bits >= 0x8000_0000 {
                    (b.bits - 0x8000_0000) as u32
                } else {
                    (b.bits + 0x8000_0000) as u32
                },
            };
            difference(a, b) == sum(a, minus)
        }),
{
    let exact = a.value() + b.value();
    lemma_nearest_rounds(abs(exact), 1);
    lemma_signed(exact < 0, nearest(abs(exact), 1));
    lemma_signed(a.negative() && b.negative(), 0);
    lemma_nearest_is_closest(abs(exact), 1, other);
    crate::binary32::laws::lemma_nearest_zero(1);
}

/// A whole number becomes the number nearest to it, of two that are equally near the even one.
pub proof fn law_whole_number_becomes_the_nearest(n: int, other: nat)
    requires
        i32::MIN <= n <= i32::MAX,
        other <= 0x7f80_0000,
    ensures
        ({
            let (exact, got) = (abs(n) * pow2(149), of_int(n));
            &&& got.finite()
            &&& got.negative() <==> n < 0
            &&& abs(units(got.magnitude()) - exact) <= abs(units(other) - exact)
            &&& abs(units(got.magnitude()) - exact) == abs(units(other) - exact) ==> other
                == got.magnitude() || got.magnitude() % 2 == 0
        }),
{
    lemma_of_int(n);
    lemma_nearest_is_closest(abs(n) * pow2(149), 1, other);
}

/// A number within the range of `i32` is rounded to a whole one that is off by half at most, and
/// away from zero where it is off by half.
pub proof fn law_rounding_is_off_by_half(a: Binary32)
    requires
        a.finite(),
        abs(a.value()) <= 0x7fff_ffff * pow2(149),
    ensures
        ({
            let (p, n) = (pow2(149), whole(a));
            &&& 2 * abs(n * p - a.value()) <= p
            &&& a.value() >= 0 ==> 2 * a.value() < 2 * (n * p) + p
            &&& a.value() < 0 ==> 2 * a.value() > 2 * (n * p) - p
        }),
{
    let (p, u) = (pow2(149), units(a.magnitude()));
    let (q, r) = ((2 * u + p) / (2 * p), (2 * u + p) % (2 * p));
    lemma_pow2_pos(149);
    vstd::arithmetic::div_mod::lemma_fundamental_div_mod(2 * u + p as int, 2 * p as int);
    assert(2 * u + p == 2 * (q * p) + r) by (nonlinear_arith)
        requires
            2 * u + p == (2 * p) * q + r,
    ;
    assert(q <= 0x7fff_ffff) by (nonlinear_arith)
        requires
            2 * (q * p) <= 2 * u + p,
            u <= 0x7fff_ffff * p,
            p > 0,
    ;
    assert((-(q as int)) * p == -(q * p)) by (nonlinear_arith);
    if u == 0 {
        assert(q == 0) by (nonlinear_arith)
            requires
                2 * (q * p) <= p,
                p > 0,
        ;
        assert(0 * p == 0) by (nonlinear_arith);
    }
    assert(round_half_up(u, p) == q);
    let n = whole(a);
    if a.negative() {
        assert(n == -q);
        assert(n * p == -(q * p));
    } else {
        assert(n == q);
        assert(n * p == q * p);
    }
}

/// Beyond the range of `i32` rounding stops at its ends; what is no number becomes zero.
pub proof fn law_rounding_stops_at_the_ends(a: Binary32)
    ensures
        a.nan() ==> whole(a) == 0,
        !a.nan() && (a.infinite() || abs(a.value()) >= 0x8000_0000 * pow2(149)) ==> whole(a)
            == if a.negative() {
            -2_147_483_648
        } else {
            2_147_483_647
        },
{
    let (p, u) = (pow2(149), units(a.magnitude()));
    lemma_pow2_pos(149);
    if a.finite() && u >= 0x8000_0000 * p {
        let (q, r) = ((2 * u + p) / (2 * p), (2 * u + p) % (2 * p));
        vstd::arithmetic::div_mod::lemma_fundamental_div_mod(2 * u + p as int, 2 * p as int);
        assert(q >= 0x8000_0000) by (nonlinear_arith)
            requires
                2 * u + p == (2 * p) * q + r,
                r < 2 * p,
                u >= 0x8000_0000 * p,
                p > 0,
        ;
        assert(round_half_up(u, p) == q);
    }
}

/// A number is above machine epsilon just where its bits lie above those of `2^-23` and up to
/// those of infinity.
pub proof fn law_epsilon_in_bits(a: Binary32)
    ensures
        above_epsilon(a) <==> 0x3400_0000 < a.bits <= 0x7f80_0000,
        above_epsilon(a) && a.finite() <==> 0x3400_0000 < a.bits < 0x7f80_0000,
{
    lemma2_to64();
    lemma_units_grid(103, 0x80_0000);
    lemma_pow2_adds(23, 103);
    assert(units(0x3400_0000) == pow2(126));
    let m = a.magnitude();
    if m < 0x3400_0000 {
        lemma_units_increase(m, 0x3400_0000);
    } else if m > 0x3400_0000 {
        lemma_units_increase(0x3400_0000, m);
    }
}

/// What has no exact result: products of nothing and infinity, quotients of nothing by nothing
/// and of infinity by infinity, sums of opposite infinities, and whatever has an operand that is
/// no number. Otherwise an infinite operand, or a divisor of zero, gives an infinite result, but
/// for an infinite divisor, which gives zero.
pub proof fn law_extremes(a: Binary32, b: Binary32)
    ensures
        product(a, b).nan() <==> a.nan() || b.nan() || a.infinite() && b.magnitude() == 0
            || b.infinite() && a.magnitude() == 0,
        quotient(a, b).nan() <==> a.nan() || b.nan() || a.infinite() && b.infinite()
            || a.magnitude() == 0 && b.magnitude() == 0,
        sum(a, b).nan() <==> a.nan() || b.nan() || a.infinite() && b.infinite() && a.negative()
            != b.negative(),
        !product(a, b).nan() && (a.infinite() || b.infinite()) ==> product(a, b) == signed(
            a.negative() != b.negative(),
            0x7f80_0000,
        ),
        !quotient(a, b).nan() && (a.infinite() || b.magnitude() == 0) ==> quotient(a, b) == signed(
            a.negative() != b.negative(),
            0x7f80_0000,
        ),
        !quotient(a, b).nan() && b.infinite() ==> quotient(a, b) == signed(
            a.negative() != b.negative(),
            0,
        ),
        !sum(a, b).nan() && a.infinite() ==> sum(a, b) == a,
        !sum(a, b).nan() && b.infinite() ==> sum(a, b) == b,
{
    let p = pow2(149);
    lemma_pow2_pos(149);
    let negative = a.negative() != b.negative();
    lemma_signed(negative, 0);
    lemma_signed(negative, 0x7f80_0000);
    lemma_signed(a.negative(), 0x7f80_0000);
    lemma_signed(b.negative(), 0x7f80_0000);
    lemma_signed(a.negative() && b.negative(), 0);
    if a.finite() && b.finite() {
        law_product_is_nearest(a, b, 0);
        law_sum_is_nearest(a, b, 0);
        if b.magnitude() > 0 {
            lemma_units_increase(0, b.magnitude());
            law_quotient_is_nearest(a, b, 0);
        }
    }
}

} // verus!
