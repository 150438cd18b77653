//! What a bit pattern stands for, and what it means to round to one.
//!
//! The magnitude bits of a pattern (all but the sign bit) count up through the finite values in
//! order: magnitude 0 is zero, magnitude 1 the smallest subnormal, `2^-149`, and so on up to the
//! largest finite value; the next magnitude, [`INFINITE`], is where `2^128` would be. Every
//! finite value is therefore a whole number of units of `2^-149`, given by [`units`].

use vstd::arithmetic::mul::*;
use vstd::arithmetic::power2::*;
use vstd::prelude::*;

verus! {

/// First magnitude of a normal number; also the number of fractions within one binade.
pub const BINADE: u32 = 0x80_0000;

/// The magnitude of the infinities. Larger magnitudes are not numbers.
pub const INFINITE: u32 = 0x7f80_0000;

/// The sign bit.
pub const SIGN: u32 = 0x8000_0000;

/// The pattern given for results that are not a number.
pub const NOT_A_NUMBER: u32 = 0x7fc0_0000;

/// A single-precision number, held as its bit pattern.
#[derive(Clone, Copy, Debug)]
pub struct Binary32 {
    pub bits: u32,
}

/// The value of a magnitude in units of `2^-149`.
pub open spec fn units(m: nat) -> nat {
    if m < 0x80_0000 {
        m
    } else {
        (0x80_0000 + m % 0x80_0000) * pow2((m / 0x80_0000 - 1) as nat)
    }
}

/// Whether `m` is the magnitude nearest to `num / den` units, the even one in a tie.
pub open spec fn rounds_to(num: nat, den: nat, m: nat) -> bool {
    &&& m <= 0x7f80_0000
    &&& m > 0 ==> {
        let below = (units((m - 1) as nat) + units(m)) * den;
        below < 2 * num || below == 2 * num && m % 2 == 0
    }
    &&& m < 0x7f80_0000 ==> {
        let above = (units(m) + units(m + 1)) * den;
        2 * num < above || 2 * num == above && m % 2 == 0
    }
}

/// The magnitude nearest to `num / den` units of `2^-149`.
pub open spec fn nearest(num: nat, den: nat) -> nat {
    choose|m: nat| rounds_to(num, den, m)
}

impl Binary32 {
    /// Whether the sign bit is set.
    pub open spec fn negative(self) -> bool {
        self.bits >= SIGN
    }

    /// The bits below the sign bit.
    pub open spec fn magnitude(self) -> nat {
        (self.bits % SIGN) as nat
    }

    pub open spec fn nan(self) -> bool {
        self.magnitude() > INFINITE
    }

    pub open spec fn infinite(self) -> bool {
        self.magnitude() == INFINITE
    }

    pub open spec fn finite(self) -> bool {
        self.magnitude() < INFINITE
    }

    /// Equality by value: both zeros are equal, and what is not a number equals nothing.
    pub open spec fn equals(self, other: Binary32) -> bool {
        !self.nan() && !other.nan() && (self.bits == other.bits || self.magnitude() == 0
            && other.magnitude() == 0)
    }

    /// The value of a finite number, in units of `2^-149`.
    pub open spec fn value(self) -> int {
        if self.negative() {
            -(units(self.magnitude()) as int)
        } else {
            units(self.magnitude()) as int
        }
    }
}

impl PartialEq for Binary32 {
    fn eq(&self, other: &Binary32) -> (res: bool) {
        self.bits % SIGN <= INFINITE && other.bits % SIGN <= INFINITE && (self.bits == other.bits
            || self.bits % SIGN == 0 && other.bits % SIGN == 0)
    }
}

impl vstd::std_specs::cmp::PartialEqSpecImpl for Binary32 {
    open spec fn obeys_eq_spec() -> bool {
        true
    }

    open spec fn eq_spec(&self, other: &Binary32) -> bool {
        self.equals(*other)
    }
}

/// The number with the given sign and magnitude.
pub open spec fn signed(negative: bool, m: nat) -> Binary32 {
    Binary32 {
        bits: (if negative {
            m + SIGN
        } else {
            m as int
        }) as u32,
    }
}

/// The result given where there is none.
pub open spec fn not_a_number() -> Binary32 {
    Binary32 { bits: NOT_A_NUMBER }
}

pub proof fn lemma_signed(negative: bool, m: nat)
    requires
        m <= 0x7f80_0000,
    ensures
        signed(negative, m).negative() == negative,
        signed(negative, m).magnitude() == m,
{
}

/// On a grid of step `2^q`, `k` steps are magnitude `q * 2^23 + k`.
pub proof fn lemma_units_grid(q: nat, k: nat)
    requires
        k <= 0x100_0000,
        k >= 0x80_0000 || q == 0,
    ensures
        units(q * 0x80_0000 + k) == k * pow2(q),
{
    lemma2_to64();
    let m = q * 0x80_0000 + k;
    if k < 0x80_0000 {
        assert(m == k);
    } else if k < 0x100_0000 {
        assert(m / 0x80_0000 == q + 1 && m % 0x80_0000 == k - 0x80_0000);
    } else {
        assert(m / 0x80_0000 == q + 2 && m % 0x80_0000 == 0);
        lemma_pow2_unfold((q + 1) as nat);
        assert(0x80_0000 * (2 * pow2(q)) == 0x100_0000 * pow2(q)) by (nonlinear_arith);
    }
}

/// The grid on which magnitude `m` lies: its step exponent and its number of steps.
pub open spec fn grid_of(m: nat) -> (nat, nat) {
    let q = if m < 0x80_0000 {
        0nat
    } else {
        (m / 0x80_0000 - 1) as nat
    };
    (q, (m - q * 0x80_0000) as nat)
}

pub proof fn lemma_grid_of(m: nat)
    ensures
        m == grid_of(m).0 * 0x80_0000 + grid_of(m).1,
        grid_of(m).1 < 0x100_0000,
        grid_of(m).1 >= 0x80_0000 || grid_of(m).0 == 0,
        units(m) == grid_of(m).1 * pow2(grid_of(m).0),
        units(m + 1) == (grid_of(m).1 + 1) * pow2(grid_of(m).0),
{
    let (q, k) = grid_of(m);
    lemma_units_grid(q, k);
    lemma_units_grid(q, k + 1);
    assert(q * 0x80_0000 + (k + 1) == m + 1);
}

/// Larger magnitudes stand for larger values.
pub proof fn lemma_units_increase(a: nat, b: nat)
    requires
        a < b,
    ensures
        units(a) < units(b),
    decreases b,
{
    let m = (b - 1) as nat;
    lemma_grid_of(m);
    let (q, k) = grid_of(m);
    lemma_pow2_pos(q);
    assert(k * pow2(q) < (k + 1) * pow2(q)) by (nonlinear_arith)
        requires
            pow2(q) > 0,
    ;
    if a < m {
        lemma_units_increase(a, m);
    }
}

/// Some magnitude is nearest to every ratio.
pub proof fn lemma_nearest_exists(num: nat, den: nat)
    requires
        den > 0,
    ensures
        exists|m: nat| rounds_to(num, den, m),
{
    assert(units(0) * den == 0) by (nonlinear_arith)
        requires
            units(0) == 0,
    ;
    lemma_nearest_from(num, den, 0);
}

proof fn lemma_nearest_from(num: nat, den: nat, m: nat)
    requires
        den > 0,
        m <= 0x7f80_0000,
        units(m) * den <= num,
    ensures
        exists|r: nat| rounds_to(num, den, r),
    decreases 0x7f80_0000 - m,
{
    if m > 0 {
        lemma_units_increase((m - 1) as nat, m);
        assert((units((m - 1) as nat) + units(m)) * den < 2 * num) by (nonlinear_arith)
            requires
                units((m - 1) as nat) < units(m),
                units(m) * den <= num,
                den > 0,
        ;
    }
    if m == 0x7f80_0000 {
        assert(rounds_to(num, den, m));
    } else if units(m + 1) * den <= num {
        lemma_nearest_from(num, den, m + 1);
    } else {
        let mid = (units(m) + units(m + 1)) * den;
        if 2 * num < mid || 2 * num == mid && m % 2 == 0 {
            assert(rounds_to(num, den, m));
        } else {
            if m + 1 < 0x7f80_0000 {
                lemma_units_increase(m + 1, m + 2);
                assert(2 * num < (units(m + 1) + units(m + 2)) * den) by (nonlinear_arith)
                    requires
                        units(m + 1) < units(m + 2),
                        num < units(m + 1) * den,
                        den > 0,
                ;
            }
            assert(rounds_to(num, den, m + 1));
        }
    }
}

/// Rounding keeps order: a smaller ratio does not round to a larger magnitude.
pub proof fn lemma_rounding_is_monotone(num1: nat, den1: nat, m1: nat, num2: nat, den2: nat, m2: nat)
    requires
        den1 > 0,
        den2 > 0,
        num1 * den2 <= num2 * den1,
        rounds_to(num1, den1, m1),
        rounds_to(num2, den2, m2),
    ensures
        m1 <= m2,
{
    if m2 < m1 {
        let above = units(m2) + units(m2 + 1);
        let below = units((m1 - 1) as nat) + units(m1);
        assert(below * den1 <= 2 * num1);
        assert(2 * num2 <= above * den2);
        let both = den1 * den2;
        assert(below * both <= 2 * num1 * den2) by (nonlinear_arith)
            requires
                below * den1 <= 2 * num1,
                both == den1 * den2,
        ;
        assert(2 * num2 * den1 <= above * both) by (nonlinear_arith)
            requires
                2 * num2 <= above * den2,
                both == den1 * den2,
        ;
        assert(2 * num1 * den2 <= 2 * num2 * den1) by (nonlinear_arith)
            requires
                num1 * den2 <= num2 * den1,
        ;
        assert(both > 0) by (nonlinear_arith)
            requires
                both == den1 * den2,
                den1 > 0,
                den2 > 0,
        ;
        if m2 + 1 < m1 {
            lemma_units_increase(m2, (m1 - 1) as nat);
            lemma_units_increase(m2 + 1, m1);
            assert(above * both < below * both) by (nonlinear_arith)
                requires
                    above < below,
                    both > 0,
            ;
        } else {
            assert(above == below);
            assert(below * den1 == 2 * num1) by (nonlinear_arith)
                requires
                    below * den1 <= 2 * num1,
                    below * both == 2 * num1 * den2,
                    both == den1 * den2,
                    den2 > 0,
            ;
            assert(2 * num2 == above * den2) by (nonlinear_arith)
                requires
                    2 * num2 <= above * den2,
                    2 * num2 * den1 == above * both,
                    both == den1 * den2,
                    den1 > 0,
            ;
        }
    }
}

/// No two magnitudes are nearest to one ratio.
pub proof fn lemma_nearest_unique(num: nat, den: nat, a: nat, b: nat)
    requires
        den > 0,
        rounds_to(num, den, a),
        rounds_to(num, den, b),
    ensures
        a == b,
{
    lemma_rounding_is_monotone(num, den, a, num, den, b);
    lemma_rounding_is_monotone(num, den, b, num, den, a);
}

/// [`nearest`] is the one magnitude that a ratio rounds to.
pub proof fn lemma_nearest(num: nat, den: nat, m: nat)
    requires
        den > 0,
        rounds_to(num, den, m),
    ensures
        nearest(num, den) == m,
{
    lemma_nearest_unique(num, den, m, nearest(num, den));
}

pub proof fn lemma_nearest_rounds(num: nat, den: nat)
    requires
        den > 0,
    ensures
        rounds_to(num, den, nearest(num, den)),
        nearest(num, den) <= 0x7f80_0000,
{
    lemma_nearest_exists(num, den);
}

} // verus!
