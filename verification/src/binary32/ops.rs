//! The operations, each with the exact operation that it rounds.

use vstd::arithmetic::power2::*;
use vstd::bits::*;
use vstd::math::abs;
use vstd::prelude::*;

use crate::binary32::model::{
    grid_of, lemma_grid_of, lemma_nearest, nearest, lemma_units_increase, not_a_number, signed,
    units, Binary32, BINADE, INFINITE, NOT_A_NUMBER, SIGN,
};
use crate::binary32::round::{at_step, brackets, round_significand};

verus! {

/// `n` as the nearest single-precision number.
pub open spec fn of_int(n: int) -> Binary32 {
    signed(n < 0, nearest(abs(n) * pow2(149), 1))
}

/// The rounded product.
pub open spec fn product(a: Binary32, b: Binary32) -> Binary32 {
    let negative = a.negative() != b.negative();
    if a.nan() || b.nan() {
        not_a_number()
    } else if a.infinite() || b.infinite() {
        if a.magnitude() == 0 || b.magnitude() == 0 {
            not_a_number()
        } else {
            signed(negative, INFINITE as nat)
        }
    } else {
        signed(negative, nearest(units(a.magnitude()) * units(b.magnitude()), pow2(149)))
    }
}

/// The rounded quotient.
pub open spec fn quotient(a: Binary32, b: Binary32) -> Binary32 {
    let negative = a.negative() != b.negative();
    if a.nan() || b.nan() || a.infinite() && b.infinite() || a.magnitude() == 0 && b.magnitude()
        == 0 {
        not_a_number()
    } else if a.infinite() || b.magnitude() == 0 {
        signed(negative, INFINITE as nat)
    } else if b.infinite() {
        signed(negative, 0)
    } else {
        signed(negative, nearest(units(a.magnitude()) * pow2(149), units(b.magnitude())))
    }
}

/// The rounded sum. A sum that cancels is positive zero.
pub open spec fn sum(a: Binary32, b: Binary32) -> Binary32 {
    let exact = a.value() + b.value();
    if a.nan() || b.nan() || a.infinite() && b.infinite() && a.negative() != b.negative() {
        not_a_number()
    } else if a.infinite() {
        signed(a.negative(), INFINITE as nat)
    } else if b.infinite() {
        signed(b.negative(), INFINITE as nat)
    } else if exact == 0 {
        signed(a.negative() && b.negative(), 0)
    } else {
        signed(exact < 0, nearest(abs(exact), 1))
    }
}

/// `a` with its sign bit flipped.
pub open spec fn negated(a: Binary32) -> Binary32 {
    Binary32 { bits: (if a.negative() { a.bits - SIGN } else { a.bits + SIGN }) as u32 }
}

/// The rounded difference.
pub open spec fn difference(a: Binary32, b: Binary32) -> Binary32 {
    sum(a, negated(b))
}

/// `num / den` rounded to a whole number, halves up.
pub open spec fn round_half_up(num: nat, den: nat) -> nat {
    (2 * num + den) / (2 * den)
}

/// The whole number nearest to `a`, halves away from zero, brought into the range of `i32`.
pub open spec fn whole(a: Binary32) -> int {
    let n = round_half_up(units(a.magnitude()), pow2(149));
    if a.nan() {
        0
    } else if a.negative() {
        if a.infinite() || n > 0x8000_0000 {
            i32::MIN as int
        } else {
            -(n as int)
        }
    } else {
        if a.infinite() || n > 0x7fff_ffff {
            i32::MAX as int
        } else {
            n as int
        }
    }
}

/// Whether `a` is above machine epsilon, `2^-23`.
pub open spec fn above_epsilon(a: Binary32) -> bool {
    &&& !a.nan()
    &&& !a.negative()
    &&& a.infinite() || a.value() > pow2(126)
}

/// A ratio that `sig * 2^b / 2^a` brackets is bracketed on the grid of step `2^(b - a)`.
proof fn lemma_brackets(num: nat, den: nat, sig: nat, a: nat, b: nat, exact: bool)
    requires
        sig * pow2(b) * den <= num * pow2(a) < (sig + 1) * pow2(b) * den,
        exact <==> num * pow2(a) == sig * pow2(b) * den,
    ensures
        brackets(num, den, sig, b - a, exact),
{
    let (n, d) = at_step(num, den, b - a);
    let (pa, pb) = (pow2(a), pow2(b));
    if b >= a {
        let p = pow2((b - a) as nat);
        lemma_pow2_adds(a, (b - a) as nat);
        lemma_pow2_pos(a);
        assert(sig * d <= n < (sig + 1) * d && (n == sig * d <==> num * pa == sig * pb * den))
            by (nonlinear_arith)
            requires
                pb == pa * p,
                pa > 0,
                n == num,
                d == den * p,
                sig * pb * den <= num * pa < (sig + 1) * pb * den,
        ;
    } else {
        let p = pow2((a - b) as nat);
        lemma_pow2_adds(b, (a - b) as nat);
        lemma_pow2_pos(b);
        assert(sig * d <= n < (sig + 1) * d && (n == sig * d <==> num * pa == sig * pb * den))
            by (nonlinear_arith)
            requires
                pa == pb * p,
                pb > 0,
                n == num * p,
                d == den,
                sig * pb * den <= num * pa < (sig + 1) * pb * den,
        ;
    }
}

impl Binary32 {
    /// The number with bit pattern `bits`.
    pub fn from_bits(bits: u32) -> (res: Binary32)
        ensures
            res.bits == bits,
    {
        Binary32 { bits }
    }

    /// The bit pattern.
    pub fn to_bits(self) -> (bits: u32)
        ensures
            bits == self.bits,
    {
        self.bits
    }

    fn is_negative(self) -> (res: bool)
        ensures
            res == self.negative(),
    {
        self.bits >= SIGN
    }

    fn magnitude_bits(self) -> (m: u32)
        ensures
            m == self.magnitude(),
    {
        self.bits % SIGN
    }

    fn with_sign(negative: bool, m: u32) -> (res: Binary32)
        requires
            m <= INFINITE,
        ensures
            res == signed(negative, m as nat),
    {
        Binary32 { bits: if negative { m + SIGN } else { m } }
    }

    /// A finite number's magnitude as a significand and an exponent, in units of `2^-149`.
    fn decompose(m: u32) -> (parts: (u32, u32))
        requires
            m < INFINITE,
        ensures
            units(m as nat) == parts.0 * pow2(parts.1 as nat),
            parts.0 < 0x100_0000,
            parts.0 >= 0x80_0000 || parts.1 == 0,
            parts.1 <= 253,
            parts.0 == 0 <==> m == 0,
            parts.1 == grid_of(m as nat).0,
    {
        proof {
            lemma_grid_of(m as nat);
        }
        if m < BINADE {
            (m, 0)
        } else {
            (BINADE + m % BINADE, m / BINADE - 1)
        }
    }

    /// Round `num / den` units, which `sig * 2^b / 2^a` brackets, and give it a sign.
    fn rounded(
        negative: bool,
        sig: u64,
        exp: i32,
        exact: bool,
        Ghost(num): Ghost<nat>,
        Ghost(den): Ghost<nat>,
        Ghost(a): Ghost<nat>,
        Ghost(b): Ghost<nat>,
    ) -> (res: Binary32)
        requires
            den > 0,
            sig < 0x8000_0000_0000_0000,
            -1000 <= exp <= 1000,
            b - a == exp,
            sig * pow2(b) * den <= num * pow2(a) < (sig + 1) * pow2(b) * den,
            exact <==> num * pow2(a) == sig * pow2(b) * den,
            exact || sig >= 0x400_0000,
        ensures
            res == signed(negative, nearest(num, den)),
    {
        proof {
            lemma_brackets(num, den, sig as nat, a, b, exact);
        }
        let m: u32 = round_significand(sig, exp, exact, Ghost(num), Ghost(den));
        proof {
            lemma_nearest(num, den, m as nat);
        }
        Binary32::with_sign(negative, m)
    }

    /// Convert a whole number.
    pub fn from_i32(n: i32) -> (res: Binary32)
        ensures
            res == of_int(n as int),
    {
        let sig: u64 = if n < 0 {
            (-(n as i64)) as u64
        } else {
            n as u64
        };
        let ghost num = (sig * pow2(149)) as nat;
        proof {
            lemma2_to64();
            lemma_pow2_pos(149);
            let p = pow2(149);
            assert(sig * p * 1 == num * 1 && num * 1 < (sig + 1) * p * 1) by (nonlinear_arith)
                requires
                    num == sig * p,
                    p > 0,
            ;
        }
        Binary32::rounded(n < 0, sig, 149, true, Ghost(num), Ghost(1), Ghost(0), Ghost(149))
    }

    /// Multiply, rounding to nearest.
    pub fn times(self, other: Binary32) -> (res: Binary32)
        ensures
            res == product(self, other),
    {
        let negative: bool = self.is_negative() != other.is_negative();
        let ma: u32 = self.magnitude_bits();
        let mb: u32 = other.magnitude_bits();
        if ma > INFINITE || mb > INFINITE {
            return Binary32 { bits: NOT_A_NUMBER };
        }
        if ma == INFINITE || mb == INFINITE {
            if ma == 0 || mb == 0 {
                return Binary32 { bits: NOT_A_NUMBER };
            }
            return Binary32::with_sign(negative, INFINITE);
        }
        let (sa, ea): (u32, u32) = Binary32::decompose(ma);
        let (sb, eb): (u32, u32) = Binary32::decompose(mb);
        assert(sa as nat * sb as nat <= 0xff_ffff * 0xff_ffff) by (nonlinear_arith)
            requires
                sa <= 0xff_ffff,
                sb <= 0xff_ffff,
        ;
        let sig: u64 = sa as u64 * sb as u64;
        let exp: i32 = ea as i32 + eb as i32 - 149;
        let ghost num = units(ma as nat) * units(mb as nat);
        let ghost b = (ea + eb) as nat;
        proof {
            let (pa, pb, p, pc) = (pow2(ea as nat), pow2(eb as nat), pow2(149), pow2(b));
            lemma_pow2_adds(ea as nat, eb as nat);
            lemma_pow2_pos(149);
            lemma_pow2_pos(b);
            assert(sig * pc * p == num * p && num * p < (sig + 1) * pc * p) by (nonlinear_arith)
                requires
                    num == (sa * pa) * (sb * pb),
                    sig == sa * sb,
                    pc == pa * pb,
                    p > 0,
                    pc > 0,
            ;
        }
        Binary32::rounded(negative, sig, exp, true, Ghost(num), Ghost(pow2(149)), Ghost(149), Ghost(b))
    }

    /// Divide, rounding to nearest.
    pub fn over(self, other: Binary32) -> (res: Binary32)
        ensures
            res == quotient(self, other),
    {
        let negative: bool = self.is_negative() != other.is_negative();
        let ma: u32 = self.magnitude_bits();
        let mb: u32 = other.magnitude_bits();
        if ma > INFINITE || mb > INFINITE || ma == INFINITE && mb == INFINITE || ma == 0 && mb == 0 {
            return Binary32 { bits: NOT_A_NUMBER };
        }
        if ma == INFINITE || mb == 0 {
            return Binary32::with_sign(negative, INFINITE);
        }
        if mb == INFINITE {
            return Binary32::with_sign(negative, 0);
        }
        let (sa, ea): (u32, u32) = Binary32::decompose(ma);
        let (sb, eb): (u32, u32) = Binary32::decompose(mb);
        let ghost num = units(ma as nat) * pow2(149);
        let ghost den = units(mb as nat);
        proof {
            lemma2_to64();
            lemma_pow2_pos(eb as nat);
            assert(den > 0) by (nonlinear_arith)
                requires
                    den == sb * pow2(eb as nat),
                    sb > 0,
                    pow2(eb as nat) > 0,
            ;
        }
        if ma == 0 {
            proof {
                let p = pow2(149);
                assert(num == 0) by (nonlinear_arith)
                    requires
                        num == units(ma as nat) * p,
                        units(ma as nat) == 0,
                ;
                assert(0 * pow2(0) * den == 0 && 1 * pow2(0) * den == den && 0 * pow2(0) == 0)
                    by (nonlinear_arith)
                    requires
                        pow2(0) == 1,
                ;
            }
            return Binary32::rounded(negative, 0, 0, true, Ghost(num), Ghost(den), Ghost(0), Ghost(0));
        }
        // Bring the dividend's leading bit to the top of its 24 bits.
        let mut top: u32 = sa;
        let mut raised: u32 = 0;
        while top < BINADE
            invariant
                0 < top < 0x100_0000,
                raised <= 23,
                top == sa * pow2(raised as nat),
                pow2(23) == 0x80_0000,
            decreases 0x100_0000 - top,
        {
            proof {
                if raised == 23 {
                    assert(sa * 0x80_0000 >= 0x80_0000) by (nonlinear_arith)
                        requires
                            sa > 0,
                    ;
                }
                let p = pow2(raised as nat);
                lemma_pow2_unfold((raised + 1) as nat);
                assert(2 * top == sa * (2 * p)) by (nonlinear_arith)
                    requires
                        top == sa * p,
                ;
            }
            top = top * 2;
            raised = raised + 1;
        }
        let dividend: u64 = top as u64 * 0x80_0000_0000;
        let sig: u64 = dividend / sb as u64;
        let exact: bool = dividend % sb as u64 == 0;
        let exp: i32 = ea as i32 - raised as i32 - eb as i32 + 110;
        let ghost a = (raised + 39 + eb) as nat;
        let ghost b = (ea + 149) as nat;
        proof {
            lemma2_to64_rest();
            vstd::arithmetic::div_mod::lemma_fundamental_div_mod(dividend as int, sb as int);
            let (lo, hi) = ((sig * sb) as int, ((sig + 1) * sb) as int);
            assert(lo <= dividend < hi) by (nonlinear_arith)
                requires
                    lo == sig * sb,
                    hi == (sig + 1) * sb,
                    dividend == sb * sig + dividend % sb as u64,
                    0 <= dividend % (sb as u64) < sb,
            ;
            assert(sig >= 0x400_0000) by (nonlinear_arith)
                requires
                    dividend >= 0x80_0000 * 0x80_0000_0000,
                    dividend < (sig + 1) * sb,
                    sb < 0x100_0000,
            ;
            assert(sig <= dividend) by (nonlinear_arith)
                requires
                    sig * sb <= dividend,
                    sb >= 1,
            ;
            let (pe, pf, pr, pa, pb, p, q) = (
                pow2(ea as nat),
                pow2(eb as nat),
                pow2(raised as nat),
                pow2(a),
                pow2(b),
                pow2(149),
                pow2(39),
            );
            lemma_pow2_adds(ea as nat, 149);
            lemma_pow2_adds(raised as nat, 39);
            lemma_pow2_adds((raised + 39) as nat, eb as nat);
            lemma_pow2_pos(ea as nat);
            lemma_pow2_pos(149);
            lemma_pow2_pos(b);
            let r = pb * pf;
            assert(r > 0) by (nonlinear_arith)
                requires
                    r == pb * pf,
                    pb > 0,
                    pf > 0,
            ;
            assert(num * pa == dividend * r) by (nonlinear_arith)
                requires
                    num == (sa * pe) * p,
                    pa == (pr * q) * pf,
                    pb == pe * p,
                    dividend == (sa * pr) * q,
                    r == pb * pf,
            ;
            assert(sig * pb * den == (sig * sb) * r && (sig + 1) * pb * den == ((sig + 1) * sb) * r)
                by (nonlinear_arith)
                requires
                    den == sb * pf,
                    r == pb * pf,
            ;
            assert(lo * r <= dividend * r < hi * r && (dividend * r == lo * r <==> dividend == lo))
                by (nonlinear_arith)
                requires
                    lo <= dividend < hi,
                    r > 0,
            ;
            assert(exact <==> dividend == lo) by (nonlinear_arith)
                requires
                    lo == sig * sb,
                    dividend == sb * sig + dividend % sb as u64,
                    exact <==> dividend % sb as u64 == 0,
            ;
        }
        Binary32::rounded(negative, sig, exp, exact, Ghost(num), Ghost(den), Ghost(a), Ghost(b))
    }

    /// Add, rounding to nearest.
    pub fn plus(self, other: Binary32) -> (res: Binary32)
        ensures
            res == sum(self, other),
    {
        let ma: u32 = self.magnitude_bits();
        let mb: u32 = other.magnitude_bits();
        if ma > INFINITE || mb > INFINITE {
            return Binary32 { bits: NOT_A_NUMBER };
        }
        if ma == INFINITE {
            if mb == INFINITE && self.is_negative() != other.is_negative() {
                return Binary32 { bits: NOT_A_NUMBER };
            }
            return Binary32::with_sign(self.is_negative(), INFINITE);
        }
        if mb == INFINITE {
            return Binary32::with_sign(other.is_negative(), INFINITE);
        }
        if ma / BINADE >= mb / BINADE {
            Binary32::add_finite(self, other)
        } else {
            Binary32::add_finite(other, self)
        }
    }

    /// Subtract, rounding to nearest.
    pub fn minus(self, other: Binary32) -> (res: Binary32)
        ensures
            res == difference(self, other),
    {
        let flipped: Binary32 = if other.bits >= SIGN {
            Binary32 { bits: other.bits - SIGN }
        } else {
            Binary32 { bits: other.bits + SIGN }
        };
        self.plus(flipped)
    }

    /// Whether the number is neither infinite nor "not a number".
    pub fn is_finite(self) -> (res: bool)
        ensures
            res == self.finite(),
    {
        self.magnitude_bits() < INFINITE
    }

    /// Whether the number is above machine epsilon.
    pub fn exceeds_epsilon(self) -> (res: bool)
        ensures
            res == above_epsilon(self),
    {
        proof {
            let (m, e) = (self.magnitude(), 0x3400_0000nat);
            lemma2_to64();
            lemma_pow2_adds(23, 103);
            assert(units(e) == pow2(126));
            if m < e {
                lemma_units_increase(m, e);
            } else if e < m {
                lemma_units_increase(e, m);
            }
        }
        0x3400_0000 < self.bits && self.bits <= INFINITE
    }

    /// The absolute value.
    pub fn abs(self) -> (res: Binary32)
        ensures
            res == (Binary32 { bits: self.bits % SIGN }),
    {
        Binary32 { bits: self.bits % SIGN }
    }

    /// Round to the nearest whole number, halves away from zero, within the range of `i32`.
    pub fn round_to_i32(self) -> (res: i32)
        ensures
            res == whole(self),
    {
        let m: u32 = self.magnitude_bits();
        if m > INFINITE {
            return 0;
        }
        if m == INFINITE {
            return if self.is_negative() { i32::MIN } else { i32::MAX };
        }
        let (sig, exp): (u32, u32) = Binary32::decompose(m);
        let ghost n = round_half_up(units(m as nat), pow2(149));
        if exp >= 157 {
            proof {
                lemma_whole_part(sig as nat, exp as nat);
                lemma2_to64();
                let by = (exp - 149) as nat;
                if by > 8 {
                    lemma_pow2_strictly_increases(8, by);
                }
                let p = pow2(by);
                assert(sig * p >= 0x80_0000 * 0x100) by (nonlinear_arith)
                    requires
                        sig >= 0x80_0000,
                        p >= 0x100,
                ;
            }
            return if self.is_negative() { i32::MIN } else { i32::MAX };
        }
        let size: i32 = if exp >= 149 {
            let by: u32 = exp - 149;
            proof {
                lemma_whole_part(sig as nat, exp as nat);
                lemma2_to64();
                if by < 7 {
                    lemma_pow2_strictly_increases(by as nat, 7);
                }
                let p = pow2(by as nat);
                assert(sig * p <= 0xff_ffff * 0x80) by (nonlinear_arith)
                    requires
                        sig <= 0xff_ffff,
                        p <= 0x80,
                ;
                lemma_u32_shl_is_mul(sig, by);
            }
            (sig << by) as i32
        } else {
            let by: u32 = 149 - exp;
            proof {
                lemma_fraction_part(sig as nat, exp as nat, by as nat);
                lemma2_to64();
            }
            if by >= 25 {
                proof {
                    if by > 25 {
                        lemma_pow2_strictly_increases(25, by as nat);
                    }
                    let (p, c) = (pow2(by as nat), 2 * sig as nat + pow2(by as nat));
                    assert(c / (2 * p) == 0) by (nonlinear_arith)
                        requires
                            c < 2 * p,
                    ;
                }
                0
            } else {
                proof {
                    if by < 24 {
                        lemma_pow2_strictly_increases(by as nat, 24);
                    }
                    lemma_pow2_pos(by as nat);
                    lemma_u32_shl_is_mul(1, by);
                    let (p, c) = (pow2(by as nat), (2 * sig + pow2(by as nat)) as nat);
                    assert(c / (2 * p) <= c) by (nonlinear_arith)
                        requires
                            p > 0,
                            c >= 0,
                    ;
                }
                let one: u32 = 1u32 << by;
                ((2 * sig + one) / (2 * one)) as i32
            }
        };
        if self.is_negative() {
            -size
        } else {
            size
        }
    }

    /// Add two finite numbers, of which `hi` lies on the coarser grid.
    fn add_finite(hi: Binary32, lo: Binary32) -> (res: Binary32)
        requires
            hi.finite(),
            lo.finite(),
            hi.magnitude() / BINADE as nat >= lo.magnitude() / BINADE as nat,
        ensures
            res == sum(hi, lo),
    {
        let mh: u32 = hi.magnitude_bits();
        let ml: u32 = lo.magnitude_bits();
        let (sh, eh): (u32, u32) = Binary32::decompose(mh);
        let (sl, el): (u32, u32) = Binary32::decompose(ml);
        let ghost exact_sum = hi.value() + lo.value();
        assert(eh >= el);
        let apart: u32 = eh - el;
        proof {
            lemma2_to64();
            lemma2_to64_rest();
        }
        if apart <= 38 {
            proof {
                if apart < 38 {
                    lemma_pow2_strictly_increases(apart as nat, 38);
                }
                let p = pow2(apart as nat);
                assert(sh * p <= 0xff_ffff * 0x40_0000_0000) by (nonlinear_arith)
                    requires
                        sh <= 0xff_ffff,
                        p <= 0x40_0000_0000,
                ;
                lemma_u64_shl_is_mul(sh as u64, apart as u64);
            }
            let wide: u64 = (sh as u64) << (apart as u64);
            let a: i64 = if hi.is_negative() {
                -(wide as i64)
            } else {
                wide as i64
            };
            let b: i64 = if lo.is_negative() {
                -(sl as i64)
            } else {
                sl as i64
            };
            let total: i64 = a + b;
            proof {
                let (p, q, r) = (pow2(apart as nat), pow2(el as nat), pow2(eh as nat));
                lemma_pow2_adds(apart as nat, el as nat);
                lemma_pow2_pos(el as nat);
                assert(wide * q == sh * r) by (nonlinear_arith)
                    requires
                        wide == sh * p,
                        r == p * q,
                ;
                assert((-(wide as int)) * q == -(wide * q) && (-(sl as int)) * q == -(sl * q))
                    by (nonlinear_arith);
                assert(hi.value() == a * q && lo.value() == b * q);
                assert(exact_sum == total * q) by (nonlinear_arith)
                    requires
                        exact_sum == a * q + b * q,
                        total == a + b,
                ;
                assert((exact_sum == 0 <==> total == 0) && (exact_sum < 0 <==> total < 0))
                    by (nonlinear_arith)
                    requires
                        exact_sum == total * q,
                        q > 0,
                ;
            }
            if total == 0 {
                return Binary32::with_sign(hi.is_negative() && lo.is_negative(), 0);
            }
            let sig: u64 = if total < 0 {
                (-total) as u64
            } else {
                total as u64
            };
            let ghost num = abs(exact_sum);
            proof {
                let q = pow2(el as nat);
                assert(num * 1 == sig * q * 1 && num * 1 < (sig + 1) * q * 1) by (nonlinear_arith)
                    requires
                        num == exact_sum || num == -exact_sum,
                        sig == total || sig == -total,
                        num == exact_sum <==> sig == total,
                        exact_sum == total * q,
                        q > 0,
                ;
            }
            return Binary32::rounded(
                total < 0,
                sig,
                el as i32,
                true,
                Ghost(num),
                Ghost(1),
                Ghost(0),
                Ghost(el as nat),
            );
        }
        // The smaller number reaches below the last bit kept: floor it onto the finer grid.
        let below: u32 = apart - 38;
        let step: u32 = if below >= 24 {
            0x100_0000
        } else {
            proof {
                if below < 23 {
                    lemma_pow2_strictly_increases(below as nat, 23);
                }
                lemma_u32_shl_is_mul(1, below);
            }
            1u32 << below
        };
        proof {
            if below < 24 {
                lemma_pow2_pos(below as nat);
            } else if below > 24 {
                lemma_pow2_strictly_increases(24, below as nat);
            }
        }
        let whole_steps: u32 = sl / step;
        let lost: bool = sl % step != 0;
        let wide: u64 = sh as u64 * 0x40_0000_0000;
        let same: bool = hi.is_negative() == lo.is_negative();
        let sig: u64 = if same {
            wide + whole_steps as u64
        } else {
            wide - whole_steps as u64 - if lost { 1u64 } else { 0u64 }
        };
        let ghost num = abs(exact_sum);
        let ghost b = (eh - 38) as nat;
        proof {
            lemma_floor_on_grid(sl as nat, step as nat, pow2(below as nat), whole_steps as nat);
            lemma_add_apart(hi, lo, sh as nat, eh as nat, sl as nat, el as nat, below as nat, whole_steps as nat, lost, sig as nat);
            assert(num * pow2(0) == num) by (nonlinear_arith)
                requires
                    pow2(0) == 1,
            ;
            let p = pow2(b);
            assert(sig * p * 1 == sig * p && (sig + 1) * p * 1 == (sig + 1) * p) by (nonlinear_arith);
        }
        Binary32::rounded(
            hi.is_negative(),
            sig,
            eh as i32 - 38,
            !lost,
            Ghost(num),
            Ghost(1),
            Ghost(0),
            Ghost(b),
        )
    }
}

/// At exponents of 149 and above a number is whole.
proof fn lemma_whole_part(sig: nat, exp: nat)
    requires
        exp >= 149,
    ensures
        round_half_up(sig * pow2(exp), pow2(149)) == sig * pow2((exp - 149) as nat),
{
    let (p, q) = (pow2(149), pow2((exp - 149) as nat));
    lemma_pow2_adds(149, (exp - 149) as nat);
    lemma_pow2_pos(149);
    let n = sig * q;
    assert(2 * (sig * pow2(exp)) + p == n * (2 * p) + p) by (nonlinear_arith)
        requires
            pow2(exp) == p * q,
            n == sig * q,
    ;
    vstd::arithmetic::div_mod::lemma_fundamental_div_mod_converse(
        (2 * (sig * pow2(exp)) + p) as int,
        2 * p as int,
        n as int,
        p as int,
    );
}

/// Below exponent 149 the common power of two cancels.
proof fn lemma_fraction_part(sig: nat, exp: nat, by: nat)
    requires
        exp + by == 149,
    ensures
        round_half_up(sig * pow2(exp), pow2(149)) == (2 * sig + pow2(by)) / (2 * pow2(by)),
{
    let (p, q) = (pow2(exp), pow2(by));
    lemma_pow2_adds(exp, by);
    lemma_pow2_pos(exp);
    lemma_pow2_pos(by);
    let (x, d) = (2 * sig + q, 2 * q);
    assert(2 * (sig * p) + pow2(149) == p * x && 2 * pow2(149) == p * d) by (nonlinear_arith)
        requires
            pow2(149) == p * q,
            x == 2 * sig + q,
            d == 2 * q,
    ;
    vstd::arithmetic::div_mod::lemma_div_denominator(p * x as int, p as int, d as int);
    vstd::arithmetic::div_mod::lemma_div_multiples_vanish(x as int, p as int);
}

/// Dividing by a step capped at `2^24` floors a 24-bit significand as the full step does.
proof fn lemma_floor_on_grid(sl: nat, step: nat, full: nat, floor: nat)
    requires
        sl < 0x100_0000,
        step > 0,
        floor == sl / step,
        step == full || step == 0x100_0000 && full >= step,
    ensures
        floor * full <= sl < (floor + 1) * full,
        sl % step == 0 <==> sl == floor * full,
        floor < 0x100_0000,
{
    vstd::arithmetic::div_mod::lemma_fundamental_div_mod(sl as int, step as int);
    assert(floor <= sl) by (nonlinear_arith)
        requires
            floor * step <= sl,
            step >= 1,
    ;
    let r = sl % step;
    if step == full {
        assert(floor * full <= sl < (floor + 1) * full && (r == 0 <==> sl == floor * full))
            by (nonlinear_arith)
            requires
                sl == full * floor + r,
                0 <= r < full,
        ;
    } else {
        assert(floor == 0 && r == sl);
        assert(0 * full == 0 && 1 * full == full) by (nonlinear_arith);
    }
}

/// The sum of two numbers far apart, floored onto a grid 38 bits finer than the larger one's.
proof fn lemma_add_apart(
    hi: Binary32,
    lo: Binary32,
    sh: nat,
    eh: nat,
    sl: nat,
    el: nat,
    below: nat,
    floor: nat,
    lost: bool,
    sig: nat,
)
    requires
        units(hi.magnitude()) == sh * pow2(eh),
        units(lo.magnitude()) == sl * pow2(el),
        eh == el + below + 38,
        0x80_0000 <= sh < 0x100_0000,
        sl < 0x100_0000,
        below >= 1,
        floor * pow2(below) <= sl < (floor + 1) * pow2(below),
        lost <==> sl != floor * pow2(below),
        floor < 0x100_0000,
        sig == if hi.negative() == lo.negative() {
            (sh * 0x40_0000_0000 + floor) as int
        } else {
            sh * 0x40_0000_0000 - floor - if lost { 1int } else { 0int }
        },
    ensures
        ({
            let exact = hi.value() + lo.value();
            let p = pow2((eh - 38) as nat);
            &&& exact != 0
            &&& exact < 0 <==> hi.negative()
            &&& sig * p <= abs(exact) < (sig + 1) * p
            &&& !lost <==> abs(exact) == sig * p
        }),
{
    lemma2_to64();
    lemma2_to64_rest();
    let exact = hi.value() + lo.value();
    let (p, pl, pb) = (pow2((eh - 38) as nat), pow2(el), pow2(below));
    lemma_pow2_adds(el, below);
    lemma_pow2_adds((eh - 38) as nat, 38);
    lemma_pow2_pos(el);
    lemma_pow2_pos(below);
    let wide = sh * 0x40_0000_0000;
    let uh = units(hi.magnitude());
    let ul = units(lo.magnitude());
    assert(uh == wide * p) by (nonlinear_arith)
        requires
            uh == sh * (p * 0x40_0000_0000),
            wide == sh * 0x40_0000_0000,
    ;
    assert(p == pl * pb && p > 0) by (nonlinear_arith)
        requires
            p == pl * pb,
            pl > 0,
            pb > 0,
    ;
    assert(floor * p <= ul < (floor + 1) * p && (ul == floor * p <==> sl == floor * pb))
        by (nonlinear_arith)
        requires
            ul == sl * pl,
            p == pl * pb,
            pl > 0,
            floor * pb <= sl < (floor + 1) * pb,
    ;
    assert(ul < uh) by (nonlinear_arith)
        requires
            ul < (floor + 1) * p,
            uh == wide * p,
            floor + 1 <= wide,
            p > 0,
    ;
    if hi.negative() == lo.negative() {
        assert(abs(exact) == uh + ul);
        assert(sig * p <= uh + ul < (sig + 1) * p && (uh + ul == sig * p <==> ul == floor * p))
            by (nonlinear_arith)
            requires
                uh == wide * p,
                sig == wide + floor,
                floor * p <= ul < (floor + 1) * p,
        ;
    } else {
        assert(abs(exact) == uh - ul);
        if lost {
            assert(sig * p <= uh - ul < (sig + 1) * p && uh - ul != sig * p) by (nonlinear_arith)
                requires
                    uh == wide * p,
                    sig == wide - floor - 1,
                    floor * p < ul < (floor + 1) * p,
            ;
        } else {
            assert(sig * p <= uh - ul < (sig + 1) * p && uh - ul == sig * p) by (nonlinear_arith)
                requires
                    uh == wide * p,
                    sig == wide - floor,
                    ul == floor * p,
                    p > 0,
            ;
        }
    }
}

} // verus!
