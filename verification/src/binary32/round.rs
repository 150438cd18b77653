//! Rounding a significand and an exponent to the nearest magnitude.

use vstd::arithmetic::power2::*;
use vstd::bits::*;
use vstd::prelude::*;

use crate::binary32::model::{lemma_units_grid, lemma_units_increase, rounds_to, units};

verus! {

/// `num / den` brought to a grid of step `2^exp`, as a ratio of naturals.
pub open spec fn at_step(num: nat, den: nat, exp: int) -> (nat, nat) {
    if exp >= 0 {
        (num, den * pow2(exp as nat))
    } else {
        (num * pow2((-exp) as nat), den)
    }
}

/// Whether `sig * 2^exp` is `num / den` rounded down to the grid of step `2^exp`, with `exact`
/// telling whether nothing was lost.
pub open spec fn brackets(num: nat, den: nat, sig: nat, exp: int, exact: bool) -> bool {
    let (n, d) = at_step(num, den, exp);
    &&& sig * d <= n < (sig + 1) * d
    &&& exact <==> n == sig * d
}

/// Rounding up or down between two neighbours of one grid gives the nearest magnitude.
proof fn lemma_round_step(num: nat, den: nat, q: nat, k: nat, up: bool)
    requires
        den > 0,
        q <= 253,
        k < 0x100_0000,
        k >= 0x80_0000 || q == 0,
        k * pow2(q) * den <= num < (k + 1) * pow2(q) * den,
        ({
            let mid = (2 * k + 1) * pow2(q) * den;
            if up {
                2 * num > mid || 2 * num == mid && k % 2 == 1
            } else {
                2 * num < mid || 2 * num == mid && k % 2 == 0
            }
        }),
    ensures
        rounds_to(num, den, q * 0x80_0000 + k + if up { 1nat } else { 0nat }),
{
    let m = q * 0x80_0000 + k;
    let mid = (2 * k + 1) * pow2(q) * den;
    lemma_units_grid(q, k);
    lemma_units_grid(q, k + 1);
    assert(units(m) == k * pow2(q) && units(m + 1) == (k + 1) * pow2(q));
    assert((units(m) + units(m + 1)) * den == mid) by (nonlinear_arith)
        requires
            units(m) == k * pow2(q),
            units(m + 1) == (k + 1) * pow2(q),
            mid == (2 * k + 1) * pow2(q) * den,
    ;
    if up {
        if m + 1 < 0x7f80_0000 {
            lemma_units_increase(m + 1, m + 2);
            assert(2 * num < (units(m + 1) + units(m + 2)) * den) by (nonlinear_arith)
                requires
                    num < units(m + 1) * den,
                    units(m + 1) < units(m + 2),
                    den > 0,
            ;
        }
    } else if m > 0 {
        lemma_units_increase((m - 1) as nat, m);
        assert((units((m - 1) as nat) + units(m)) * den < 2 * num) by (nonlinear_arith)
            requires
                units(m) * den <= num,
                units((m - 1) as nat) < units(m),
                den > 0,
        ;
    }
}

/// A ratio of `2^277` units or more rounds to infinity.
proof fn lemma_round_overflow(num: nat, den: nat)
    requires
        den > 0,
        pow2(277) * den <= num,
    ensures
        rounds_to(num, den, 0x7f80_0000),
{
    let m: nat = 0x7f80_0000;
    lemma_pow2_adds(23, 254);
    lemma2_to64();
    assert(units(m) == pow2(277));
    lemma_units_increase((m - 1) as nat, m);
    assert((units((m - 1) as nat) + units(m)) * den < 2 * num) by (nonlinear_arith)
        requires
            units(m) * den <= num,
            units((m - 1) as nat) < units(m),
            den > 0,
    ;
}

/// The number of bits of `x`.
pub fn bit_length(x: u64) -> (len: u32)
    ensures
        len <= 64,
        x < pow2(len as nat),
        len > 0 ==> x >= pow2((len - 1) as nat),
{
    let mut rest: u64 = x;
    let mut len: u32 = 0;
    proof {
        lemma2_to64();
        lemma2_to64_rest();
    }
    while rest > 0
        invariant
            len <= 64,
            rest as nat * pow2(len as nat) <= x < (rest + 1) * pow2(len as nat),
            rest == 0 && len > 0 ==> x >= pow2((len - 1) as nat),
            pow2(0) == 1,
            pow2(64) == 0x1_0000_0000_0000_0000,
        decreases rest,
    {
        proof {
            if len == 64 {
                assert(rest * pow2(64) >= pow2(64)) by (nonlinear_arith)
                    requires
                        rest >= 1,
                ;
            }
            lemma_pow2_unfold((len + 1) as nat);
            let p = pow2(len as nat);
            let half = rest / 2;
            assert(half * (2 * p) <= rest * p && (rest + 1) * p <= (half + 1) * (2 * p))
                by (nonlinear_arith)
                requires
                    half == rest / 2,
                    p >= 0,
            ;
            if half == 0 {
                assert(1 * p == p) by (nonlinear_arith);
            }
        }
        rest = rest / 2;
        len = len + 1;
    }
    assert((rest + 1) * pow2(len as nat) == pow2(len as nat)) by (nonlinear_arith)
        requires
            rest == 0,
    ;
    len
}

/// How a ratio that is bracketed on one grid compares to multiples of a coarser step.
proof fn lemma_coarser(num: nat, den: nat, exp: int, q: nat, shift: nat, c: nat)
    requires
        q - exp == shift,
    ensures
        ({
            let (n, d) = at_step(num, den, exp);
            &&& c * pow2(shift) * d <= n <==> c * pow2(q) * den <= num
            &&& c * pow2(shift) * d == n <==> c * pow2(q) * den == num
        }),
{
    let (n, d) = at_step(num, den, exp);
    let pq = pow2(q);
    let ps = pow2(shift);
    if exp >= 0 {
        let p = pow2(exp as nat);
        lemma_pow2_adds(shift, exp as nat);
        assert(pq == ps * p);
        assert(c * ps * d == c * pq * den) by (nonlinear_arith)
            requires
                d == den * p,
                pq == ps * p,
        ;
    } else {
        let p = pow2((-exp) as nat);
        lemma_pow2_pos((-exp) as nat);
        lemma_pow2_adds(q, (-exp) as nat);
        assert(ps == pq * p);
        assert(c * ps * d == (c * pq * den) * p) by (nonlinear_arith)
            requires
                d == den,
                ps == pq * p,
        ;
        let a = c * pq * den;
        assert((a * p <= num * p <==> a <= num) && (a * p == num * p <==> a == num))
            by (nonlinear_arith)
            requires
                p > 0,
        ;
    }
}

/// A significand that lies on the result's grid already is kept as it is.
proof fn lemma_finish_exact(num: nat, den: nat, sig: nat, exp: nat, q: nat, by: nat)
    requires
        den > 0,
        q + by == exp,
        q <= 253,
        brackets(num, den, sig, exp as int, true),
        sig * pow2(by) < 0x100_0000,
        sig * pow2(by) >= 0x80_0000 || q == 0,
    ensures
        rounds_to(num, den, q * 0x80_0000 + sig * pow2(by)),
{
    let (pe, pb, pq) = (pow2(exp), pow2(by), pow2(q));
    lemma_pow2_adds(q, by);
    lemma_pow2_pos(q);
    let k = sig * pb;
    assert(num == k * pq * den) by (nonlinear_arith)
        requires
            num == sig * (den * pe),
            pe == pq * pb,
            k == sig * pb,
    ;
    assert(num < (k + 1) * pq * den && 2 * num < (2 * k + 1) * pq * den) by (nonlinear_arith)
        requires
            num == k * pq * den,
            pq > 0,
            den > 0,
    ;
    lemma_round_step(num, den, q, k, false);
}

/// A significand below half of the smallest unit rounds to zero.
proof fn lemma_finish_tiny(num: nat, den: nat, sig: nat, exp: int, shift: nat, exact: bool)
    requires
        den > 0,
        exp + shift == 0,
        shift >= 64,
        sig < 0x8000_0000_0000_0000,
        brackets(num, den, sig, exp, exact),
    ensures
        rounds_to(num, den, 0),
{
    let (n, d) = at_step(num, den, exp);
    lemma2_to64();
    lemma2_to64_rest();
    if shift > 64 {
        lemma_pow2_strictly_increases(64, shift);
    }
    let ps = pow2(shift);
    let p = pow2((-exp) as nat);
    assert(2 * n == (2 * num) * p) by (nonlinear_arith)
        requires
            n == num * p,
    ;
    assert(2 * n < 1 * ps * d) by (nonlinear_arith)
        requires
            n < (sig + 1) * d,
            2 * (sig + 1) <= ps,
    ;
    lemma_coarser(2 * num, den, exp, 0, shift, 1);
    assert(0 * pow2(0) * den == 0 && 1 * pow2(0) * den == den) by (nonlinear_arith)
        requires
            pow2(0) == 1,
    ;
    assert(2 * num < den);
    lemma_round_step(num, den, 0, 0, false);
}

/// Dropping `shift` bits and rounding by what was dropped gives the nearest magnitude.
proof fn lemma_finish_round(num: nat, den: nat, sig: nat, exp: int, exact: bool, q: nat, shift: nat, kept: nat, half: nat, rem: nat)
    requires
        den > 0,
        q - exp == shift,
        shift >= 1,
        q <= 253,
        half == pow2((shift - 1) as nat),
        sig == kept * (2 * half) + rem,
        rem < 2 * half,
        kept < 0x100_0000,
        kept >= 0x80_0000 || q == 0,
        brackets(num, den, sig, exp, exact),
    ensures
        ({
            let up = rem > half || rem == half && (!exact || kept % 2 == 1);
            rounds_to(num, den, q * 0x80_0000 + kept + if up { 1nat } else { 0nat })
        }),
{
    let up = rem > half || rem == half && (!exact || kept % 2 == 1);
    let (n, d) = at_step(num, den, exp);
    let ps = pow2(shift);
    lemma_pow2_unfold(shift);
    assert(ps == 2 * half);
    let (n2, d2) = at_step(2 * num, den, exp);
    assert(n2 == 2 * n && d2 == d) by (nonlinear_arith)
        requires
            (n, d) == at_step(num, den, exp),
            (n2, d2) == at_step(2 * num, den, exp),
    ;
    assert(kept * ps * d <= n < (kept + 1) * ps * d) by (nonlinear_arith)
        requires
            sig * d <= n < (sig + 1) * d,
            sig == kept * ps + rem,
            rem + 1 <= ps,
    ;
    lemma_coarser(num, den, exp, q, shift, kept);
    lemma_coarser(num, den, exp, q, shift, kept + 1);
    let c = 2 * kept + 1;
    lemma_coarser(2 * num, den, exp, q, shift, c);
    // The midpoint is c * ps * d against 2 * n, that is (kept * ps + half) * d against n.
    assert(c * ps * d == 2 * ((kept * ps + half) * d)) by (nonlinear_arith)
        requires
            c == 2 * kept + 1,
            ps == 2 * half,
    ;
    let mid = kept * ps + half;
    if rem > half {
        assert(mid * d < n) by (nonlinear_arith)
            requires
                sig * d <= n < (sig + 1) * d,
                sig >= mid + 1,
        ;
    } else if rem == half {
        assert(sig == mid);
    } else {
        assert(n < mid * d) by (nonlinear_arith)
            requires
                n < (sig + 1) * d,
                sig + 1 <= mid,
        ;
    }
    lemma_round_step(num, den, q, kept, up);
}

/// The magnitude nearest to a ratio that `sig * 2^exp` brackets.
pub fn round_significand(sig: u64, exp: i32, exact: bool, Ghost(num): Ghost<nat>, Ghost(den): Ghost<nat>) -> (m: u32)
    requires
        den > 0,
        sig < 0x8000_0000_0000_0000,
        -1000 <= exp <= 1000,
        brackets(num, den, sig as nat, exp as int, exact),
        exact || sig >= 0x400_0000,
    ensures
        rounds_to(num, den, m as nat),
{
    let ghost (n, d) = at_step(num, den, exp as int);
    proof {
        lemma2_to64();
        lemma2_to64_rest();
        if exp >= 0 {
            lemma_pow2_pos(exp as nat);
            assert(d > 0) by (nonlinear_arith)
                requires
                    d == den * pow2(exp as nat),
                    den > 0,
                    pow2(exp as nat) > 0,
            ;
        }
    }
    if sig == 0 {
        proof {
            lemma_coarser(num, den, exp as int, if exp > 0 { exp as nat } else { 0 }, if exp > 0 { 0 } else { (-exp) as nat }, 0);
            assert(0 * d == 0) by (nonlinear_arith);
            assert(num == 0);
            lemma_round_step(0, den, 0, 0, false);
        }
        return 0;
    }
    let len: u32 = bit_length(sig);
    let top: i32 = len as i32 + exp;
    let q: i32 = if top > 24 {
        top - 24
    } else {
        0
    };
    let shift: i32 = q - exp;
    proof {
        if len > 63 {
            assert(len == 64);
        }
        if sig >= 0x400_0000 && len < 27 {
            if len < 26 {
                lemma_pow2_strictly_increases(len as nat, 26);
            }
            assert(false);
        }
    }
    if q > 253 {
        proof {
            assert(exp >= 0 || len as int + exp > 277);
            // sig >= 2^(len - 1), so the value is at least 2^(top - 1) >= 2^277.
            let e = (top - 1) as nat;
            lemma_coarser(num, den, exp as int, e, (len - 1) as nat, 1);
            let p = pow2((len - 1) as nat);
            assert(1 * p * d <= sig * d) by (nonlinear_arith)
                requires
                    p <= sig,
            ;
            assert(pow2(e) * den <= num);
            if e > 277 {
                lemma_pow2_strictly_increases(277, e);
            }
            let (a, b) = (pow2(277), pow2(e));
            assert(a * den <= b * den) by (nonlinear_arith)
                requires
                    a <= b,
            ;
            lemma_round_overflow(num, den);
        }
        return 0x7f80_0000;
    }
    let base: u32 = q as u32 * 0x80_0000;
    if shift <= 0 {
        let by: u64 = (-shift) as u64;
        proof {
            // len + by <= 24, so the shifted significand stays below 2^24.
            assert(len as int + by <= 24);
            let (l, b, p) = (len as nat, by as nat, pow2(by as nat));
            lemma_pow2_adds(l, b);
            if l + b < 24 {
                lemma_pow2_strictly_increases(l + b, 24);
            }
            lemma_pow2_pos(b);
            assert(sig * p < pow2(l) * p) by (nonlinear_arith)
                requires
                    sig < pow2(l),
                    p > 0,
            ;
            lemma_u64_shl_is_mul(sig, by);
        }
        let kept: u64 = sig << by;
        proof {
            let k = kept as nat;
            let (b, p) = (by as nat, pow2(by as nat));
            if q > 0 {
                let l = (len - 1) as nat;
                lemma_pow2_adds(l, b);
                assert(sig * p >= pow2(l) * p) by (nonlinear_arith)
                    requires
                        sig >= pow2(l),
                ;
                assert(l + b == 23);
            }
            lemma_finish_exact(num, den, sig as nat, exp as nat, q as nat, b);
        }
        return base + kept as u32;
    }
    if shift >= 64 {
        proof {
            lemma_finish_tiny(num, den, sig as nat, exp as int, shift as nat, exact);
        }
        return 0;
    }
    proof {
        let s = (shift - 1) as nat;
        if s < 62 {
            lemma_pow2_strictly_increases(s, 62);
        }
        lemma_pow2_pos(s);
        lemma_pow2_unfold(shift as nat);
        lemma_u64_shl_is_mul(1, s as u64);
    }
    let half: u64 = 1u64 << (shift - 1) as u64;
    let kept: u64 = sig / (2 * half);
    let rem: u64 = sig % (2 * half);
    let up: bool = rem > half || rem == half && (!exact || kept % 2 == 1);
    proof {
        let (k, h, r, l, t) = (kept as nat, half as nat, rem as nat, len as nat, shift as nat);
        vstd::arithmetic::div_mod::lemma_fundamental_div_mod(sig as int, 2 * half as int);
        assert(sig == k * (2 * h) + r) by (nonlinear_arith)
            requires
                sig == (2 * h) * k + r,
        ;
        let p = pow2(t);
        assert(k < 0x100_0000) by {
            if l <= t {
                if l < t {
                    lemma_pow2_strictly_increases(l, t);
                }
                assert(k == 0) by (nonlinear_arith)
                    requires
                        k * p <= sig < p,
                ;
            } else {
                let u = (l - t) as nat;
                lemma_pow2_adds(u, t);
                if u < 24 {
                    lemma_pow2_strictly_increases(u, 24);
                }
                assert(k < pow2(u)) by (nonlinear_arith)
                    requires
                        k * p <= sig < pow2(u) * p,
                ;
            }
        }
        if q > 0 {
            assert(l - t == 24);
            lemma_pow2_adds(23, t);
            assert(sig < (k + 1) * p) by (nonlinear_arith)
                requires
                    sig == k * p + r,
                    r < p,
            ;
            assert(k >= 0x80_0000) by (nonlinear_arith)
                requires
                    0x80_0000 * p <= sig,
                    sig < (k + 1) * p,
            ;
        }
        lemma_finish_round(num, den, sig as nat, exp as int, exact, q as nat, t, k, h, r);
    }
    base + kept as u32 + if up { 1 } else { 0 }
}

} // verus!
