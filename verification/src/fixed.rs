//! Exact Q32.32 fixed-point arithmetic: iterated scaled products,
//! bounded root search, and integer square roots.
//!
//! A ratio `r` in Q32.32 represents the rational `r / GROWTH_ONE`.
//! Multiplying a value `x` by such a ratio is `x * r / GROWTH_ONE`,
//! rounded toward zero; [`powfix`] iterates that product, which is the
//! exact meaning of "raising a ratio to a power" in this number model.

use vstd::prelude::*;
use vstd::arithmetic::div_mod::{
    lemma_div_is_ordered, lemma_div_multiples_vanish, lemma_div_pos_is_pos,
    lemma_fundamental_div_mod, lemma_hoist_over_denominator,
};
use vstd::arithmetic::mul::{
    lemma_mul_inequality, lemma_mul_is_commutative, lemma_mul_is_distributive_add, lemma_mul_left_inequality,
    lemma_mul_nonnegative, lemma_mul_upper_bound,
};

verus! {

use crate::types::GROWTH_ONE;

/// `2^64`, the exclusive upper bound of `u64` values.
pub const WIDE_ONE: u128 = 18_446_744_073_709_551_616;

/// `2^96`: the largest magnitude the scaled ratios handled here reach.
pub const WIDE_LIMIT: u128 = 79_228_162_514_264_337_593_543_950_336;

/// The value reached after applying the scaled product by `r` to
/// `GROWTH_ONE` (that is, to one) `n` times: the fixed-point meaning of
/// `r` raised to the `n`-th power.
pub open spec fn powfix(r: int, n: nat) -> int
    decreases n,
{
    if n == 0 {
        GROWTH_ONE as int
    } else {
        powfix(r, (n - 1) as nat) * r / (GROWTH_ONE as int)
    }
}

pub proof fn lemma_powfix_nonneg(r: int, n: nat)
    requires
        0 <= r,
    ensures
        0 <= powfix(r, n),
    decreases n,
{
    if n > 0 {
        lemma_powfix_nonneg(r, (n - 1) as nat);
        lemma_mul_nonnegative(powfix(r, (n - 1) as nat), r);
        lemma_div_pos_is_pos(powfix(r, (n - 1) as nat) * r, GROWTH_ONE as int);
    }
}

/// Raising one to any power yields one.
pub proof fn lemma_powfix_one(n: nat)
    ensures
        powfix(GROWTH_ONE as int, n) == GROWTH_ONE as int,
    decreases n,
{
    if n > 0 {
        lemma_powfix_one((n - 1) as nat);
        lemma_mul_is_commutative(GROWTH_ONE as int, GROWTH_ONE as int);
        lemma_div_multiples_vanish(GROWTH_ONE as int, GROWTH_ONE as int);
    }
}

/// For a ratio of at least one, powers do not shrink as the exponent grows.
pub proof fn lemma_powfix_mono_n(r: int, m: nat, n: nat)
    requires
        GROWTH_ONE <= r,
        m <= n,
    ensures
        powfix(r, m) <= powfix(r, n),
    decreases n - m,
{
    if m < n {
        let p = powfix(r, (n - 1) as nat);
        lemma_powfix_mono_n(r, m, (n - 1) as nat);
        lemma_powfix_nonneg(r, (n - 1) as nat);
        lemma_mul_inequality(GROWTH_ONE as int, r, p);
        lemma_mul_is_commutative(GROWTH_ONE as int, p);
        lemma_mul_is_commutative(r, p);
        lemma_div_multiples_vanish(p, GROWTH_ONE as int);
        lemma_div_is_ordered(p * (GROWTH_ONE as int), p * r, GROWTH_ONE as int);
    }
}

/// Powers are monotone in the ratio.
pub proof fn lemma_powfix_mono_r(r1: int, r2: int, n: nat)
    requires
        0 <= r1 <= r2,
    ensures
        powfix(r1, n) <= powfix(r2, n),
    decreases n,
{
    if n > 0 {
        let p1 = powfix(r1, (n - 1) as nat);
        let p2 = powfix(r2, (n - 1) as nat);
        lemma_powfix_mono_r(r1, r2, (n - 1) as nat);
        lemma_powfix_nonneg(r1, (n - 1) as nat);
        lemma_mul_upper_bound(p1, p2, r1, r2);
        lemma_div_is_ordered(p1 * r1, p2 * r2, GROWTH_ONE as int);
    }
}

/// For an exponent of at least two, `2^64` taken as a Q32.32 ratio
/// overshoots every ratio of two `u64` quantities.
pub proof fn lemma_powfix_wide(n: nat)
    requires
        2 <= n,
    ensures
        powfix(WIDE_ONE as int, n) >= WIDE_LIMIT as int,
{
    let w = WIDE_ONE as int;
    let s = GROWTH_ONE as int;
    assert(powfix(w, 0) == s);
    lemma_mul_is_commutative(s, w);
    lemma_div_multiples_vanish(w, s);
    assert(powfix(w, 1) == w);
    assert(WIDE_ONE as int * WIDE_ONE as int == GROWTH_ONE as int * (WIDE_LIMIT as int))
        by (nonlinear_arith);
    lemma_div_multiples_vanish(WIDE_LIMIT as int, s);
    assert(powfix(w, 2) == WIDE_LIMIT as int);
    lemma_powfix_mono_n(w, 2, n);
}

/// Whether `r` raised to the `n`-th power stays within `limit`.
///
/// The scaled products are evaluated exactly, splitting each factor so
/// that no intermediate exceeds `u128`.
pub fn pow_le(r: u64, n: usize, limit: u128) -> (res: bool)
    requires
        GROWTH_ONE <= r,
        GROWTH_ONE as u128 <= limit,
        limit < WIDE_LIMIT,
    ensures
        res <==> powfix(r as int, n as nat) <= limit as int,
{
    let s: u128 = GROWTH_ONE as u128;
    let mut acc: u128 = s;
    let mut i: usize = 0;
    while i < n
        invariant
            i <= n,
            GROWTH_ONE <= r,
            GROWTH_ONE as u128 <= limit < WIDE_LIMIT,
            s == GROWTH_ONE as u128,
            acc == powfix(r as int, i as nat),
            acc <= limit,
        decreases n - i,
    {
        let ghost p_next = powfix(r as int, (i + 1) as nat);
        let r_hi: u128 = (r as u128) / s;
        let r_lo: u128 = (r as u128) % s;
        proof {
            lemma_fundamental_div_mod(r as int, s as int);
            assert(r_hi < WIDE_ONE);
            lemma_mul_upper_bound(acc as int, limit as int, r_hi as int, (s - 1) as int);
            lemma_mul_upper_bound(
                limit as int,
                (WIDE_LIMIT - 1) as int,
                (s - 1) as int,
                (s - 1) as int,
            );
            assert((WIDE_LIMIT - 1) * ((GROWTH_ONE as u128 - 1) as int) < u128::MAX)
                by (nonlinear_arith);
            lemma_mul_upper_bound(acc as int, limit as int, r_lo as int, (s - 1) as int);
            // acc * r == (acc * r_hi) * s + acc * r_lo
            lemma_mul_is_distributive_add(acc as int, r_hi as int * s as int, r_lo as int);
            assert(acc as int * (r_hi as int * s as int) == (acc as int * r_hi as int) * s as int)
                by (nonlinear_arith);
            // hence powfix(r, i+1) == acc * r_hi + acc * r_lo / s
            lemma_hoist_over_denominator(
                acc as int * r_lo as int,
                acc as int * r_hi as int,
                s as nat,
            );
            assert(p_next == acc as int * r_hi as int + acc as int * r_lo as int / s as int);
            lemma_mul_nonnegative(acc as int, r_lo as int);
            lemma_div_pos_is_pos(acc as int * r_lo as int, s as int);
        }
        let p1: u128 = acc * r_hi;
        if p1 > limit {
            proof {
                lemma_powfix_mono_n(r as int, (i + 1) as nat, n as nat);
            }
            return false;
        }
        let p2: u128 = acc * r_lo / s;
        let p: u128 = p1 + p2;
        proof {
            assert(p == p_next);
        }
        if p > limit {
            proof {
                lemma_powfix_mono_n(r as int, (i + 1) as nat, n as nat);
            }
            return false;
        }
        acc = p;
        i = i + 1;
    }
    true
}

/// The greatest Q32.32 ratio whose `n`-th power stays within `ratio`:
/// the fixed-point `n`-th root.
pub fn growth_root(ratio: u128, n: usize) -> (root: u64)
    requires
        2 <= n,
        GROWTH_ONE as u128 <= ratio,
        ratio < WIDE_LIMIT,
    ensures
        GROWTH_ONE <= root,
        powfix(root as int, n as nat) <= ratio as int,
        powfix(root as int + 1, n as nat) > ratio as int,
{
    let mut lo: u128 = GROWTH_ONE as u128;
    let mut hi: u128 = WIDE_ONE;
    proof {
        lemma_powfix_one(n as nat);
        lemma_powfix_wide(n as nat);
    }
    while hi - lo > 1
        invariant
            2 <= n,
            GROWTH_ONE as u128 <= ratio < WIDE_LIMIT,
            GROWTH_ONE as u128 <= lo < hi <= WIDE_ONE,
            powfix(lo as int, n as nat) <= ratio as int,
            powfix(hi as int, n as nat) > ratio as int,
        decreases hi - lo,
    {
        let mid: u128 = lo + (hi - lo) / 2;
        assert(lo < mid < hi);
        if pow_le(mid as u64, n, ratio) {
            lo = mid;
        } else {
            hi = mid;
        }
    }
    proof {
        assert(hi == lo + 1);
    }
    lo as u64
}

/// Whether `r` is the integer square root of `x`.
pub open spec fn is_sqrt(r: int, x: int) -> bool {
    0 <= r && r * r <= x && (r + 1) * (r + 1) > x
}

/// The integer square root of `x`: the greatest `r` with `r * r <= x`.
pub open spec fn sqrt_floor(x: int) -> int {
    choose|r: int| is_sqrt(r, x)
}

/// The integer square root is unique.
pub proof fn lemma_sqrt_unique(r: int, x: int)
    requires
        is_sqrt(r, x),
    ensures
        sqrt_floor(x) == r,
{
    let rc = sqrt_floor(x);
    assert(is_sqrt(rc, x));
    if rc < r {
        lemma_mul_inequality(rc + 1, r, rc + 1);
        lemma_mul_left_inequality(r, rc + 1, r);
    }
    if r < rc {
        lemma_mul_inequality(r + 1, rc, r + 1);
        lemma_mul_left_inequality(rc, r + 1, rc);
    }
}

/// The integer square root: the greatest `r` with `r * r <= x`.
pub fn isqrt(x: u128) -> (r: u64)
    ensures
        is_sqrt(r as int, x as int),
        r as int == sqrt_floor(x as int),
{
    if x == 0 {
        proof {
            assert(is_sqrt(0, 0)) by (nonlinear_arith);
            lemma_sqrt_unique(0, 0);
        }
        return 0;
    }
    let mut lo: u128 = 0;
    let mut hi: u128 = WIDE_ONE;
    proof {
        assert(WIDE_ONE as int * WIDE_ONE as int > u128::MAX) by (nonlinear_arith);
    }
    while hi - lo > 1
        invariant
            lo < hi <= WIDE_ONE,
            lo as int * lo as int <= x as int,
            hi as int * hi as int > x as int,
        decreases hi - lo,
    {
        let mid: u128 = lo + (hi - lo) / 2;
        assert(lo < mid < hi);
        proof {
            lemma_mul_upper_bound(mid as int, (WIDE_ONE - 1) as int, mid as int, (
            WIDE_ONE - 1) as int);
            assert((WIDE_ONE - 1) * (WIDE_ONE - 1) < u128::MAX) by (nonlinear_arith);
        }
        let sq: u128 = mid * mid;
        if sq <= x {
            lo = mid;
        } else {
            hi = mid;
        }
    }
    proof {
        assert(hi == lo + 1);
        lemma_sqrt_unique(lo as int, x as int);
    }
    lo as u64
}

/// `x` capped at `u64::MAX`.
pub open spec fn sat64(x: int) -> int {
    if x > u64::MAX as int {
        u64::MAX as int
    } else {
        x
    }
}

/// The exact quotient `base * i / n`, reported as `None` when it
/// exceeds `u64::MAX`.
///
/// The product is evaluated piecewise (`base = q * n + rem`) so that no
/// intermediate exceeds `u128`.
pub fn mul_div_small(base: u128, i: usize, n: usize) -> (out: Option<u64>)
    requires
        0 < n,
        i <= n,
        base <= WIDE_LIMIT,
    ensures
        match out {
            Some(v) => v as int == base as int * i as int / n as int,
            None => base as int * i as int / n as int > u64::MAX as int,
        },
{
    let q: u128 = base / (n as u128);
    let rem: u128 = base % (n as u128);
    proof {
        lemma_fundamental_div_mod(base as int, n as int);
        // q * i stays within base
        lemma_mul_inequality(i as int, n as int, q as int);
        lemma_mul_is_commutative(i as int, q as int);
        lemma_mul_is_commutative(n as int, q as int);
        lemma_mul_nonnegative(rem as int, i as int);
        lemma_mul_upper_bound(rem as int, (WIDE_ONE - 1) as int, i as int, (WIDE_ONE - 1) as int);
        assert((WIDE_ONE - 1) * (WIDE_ONE - 1) < u128::MAX) by (nonlinear_arith);
        // rem * i / n <= i
        lemma_mul_inequality(rem as int, n as int, i as int);
        lemma_div_is_ordered(rem as int * i as int, n as int * i as int, n as int);
        lemma_mul_is_commutative(n as int, i as int);
        lemma_div_multiples_vanish(i as int, n as int);
        lemma_div_pos_is_pos(rem as int * i as int, n as int);
    }
    let t1: u128 = q * (i as u128);
    let t2: u128 = rem * (i as u128) / (n as u128);
    let total: u128 = t1 + t2;
    proof {
        // base * i == (q * i) * n + rem * i, so dividing by n hoists q * i out.
        assert(base as int * i as int == (q as int * i as int) * n as int + rem as int
            * i as int) by (nonlinear_arith)
            requires
                base as int == n as int * q as int + rem as int,
        ;
        lemma_hoist_over_denominator(rem as int * i as int, q as int * i as int, n as nat);
        assert(total as int == base as int * i as int / n as int);
    }
    if total > u64::MAX as u128 {
        None
    } else {
        Some(total as u64)
    }
}

/// `x * r / GROWTH_ONE`, saturating at `u64::MAX`.
pub open spec fn scale_by_spec(x: int, r: int) -> int {
    let raw = x * r / (GROWTH_ONE as int);
    if raw > u64::MAX as int {
        u64::MAX as int
    } else {
        raw
    }
}

/// Applies a Q32.32 ratio to a value, saturating at `u64::MAX`.
pub fn scale_by(x: u64, r: u64) -> (out: u64)
    ensures
        out as int == scale_by_spec(x as int, r as int),
{
    proof {
        lemma_mul_upper_bound(x as int, (WIDE_ONE - 1) as int, r as int, (WIDE_ONE - 1) as int);
        assert((WIDE_ONE - 1) * (WIDE_ONE - 1) < u128::MAX) by (nonlinear_arith);
    }
    let wide: u128 = (x as u128) * (r as u128) / (GROWTH_ONE as u128);
    proof {
        lemma_mul_nonnegative(x as int, r as int);
        lemma_div_pos_is_pos(x as int * r as int, GROWTH_ONE as int);
    }
    if wide > u64::MAX as u128 {
        u64::MAX
    } else {
        wide as u64
    }
}

} // verus!
