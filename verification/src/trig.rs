//! Fixed-point sine and cosine on whole turns, and the window taper
//! values built from them.
//!
//! A phase is a fraction of a full turn in Q32.32 (`GROWTH_ONE` is one
//! full turn); results are Q32.32 in `[-1, 1]`.  The quarter-turn
//! polynomial is the sine series through the thirteenth power, evaluated
//! exactly in integers, so every value here is a deterministic function
//! of its arguments that the specification pins down.

use vstd::prelude::*;
use vstd::arithmetic::div_mod::{
    lemma_div_is_ordered, lemma_div_multiples_vanish, lemma_div_pos_is_pos,
    lemma_mod_division_less_than_divisor,
};
use vstd::arithmetic::mul::{lemma_mul_inequality, lemma_mul_is_commutative, lemma_mul_nonnegative, lemma_mul_upper_bound};

verus! {

use crate::types::GROWTH_ONE;

/// A full turn in radians, in Q32.32: `2 * pi * 2^32`, rounded.
pub const TWO_PI_FIX: u64 = 26_986_075_409;

/// A quarter turn in Q32.32 phase units.
pub const QUARTER_TURN: u64 = 1_073_741_824;

/// An upper bound on the squared quarter-turn angle (in Q32.32 radians).
pub const ANGLE_SQ_MAX: u64 = 10_597_407_030;

/// One taper step of the sine series: `1 - (u * inner) / d` in Q32.32,
/// where `u` is the squared angle and `d` the series divisor.
pub open spec fn taper(u: int, inner: int, d: int) -> int {
    GROWTH_ONE - (u * inner / (GROWTH_ONE as int)) / d
}

/// The sine of a phase within the first quarter turn, in Q32.32.
pub open spec fn sin_quarter_spec(r: int) -> int {
    if r == QUARTER_TURN {
        GROWTH_ONE as int
    } else {
        let x = r * (TWO_PI_FIX as int) / (GROWTH_ONE as int);
        let u = x * x / (GROWTH_ONE as int);
        let t5 = taper(u, GROWTH_ONE as int, 156);
        let t4 = taper(u, t5, 110);
        let t3 = taper(u, t4, 72);
        let t2 = taper(u, t3, 42);
        let t1 = taper(u, t2, 20);
        let t0 = taper(u, t1, 6);
        let v = x * t0 / (GROWTH_ONE as int);
        if v > GROWTH_ONE {
            GROWTH_ONE as int
        } else {
            v
        }
    }
}

/// The sine of a phase given as a fraction of a turn, in Q32.32,
/// folded onto the first quarter by symmetry.
pub open spec fn sin_turns_spec(t: int) -> int {
    let tm = t % (GROWTH_ONE as int);
    let q = tm / (QUARTER_TURN as int);
    let r = tm % (QUARTER_TURN as int);
    if q == 0 {
        sin_quarter_spec(r)
    } else if q == 1 {
        sin_quarter_spec(QUARTER_TURN - r)
    } else if q == 2 {
        -sin_quarter_spec(r)
    } else {
        -sin_quarter_spec(QUARTER_TURN - r)
    }
}

/// The cosine of a phase given as a fraction of a turn, in Q32.32: the
/// sine a quarter turn later.
pub open spec fn cos_turns_spec(t: int) -> int {
    sin_turns_spec(t % (GROWTH_ONE as int) + QUARTER_TURN)
}

/// Within the first quarter turn the sine lies in `[0, 1]`.
pub proof fn lemma_sin_quarter_bounds(r: int)
    requires
        0 <= r <= QUARTER_TURN,
    ensures
        0 <= sin_quarter_spec(r) <= GROWTH_ONE,
{
    if r != QUARTER_TURN {
        let s = GROWTH_ONE as int;
        let x = r * (TWO_PI_FIX as int) / s;
        lemma_mul_nonnegative(r, TWO_PI_FIX as int);
        lemma_div_pos_is_pos(r * (TWO_PI_FIX as int), s);
        let u = x * x / s;
        lemma_mul_nonnegative(x, x);
        lemma_div_pos_is_pos(x * x, s);
        lemma_mul_inequality(r, QUARTER_TURN as int, TWO_PI_FIX as int);
        lemma_div_is_ordered(
            r * (TWO_PI_FIX as int),
            (QUARTER_TURN as int) * (TWO_PI_FIX as int),
            s,
        );
        assert((QUARTER_TURN as int) * (TWO_PI_FIX as int) / (GROWTH_ONE as int) == 6746518852)
            by (nonlinear_arith);
        lemma_mul_inequality(x, 6746518852int, x);
        lemma_mul_inequality(x, 6746518852int, 6746518852int);
        lemma_mul_is_commutative(x, 6746518852int);
        lemma_div_is_ordered(x * x, 6746518852int * 6746518852int, s);
        assert(6746518852int * 6746518852int / (GROWTH_ONE as int) == ANGLE_SQ_MAX)
            by (nonlinear_arith);
        lemma_taper_bounds(u, GROWTH_ONE as int, 156);
        lemma_taper_bounds(u, taper(u, GROWTH_ONE as int, 156), 110);
        lemma_taper_bounds(u, taper(u, taper(u, GROWTH_ONE as int, 156), 110), 72);
        let t3 = taper(u, taper(u, taper(u, GROWTH_ONE as int, 156), 110), 72);
        lemma_taper_bounds(u, t3, 42);
        lemma_taper_bounds(u, taper(u, t3, 42), 20);
        lemma_taper_bounds(u, taper(u, taper(u, t3, 42), 20), 6);
        let t0 = taper(u, taper(u, taper(u, t3, 42), 20), 6);
        lemma_mul_nonnegative(x, t0);
        lemma_div_pos_is_pos(x * t0, s);
    }
}

/// A taper step stays within `[0, 1]` for the angle range used here.
proof fn lemma_taper_bounds(u: int, inner: int, d: int)
    requires
        0 <= u <= ANGLE_SQ_MAX,
        0 <= inner <= GROWTH_ONE,
        6 <= d,
    ensures
        0 <= taper(u, inner, d) <= GROWTH_ONE,
{
    let s = GROWTH_ONE as int;
    lemma_mul_nonnegative(u, inner);
    lemma_div_pos_is_pos(u * inner, s);
    lemma_div_pos_is_pos(u * inner / s, d);
    lemma_mul_inequality(inner, s, u);
    lemma_mul_is_commutative(inner, u);
    lemma_mul_is_commutative(s, u);
    lemma_div_is_ordered(u * inner, u * s, s);
    lemma_div_multiples_vanish(u, s);
    lemma_div_is_ordered(u * inner / s, ANGLE_SQ_MAX as int, d);
    lemma_div_is_ordered(ANGLE_SQ_MAX as int, ANGLE_SQ_MAX as int, 6);
    assert(ANGLE_SQ_MAX as int / 6 < GROWTH_ONE) by (nonlinear_arith);
    assert(u * inner / s / d <= ANGLE_SQ_MAX as int / d);
    assert(ANGLE_SQ_MAX as int / d <= ANGLE_SQ_MAX as int / 6) by {
        vstd::arithmetic::div_mod::lemma_div_is_ordered_by_denominator(
            ANGLE_SQ_MAX as int,
            6,
            d,
        );
    }
}

/// The sine of any phase lies in `[-1, 1]`.
pub proof fn lemma_sin_turns_bounds(t: int)
    ensures
        -(GROWTH_ONE as int) <= sin_turns_spec(t) <= GROWTH_ONE,
{
    let s = GROWTH_ONE as int;
    let tm = t % s;
    vstd::arithmetic::div_mod::lemma_mod_bound(t, s);
    let q = tm / (QUARTER_TURN as int);
    let r = tm % (QUARTER_TURN as int);
    vstd::arithmetic::div_mod::lemma_mod_bound(tm, QUARTER_TURN as int);
    lemma_sin_quarter_bounds(r);
    lemma_sin_quarter_bounds(QUARTER_TURN - r);
}

/// The sine of a quarter-turn phase, computed exactly as the
/// specification states it.
fn sin_quarter(r: u64) -> (out: u64)
    requires
        r <= QUARTER_TURN,
    ensures
        out as int == sin_quarter_spec(r as int),
        out <= GROWTH_ONE,
{
    proof {
        lemma_sin_quarter_bounds(r as int);
    }
    if r == QUARTER_TURN {
        return GROWTH_ONE;
    }
    let s: u128 = GROWTH_ONE as u128;
    proof {
        lemma_mul_upper_bound(
            r as int,
            QUARTER_TURN as int,
            TWO_PI_FIX as int,
            TWO_PI_FIX as int,
        );
        assert((QUARTER_TURN as int) * (TWO_PI_FIX as int) < u128::MAX) by (nonlinear_arith);
    }
    let x: u128 = (r as u128) * (TWO_PI_FIX as u128) / s;
    proof {
        lemma_mul_nonnegative(r as int, TWO_PI_FIX as int);
        lemma_div_pos_is_pos(r as int * TWO_PI_FIX as int, s as int);
        lemma_mul_inequality(r as int, QUARTER_TURN as int, TWO_PI_FIX as int);
        lemma_div_is_ordered(
            r as int * (TWO_PI_FIX as int),
            (QUARTER_TURN as int) * (TWO_PI_FIX as int),
            s as int,
        );
        assert((QUARTER_TURN as int) * (TWO_PI_FIX as int) / (GROWTH_ONE as int) == 6746518852)
            by (nonlinear_arith);
        lemma_mul_inequality(x as int, 6746518852int, x as int);
        lemma_mul_inequality(x as int, 6746518852int, 6746518852int);
        lemma_mul_is_commutative(x as int, 6746518852int);
        lemma_div_is_ordered(x as int * x as int, 6746518852int * 6746518852int, s as int);
        assert(6746518852int * 6746518852int / (GROWTH_ONE as int) == ANGLE_SQ_MAX) by (nonlinear_arith);
    }
    let u: u128 = x * x / s;
    let t5: u128 = taper_exec(u, GROWTH_ONE as u128, 156);
    let t4: u128 = taper_exec(u, t5, 110);
    let t3: u128 = taper_exec(u, t4, 72);
    let t2: u128 = taper_exec(u, t3, 42);
    let t1: u128 = taper_exec(u, t2, 20);
    let t0: u128 = taper_exec(u, t1, 6);
    proof {
        lemma_mul_nonnegative(x as int, t0 as int);
        lemma_div_pos_is_pos(x as int * t0 as int, s as int);
        lemma_mul_inequality(t0 as int, GROWTH_ONE as int, x as int);
        lemma_mul_is_commutative(t0 as int, x as int);
        lemma_mul_is_commutative(GROWTH_ONE as int, x as int);
        lemma_div_is_ordered(x as int * t0 as int, x as int * (GROWTH_ONE as int), s as int);
        lemma_mul_is_commutative(x as int, GROWTH_ONE as int);
        lemma_div_multiples_vanish(x as int, GROWTH_ONE as int);
    }
    let v: u128 = x * t0 / s;
    if v > GROWTH_ONE as u128 {
        GROWTH_ONE
    } else {
        v as u64
    }
}

/// One taper step, evaluated exactly as the specification states it.
fn taper_exec(u: u128, inner: u128, d: u128) -> (out: u128)
    requires
        u <= ANGLE_SQ_MAX,
        inner <= GROWTH_ONE,
        6 <= d,
    ensures
        out as int == taper(u as int, inner as int, d as int),
        out <= GROWTH_ONE,
{
    proof {
        lemma_taper_bounds(u as int, inner as int, d as int);
        lemma_mul_nonnegative(u as int, inner as int);
        lemma_mul_inequality(inner as int, GROWTH_ONE as int, u as int);
        lemma_mul_is_commutative(inner as int, u as int);
        lemma_mul_is_commutative(GROWTH_ONE as int, u as int);
        assert((ANGLE_SQ_MAX as int) * (GROWTH_ONE as int) < u128::MAX) by (nonlinear_arith);
        lemma_mul_inequality(u as int, ANGLE_SQ_MAX as int, GROWTH_ONE as int);
    }
    let step: u128 = (u * inner / (GROWTH_ONE as u128)) / d;
    (GROWTH_ONE as u128) - step
}

/// The sine of a phase given as a fraction of a turn, in Q32.32.
pub fn sin_turns(t: u64) -> (out: i64)
    ensures
        out as int == sin_turns_spec(t as int),
        -(GROWTH_ONE as i64) <= out <= GROWTH_ONE as i64,
{
    proof {
        lemma_sin_turns_bounds(t as int);
    }
    let tm: u64 = t % GROWTH_ONE;
    let q: u64 = tm / QUARTER_TURN;
    let r: u64 = tm % QUARTER_TURN;
    proof {
        lemma_mod_division_less_than_divisor(t as int, GROWTH_ONE as int);
        lemma_mod_division_less_than_divisor(tm as int, QUARTER_TURN as int);
    }
    if q == 0 {
        sin_quarter(r) as i64
    } else if q == 1 {
        sin_quarter(QUARTER_TURN - r) as i64
    } else if q == 2 {
        -(sin_quarter(r) as i64)
    } else {
        -(sin_quarter(QUARTER_TURN - r) as i64)
    }
}

/// The cosine of a phase given as a fraction of a turn, in Q32.32.
pub fn cos_turns(t: u64) -> (out: i64)
    ensures
        out as int == cos_turns_spec(t as int),
        -(GROWTH_ONE as i64) <= out <= GROWTH_ONE as i64,
{
    let tm: u64 = t % GROWTH_ONE;
    proof {
        lemma_mod_division_less_than_divisor(t as int, GROWTH_ONE as int);
    }
    sin_turns(tm + QUARTER_TURN)
}

/// The scale of the cosine-sum window coefficients: they are given in
/// millionths, and each window's coefficients sum to one.
pub const COEFF_SCALE: u64 = 1_000_000;

/// The phase (in turns, Q32.32) of position `i` in a window of length
/// `len`: `harmonic * i / (len - 1)` turns, with a window of length one
/// treated as a single position at phase zero.
pub open spec fn window_phase(harmonic: int, len: int, i: int) -> int {
    let den = if len <= 1 {
        1int
    } else {
        len - 1
    };
    harmonic * i * (GROWTH_ONE as int) / den
}

/// The value at position `i` of a cosine-sum window with coefficients
/// `(a, b, c, d)` (in millionths):
/// `a - b cos(2x) + c cos(4x) - d cos(6x)` where `x = pi i / (len-1)`,
/// clamped into `[0, 1]` (in Q32.32).
pub open spec fn cosine_window_spec(a: int, b: int, c: int, d: int, len: int, i: int) -> int {
    let s = GROWTH_ONE as int;
    let c1 = cos_turns_spec(window_phase(1, len, i));
    let c2 = cos_turns_spec(window_phase(2, len, i));
    let c3 = cos_turns_spec(window_phase(3, len, i));
    let num = a * s - b * c1 + c * c2 - d * c3;
    if num < 0 {
        0
    } else {
        let w = num / (COEFF_SCALE as int);
        if w > s {
            s
        } else {
            w
        }
    }
}

/// The value at position `i` of the triangular window of length `len`:
/// `1 - |2i - (len - 1)| / len` (in Q32.32).
pub open spec fn triangular_window_spec(len: int, i: int) -> int {
    let offset = if 2 * i >= len - 1 {
        2 * i - (len - 1)
    } else {
        (len - 1) - 2 * i
    };
    (len - offset) * (GROWTH_ONE as int) / len
}

/// The value at position `i` of the half-sine window of length `len`:
/// `sin(pi i / (len - 1))`, clamped below at zero (in Q32.32).
pub open spec fn sine_window_spec(len: int, i: int) -> int {
    let den = if len <= 1 {
        1int
    } else {
        len - 1
    };
    let v = sin_turns_spec(i * (GROWTH_ONE as int) / (2 * den));
    if v < 0 {
        0
    } else {
        v
    }
}

/// The phase of position `i` for the given harmonic, computed exactly
/// as the specification states it.
fn window_phase_exec(harmonic: u64, len: usize, i: usize) -> (t: u64)
    requires
        1 <= harmonic <= 3,
        i < len,
    ensures
        t as int == window_phase(harmonic as int, len as int, i as int),
        t <= 3 * GROWTH_ONE,
{
    let den: u64 = if len <= 1 {
        1
    } else {
        (len - 1) as u64
    };
    proof {
        lemma_mul_upper_bound(harmonic as int, 3, i as int, (WIDE_ONE_LOCAL - 1) as int);
        assert(3 * ((WIDE_ONE_LOCAL - 1) as int) * (GROWTH_ONE as int) < u128::MAX)
            by (nonlinear_arith);
        lemma_mul_inequality(
            harmonic as int * i as int,
            3 * ((WIDE_ONE_LOCAL - 1) as int),
            GROWTH_ONE as int,
        );
        // harmonic * i * GROWTH_ONE / den <= 3 * GROWTH_ONE because i <= den
        lemma_mul_inequality(i as int, den as int, harmonic as int);
        lemma_mul_is_commutative(i as int, harmonic as int);
        lemma_mul_is_commutative(den as int, harmonic as int);
        lemma_mul_inequality(harmonic as int, 3, den as int);
        lemma_mul_is_commutative(harmonic as int, den as int);
        lemma_mul_is_commutative(3, den as int);
        lemma_mul_inequality(
            harmonic as int * i as int,
            den as int * 3,
            GROWTH_ONE as int,
        );
        lemma_mul_nonnegative(harmonic as int * i as int, GROWTH_ONE as int);
        lemma_div_pos_is_pos(harmonic as int * i as int * (GROWTH_ONE as int), den as int);
        lemma_div_is_ordered(
            harmonic as int * i as int * (GROWTH_ONE as int),
            den as int * 3 * (GROWTH_ONE as int),
            den as int,
        );
        assert(den as int * 3 * (GROWTH_ONE as int) == (den as int) * (3 * (GROWTH_ONE as int)))
            by (nonlinear_arith);
        lemma_div_multiples_vanish(3 * (GROWTH_ONE as int), den as int);
    }
    let t: u128 = (harmonic as u128) * (i as u128) * (GROWTH_ONE as u128) / (den as u128);
    t as u64
}

/// `2^64`, used for intermediate bounds.
pub const WIDE_ONE_LOCAL: u128 = 18_446_744_073_709_551_616;

/// The value at position `i` of a cosine-sum window, computed exactly
/// as the specification states it.
pub fn cosine_window_at(a: u64, b: u64, c: u64, d: u64, len: usize, i: usize) -> (w: u64)
    requires
        i < len,
        a + b + c + d == COEFF_SCALE,
    ensures
        w as int == cosine_window_spec(a as int, b as int, c as int, d as int, len as int, i as int),
        w <= GROWTH_ONE,
{
    let c1: i64 = cos_turns(window_phase_exec(1, len, i));
    let c2: i64 = cos_turns(window_phase_exec(2, len, i));
    let c3: i64 = cos_turns(window_phase_exec(3, len, i));
    proof {
        assert((COEFF_SCALE as int) * (GROWTH_ONE as int) < i128::MAX) by (nonlinear_arith);
        mul_abs_bound(a as int, GROWTH_ONE as int);
        mul_abs_bound(b as int, c1 as int);
        mul_abs_bound(c as int, c2 as int);
        mul_abs_bound(d as int, c3 as int);
        assert(a as int * (GROWTH_ONE as int) + b as int * (GROWTH_ONE as int) + c as int * (
        GROWTH_ONE as int) + d as int * (GROWTH_ONE as int) == (COEFF_SCALE as int) * (
        GROWTH_ONE as int)) by (nonlinear_arith)
            requires
                a as int + b as int + c as int + d as int == COEFF_SCALE as int,
        ;
    }
    let num: i128 = (a as i128) * (GROWTH_ONE as i128) - (b as i128) * (c1 as i128) + (c as i128)
        * (c2 as i128) - (d as i128) * (c3 as i128);
    if num < 0 {
        0
    } else {
        proof {
            lemma_div_pos_is_pos(num as int, COEFF_SCALE as int);
            lemma_div_is_ordered(
                num as int,
                (COEFF_SCALE as int) * (GROWTH_ONE as int),
                COEFF_SCALE as int,
            );
            lemma_div_multiples_vanish(GROWTH_ONE as int, COEFF_SCALE as int);
        }
        let w: i128 = num / (COEFF_SCALE as i128);
        if w > GROWTH_ONE as i128 {
            GROWTH_ONE
        } else {
            w as u64
        }
    }
}

/// The product of a millionths coefficient and a cosine value stays
/// within the coefficient times one, in both directions.
proof fn mul_abs_bound(k: int, cv: int)
    requires
        0 <= k <= COEFF_SCALE,
        -(GROWTH_ONE as int) <= cv <= GROWTH_ONE,
    ensures
        -(k * (GROWTH_ONE as int)) <= k * cv <= k * (GROWTH_ONE as int),
        k * (GROWTH_ONE as int) <= (COEFF_SCALE as int) * (GROWTH_ONE as int),
{
    assert(-(k * (GROWTH_ONE as int)) <= k * cv <= k * (GROWTH_ONE as int) && k * (
    GROWTH_ONE as int) <= (COEFF_SCALE as int) * (GROWTH_ONE as int)) by (nonlinear_arith)
        requires
            0 <= k <= COEFF_SCALE,
            -(GROWTH_ONE as int) <= cv <= GROWTH_ONE,
    ;
}

/// The value at position `i` of the triangular window, computed exactly
/// as the specification states it.
pub fn triangular_window_at(len: usize, i: usize) -> (w: u64)
    requires
        1 <= len,
        i < len,
    ensures
        w as int == triangular_window_spec(len as int, i as int),
        w <= GROWTH_ONE,
{
    let offset: u128 = if 2 * (i as u128) >= (len as u128) - 1 {
        2 * (i as u128) - ((len as u128) - 1)
    } else {
        ((len as u128) - 1) - 2 * (i as u128)
    };
    proof {
        assert(offset <= len);
        lemma_mul_inequality((len - offset) as int, len as int, GROWTH_ONE as int);
        lemma_mul_nonnegative((len - offset) as int, GROWTH_ONE as int);
        lemma_div_pos_is_pos((len - offset) as int * (GROWTH_ONE as int), len as int);
        lemma_div_is_ordered(
            (len - offset) as int * (GROWTH_ONE as int),
            len as int * (GROWTH_ONE as int),
            len as int,
        );
        lemma_mul_is_commutative(len as int, GROWTH_ONE as int);
        lemma_div_multiples_vanish(GROWTH_ONE as int, len as int);
        lemma_mul_upper_bound(
            (len - offset) as int,
            (WIDE_ONE_LOCAL - 1) as int,
            GROWTH_ONE as int,
            GROWTH_ONE as int,
        );
        assert(((WIDE_ONE_LOCAL - 1) as int) * (GROWTH_ONE as int) < u128::MAX)
            by (nonlinear_arith);
    }
    let w: u128 = ((len as u128) - offset) * (GROWTH_ONE as u128) / (len as u128);
    w as u64
}

/// The value at position `i` of the half-sine window, computed exactly
/// as the specification states it.
pub fn sine_window_at(len: usize, i: usize) -> (w: u64)
    requires
        i < len,
    ensures
        w as int == sine_window_spec(len as int, i as int),
        w <= GROWTH_ONE,
{
    let den: u64 = if len <= 1 {
        1
    } else {
        (len - 1) as u64
    };
    proof {
        lemma_mul_nonnegative(i as int, GROWTH_ONE as int);
        lemma_div_pos_is_pos(i as int * (GROWTH_ONE as int), 2 * den as int);
        lemma_mul_inequality(i as int, den as int, GROWTH_ONE as int);
        lemma_div_is_ordered(
            i as int * (GROWTH_ONE as int),
            den as int * (GROWTH_ONE as int),
            2 * den as int,
        );
        assert(den as int * (GROWTH_ONE as int) / (2 * den as int) <= GROWTH_ONE)
            by (nonlinear_arith)
            requires
                1 <= den,
        ;
        lemma_mul_upper_bound(
            i as int,
            (WIDE_ONE_LOCAL - 1) as int,
            GROWTH_ONE as int,
            GROWTH_ONE as int,
        );
        assert(((WIDE_ONE_LOCAL - 1) as int) * (GROWTH_ONE as int) < u128::MAX)
            by (nonlinear_arith);
        lemma_sin_turns_bounds(i as int * (GROWTH_ONE as int) / (2 * den as int));
    }
    let t: u128 = (i as u128) * (GROWTH_ONE as u128) / (2 * (den as u128));
    let v: i64 = sin_turns(t as u64);
    if v < 0 {
        0
    } else {
        v as u64
    }
}

} // verus!
