//! Construction and lookup of logarithmically spaced frequency bands.
//!
//! A partition of `[lower, upper)` into `n` bands spaces the interval
//! bounds geometrically: each band's high bound is its low bound scaled
//! by the fixed-point `n`-th root of `upper / lower`, except that the
//! final bound is forced to exactly `upper` (absorbing rounding drift),
//! and every bound is pushed at least one microhertz up so that the
//! partition is always strictly increasing.

use vstd::prelude::*;
use vstd::arithmetic::div_mod::{
    lemma_div_is_ordered, lemma_div_multiples_vanish, lemma_div_nonincreasing,
    lemma_div_pos_is_pos,
};
use vstd::arithmetic::mul::{
    lemma_mul_inequality, lemma_mul_is_commutative, lemma_mul_nonnegative, lemma_mul_upper_bound,
};

verus! {

use crate::types::{Frequency, GROWTH_ONE};
use crate::fixed::{
    growth_root, powfix, scale_by, scale_by_spec, WIDE_LIMIT, WIDE_ONE,
};

/// A half-open frequency interval `[low, high)`.
pub type Band = (Frequency, Frequency);

/// The ratio `upper / lower` as a Q32.32 value.
pub open spec fn cutoff_ratio(lower: int, upper: int) -> int {
    upper * (GROWTH_ONE as int) / lower
}

/// Whether `r` is the fixed-point `n`-th root of `upper / lower`: the
/// greatest ratio whose `n`-th power stays within the cutoff ratio.
pub open spec fn is_growth_root(r: int, lower: int, upper: int, n: nat) -> bool {
    &&& GROWTH_ONE as int <= r
    &&& powfix(r, n) <= cutoff_ratio(lower, upper)
    &&& powfix(r + 1, n) > cutoff_ratio(lower, upper)
}

/// The growth ratio a partition of `n` bands uses: the `n`-th root of
/// the cutoff ratio, or one where fewer than two bands leave it unused.
pub open spec fn growth_ratio_ok(r: int, lower: int, upper: int, n: nat) -> bool {
    if n >= 2 {
        is_growth_root(r, lower, upper, n)
    } else {
        r == GROWTH_ONE as int
    }
}

/// The bound that follows `b` under growth ratio `r`: the scaled
/// product, but always at least one step up, saturating at `u64::MAX`.
pub open spec fn next_bound(b: int, r: int) -> int {
    let raw = scale_by_spec(b, r);
    let up = if b + 1 > u64::MAX as int {
        u64::MAX as int
    } else {
        b + 1
    };
    if raw > up {
        raw
    } else {
        up
    }
}

/// The `i`-th band's low bound: `lower` advanced `i` times by the
/// growth ratio.
pub open spec fn low_chain(lower: int, r: int, i: int) -> int
    decreases i,
{
    if i <= 0 {
        lower
    } else {
        next_bound(low_chain(lower, r, i - 1), r)
    }
}

/// The `i`-th band's high bound in a partition of `n` bands ending at
/// `upper`: the next low bound, except that the final bound is forced
/// to `upper` whenever `upper` still lies above the running low bound.
pub open spec fn band_high(lower: int, upper: int, n: int, r: int, i: int) -> int {
    let lo = low_chain(lower, r, i);
    if i + 1 == n && upper > lo {
        upper
    } else {
        next_bound(lo, r)
    }
}

/// Whether `bands` is exactly the partition of `[lower, upper)` into
/// `n` bands under growth ratio `r`.
pub open spec fn matches_band_seq(bands: Seq<Band>, lower: int, upper: int, n: int, r: int) -> bool {
    &&& bands.len() == n
    &&& forall|i: int| 0 <= i < n ==> (#[trigger] bands[i]).0 == low_chain(lower, r, i)
    &&& forall|i: int| 0 <= i < n ==> (#[trigger] bands[i]).1 == band_high(lower, upper, n, r, i)
}

/// Well-formedness of a band sequence: each interval is non-empty or
/// degenerate (`low <= high`), and consecutive intervals are contiguous.
pub open spec fn bands_wf(bands: Seq<Band>) -> bool {
    &&& forall|i: int| 0 <= i < bands.len() ==> (#[trigger] bands[i]).0 <= bands[i].1
    &&& forall|i: int|
        #![trigger bands[i], bands[i + 1]]
        0 <= i && i + 1 < bands.len() ==> bands[i].1 == bands[i + 1].0
}

/// Whether frequency `f` falls inside band `i` of `bands`.
pub open spec fn in_band(bands: Seq<Band>, i: int, f: int) -> bool {
    0 <= i < bands.len() && bands[i].0 <= f < bands[i].1
}

proof fn lemma_next_bound_ge(b: int, r: int)
    requires
        0 <= b <= u64::MAX,
        0 <= r,
    ensures
        b <= next_bound(b, r) <= u64::MAX,
        b < u64::MAX ==> b < next_bound(b, r),
{
    lemma_mul_nonnegative(b, r);
    lemma_div_pos_is_pos(b * r, GROWTH_ONE as int);
}

proof fn lemma_low_chain_bounds(lower: int, r: int, i: int)
    requires
        0 <= lower <= u64::MAX,
        0 <= r,
        0 <= i,
    ensures
        lower <= low_chain(lower, r, i) <= u64::MAX,
    decreases i,
{
    if i > 0 {
        lemma_low_chain_bounds(lower, r, i - 1);
        lemma_next_bound_ge(low_chain(lower, r, i - 1), r);
    }
}

/// Advances a band bound one step: `b` scaled by `r`, at least `b + 1`.
fn next_bound_exec(b: u64, r: u64) -> (out: u64)
    ensures
        out as int == next_bound(b as int, r as int),
{
    let raw = scale_by(b, r);
    let up = if b == u64::MAX {
        u64::MAX
    } else {
        b + 1
    };
    if raw > up {
        raw
    } else {
        up
    }
}

/// Builds the partition of `[lower, upper)` into `num_bands` bands.
pub(crate) fn build_bands(lower: Frequency, upper: Frequency, num_bands: usize) -> (out: Vec<
    Band>)
    requires
        0 < lower < upper,
    ensures
        out@.len() == num_bands,
        bands_wf(out@),
        num_bands > 0 ==> out@[0].0 == lower,
        num_bands > 0 ==> (upper > out@[num_bands - 1].0 ==> out@[num_bands - 1].1 == upper),
        forall|i: int|
            0 <= i < num_bands ==> (#[trigger] out@[i]).0 == u64::MAX || out@[i].0 < out@[i].1,
        exists|r: int|
            #[trigger] growth_ratio_ok(r, lower as int, upper as int, num_bands as nat)
                && matches_band_seq(out@, lower as int, upper as int, num_bands as int, r),
{
    proof {
        // upper * GROWTH_ONE stays within u128 and the cutoff ratio lies
        // in [GROWTH_ONE, WIDE_LIMIT).
        lemma_mul_upper_bound(
            upper as int,
            (WIDE_ONE - 1) as int,
            GROWTH_ONE as int,
            GROWTH_ONE as int,
        );
        assert((WIDE_ONE - 1) * (GROWTH_ONE as int) < WIDE_LIMIT) by (nonlinear_arith);
        lemma_mul_nonnegative(upper as int, GROWTH_ONE as int);
        lemma_div_nonincreasing(upper as int * GROWTH_ONE as int, lower as int);
        lemma_div_pos_is_pos(upper as int * GROWTH_ONE as int, lower as int);
        lemma_mul_inequality(lower as int, upper as int, GROWTH_ONE as int);
        lemma_mul_is_commutative(lower as int, GROWTH_ONE as int);
        lemma_div_multiples_vanish(lower as int, GROWTH_ONE as int);
        assert(GROWTH_ONE as int == (GROWTH_ONE as int * lower as int) / lower as int) by {
            lemma_mul_is_commutative(GROWTH_ONE as int, lower as int);
            lemma_div_multiples_vanish(GROWTH_ONE as int, lower as int);
        }
        lemma_div_is_ordered(
            GROWTH_ONE as int * lower as int,
            upper as int * GROWTH_ONE as int,
            lower as int,
        );
        assert(GROWTH_ONE as int * lower as int == lower as int * GROWTH_ONE as int);
    }
    let ratio: u128 = (upper as u128) * (GROWTH_ONE as u128) / (lower as u128);
    proof {
        assert(ratio as int == cutoff_ratio(lower as int, upper as int));
        assert(GROWTH_ONE as u128 <= ratio < WIDE_LIMIT);
    }
    let r: u64 = if num_bands >= 2 {
        growth_root(ratio, num_bands)
    } else {
        GROWTH_ONE
    };
    proof {
        assert(growth_ratio_ok(r as int, lower as int, upper as int, num_bands as nat));
    }
    let mut out: Vec<Band> = Vec::new();
    let mut cur: u64 = lower;
    let mut i: usize = 0;
    while i < num_bands
        invariant
            i <= num_bands,
            out@.len() == i,
            0 < lower < upper,
            i < num_bands ==> cur as int == low_chain(lower as int, r as int, i as int),
            i > 0 ==> out@[i - 1].1 == cur,
            forall|j: int|
                0 <= j < i ==> (#[trigger] out@[j]).0 == low_chain(lower as int, r as int, j),
            forall|j: int|
                0 <= j < i ==> (#[trigger] out@[j]).1 == band_high(
                    lower as int,
                    upper as int,
                    num_bands as int,
                    r as int,
                    j,
                ),
            forall|j: int|
                0 <= j < i ==> (#[trigger] out@[j]).0 <= out@[j].1 && (out@[j].0 == u64::MAX
                    || out@[j].0 < out@[j].1),
            forall|j: int|
                #![trigger out@[j], out@[j + 1]]
                0 <= j && j + 1 < i ==> out@[j].1 == out@[j + 1].0,
        decreases num_bands - i,
    {
        let ghost pre = out@;
        let high: u64 = if i + 1 == num_bands && upper > cur {
            upper
        } else {
            proof {
                lemma_next_bound_ge(cur as int, r as int);
            }
            next_bound_exec(cur, r)
        };
        out.push((cur, high));
        proof {
            assert(pre.len() == i);
            assert(out@ == pre.push((cur, high)));
            assert forall|j: int|
                #![trigger out@[j], out@[j + 1]]
                0 <= j && j + 1 < i + 1 implies out@[j].1 == out@[j + 1].0 by {
                assert(pre.len() == i);
                assert(0 <= j < i);
                if j + 1 < i {
                    assert(pre[j].1 == pre[j + 1].0);
                    assert(out@[j] == pre[j]);
                    assert(out@[j + 1] == pre[j + 1]);
                } else {
                    assert(out@[j] == pre[i - 1]);
                    assert(out@[j + 1] == (cur, high));
                }
            }
        }
        cur = high;
        i = i + 1;
    }
    proof {
        assert(matches_band_seq(out@, lower as int, upper as int, num_bands as int, r as int));
    }
    out
}

/// In a well-formed sequence, each band's high bound is the next
/// band's low bound.
pub proof fn lemma_adjacent(bands: Seq<Band>, i: int)
    requires
        bands_wf(bands),
        0 <= i,
        i + 1 < bands.len(),
    ensures
        bands[i].1 == bands[i + 1].0,
{
    assert(bands[i].1 == bands[i + 1].0);
}

proof fn lemma_low_bound(bands: Seq<Band>, i: int)
    requires
        bands_wf(bands),
        0 <= i < bands.len(),
    ensures
        bands[0].0 <= bands[i].0,
    decreases i,
{
    if i > 0 {
        lemma_low_bound(bands, i - 1);
        lemma_adjacent(bands, i - 1);
    }
}

proof fn lemma_high_bound(bands: Seq<Band>, i: int)
    requires
        bands_wf(bands),
        0 <= i < bands.len(),
    ensures
        bands[i].1 <= bands[bands.len() - 1].1,
    decreases bands.len() - i,
{
    if i < bands.len() - 1 {
        lemma_high_bound(bands, i + 1);
        lemma_adjacent(bands, i);
    }
}

/// Every band's low bound lies at or above the first band's low bound,
/// and every high bound at or below the last band's high bound.
pub proof fn lemma_band_bounds(bands: Seq<Band>, i: int)
    requires
        bands_wf(bands),
        0 <= i < bands.len(),
    ensures
        bands[0].0 <= bands[i].0,
        bands[i].1 <= bands[bands.len() - 1].1,
{
    lemma_low_bound(bands, i);
    lemma_high_bound(bands, i);
}

proof fn lemma_cover_from(bands: Seq<Band>, k: int, f: int)
    requires
        bands_wf(bands),
        0 <= k < bands.len(),
        bands[k].0 <= f < bands[bands.len() - 1].1,
    ensures
        exists|i: int| in_band(bands, i, f),
    decreases bands.len() - k,
{
    if f < bands[k].1 {
        assert(in_band(bands, k, f));
    } else {
        assert(k < bands.len() - 1);
        lemma_adjacent(bands, k);
        lemma_cover_from(bands, k + 1, f);
    }
}

/// Contiguous bands leave no gap: a frequency misses every band exactly
/// when it lies below the first low bound or at or above the last high
/// bound (or there are no bands at all).
pub proof fn lemma_bands_cover(bands: Seq<Band>, f: int)
    requires
        bands_wf(bands),
    ensures
        (bands.len() == 0 || f < bands[0].0 || f >= bands[bands.len() - 1].1) <==> (forall|i: int|
            !in_band(bands, i, f)),
{
    if bands.len() > 0 && bands[0].0 <= f && f < bands[bands.len() - 1].1 {
        lemma_cover_from(bands, 0, f);
    } else {
        assert forall|i: int| !in_band(bands, i, f) by {
            if 0 <= i < bands.len() {
                lemma_band_bounds(bands, i);
            }
        }
    }
}

/// At most one band contains any given frequency.
pub proof fn lemma_band_unique(bands: Seq<Band>, i: int, j: int, f: int)
    requires
        bands_wf(bands),
        in_band(bands, i, f),
        in_band(bands, j, f),
    ensures
        i == j,
{
    if i < j {
        lemma_band_order(bands, i, j);
    } else if j < i {
        lemma_band_order(bands, j, i);
    }
}

proof fn lemma_band_order(bands: Seq<Band>, i: int, j: int)
    requires
        bands_wf(bands),
        0 <= i < j < bands.len(),
    ensures
        bands[i].1 <= bands[j].0,
    decreases j - i,
{
    lemma_adjacent(bands, i);
    if i + 1 < j {
        lemma_band_order(bands, i + 1, j);
    }
}

/// Finds the band containing `target` by binary search over the sorted,
/// contiguous interval sequence.
pub(crate) fn locate_in(bands: &Vec<Band>, target: Frequency) -> (res: Option<usize>)
    requires
        bands_wf(bands@),
    ensures
        match res {
            Some(i) => in_band(bands@, i as int, target as int),
            None => bands@.len() == 0 || target < bands@[0].0 || target >= bands@[bands@.len()
                - 1].1,
        },
{
    let n = bands.len();
    if n == 0 {
        return None;
    }
    if target >= bands[n - 1].1 {
        return None;
    }
    if target < bands[0].0 {
        return None;
    }
    let mut left: usize = 0;
    let mut right: usize = n - 1;
    while left < right
        invariant
            bands_wf(bands@),
            n == bands@.len(),
            left <= right < n,
            bands@[0].0 <= target,
            target < bands@[right as int].1,
            forall|j: int| 0 <= j < left ==> target >= (#[trigger] bands@[j]).1,
        decreases right - left,
    {
        let mid: usize = left + (right - left) / 2;
        if target < bands[mid].1 {
            right = mid;
        } else {
            proof {
                assert forall|j: int| 0 <= j < mid + 1 implies target >= (
                #[trigger] bands@[j]).1 by {
                    if left <= j < mid {
                        lemma_band_order(bands@, j, mid as int);
                    }
                }
            }
            left = mid + 1;
        }
    }
    proof {
        if left > 0 {
            lemma_adjacent(bands@, left - 1);
            assert(bands@[left as int].0 <= target);
        }
    }
    Some(left)
}

/// The general shape of a constructed partition: a well-formed band
/// sequence whose intervals can degenerate only where a bound has
/// saturated at `u64::MAX` microhertz (the machine limit of this number
/// model) is strictly increasing throughout, as long as its last low
/// bound lies below that limit.  Together with well-formedness
/// (contiguity) and the construction's own guarantees (band count,
/// first low bound, final bound forced to the upper cutoff), this is
/// the partition shape stated of every valid configuration.
pub proof fn lemma_partition_strictly_increasing(bands: Seq<Band>)
    requires
        bands_wf(bands),
        bands.len() > 0,
        forall|i: int|
            0 <= i < bands.len() ==> (#[trigger] bands[i]).0 == u64::MAX || bands[i].0
                < bands[i].1,
        bands[bands.len() - 1].0 < u64::MAX,
    ensures
        forall|i: int| 0 <= i < bands.len() ==> (#[trigger] bands[i]).0 < bands[i].1,
{
    let n = bands.len() as int;
    assert forall|i: int| 0 <= i < n implies (#[trigger] bands[i]).0 < bands[i].1 by {
        if i < n - 1 {
            lemma_band_order(bands, i, n - 1);
            assert(bands[i].0 <= bands[i].1 <= bands[n - 1].0);
        }
    }
}

/// The `n`-th root the partition construction uses is unique.
pub proof fn lemma_growth_root_unique(r1: int, r2: int, lower: int, upper: int, n: nat)
    requires
        is_growth_root(r1, lower, upper, n),
        is_growth_root(r2, lower, upper, n),
    ensures
        r1 == r2,
{
    if r1 < r2 {
        crate::fixed::lemma_powfix_mono_r(r1 + 1, r2, n);
    }
    if r2 < r1 {
        crate::fixed::lemma_powfix_mono_r(r2 + 1, r1, n);
    }
}

} // verus!
