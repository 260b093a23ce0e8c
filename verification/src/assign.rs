//! Assignment of transform output bins onto a band spectrum: per-band
//! averaged powers (squared magnitudes), normalized so that all band
//! values sum to one (in Q32.32) whenever any energy is present.

use vstd::prelude::*;
use vstd::arithmetic::div_mod::{
    lemma_div_by_multiple, lemma_div_is_ordered, lemma_div_pos_is_pos, lemma_fundamental_div_mod,
    lemma_hoist_over_denominator, lemma_mod_bound, lemma_multiply_divide_lt,
};
use vstd::arithmetic::mul::{
    lemma_mul_inequality, lemma_mul_is_commutative, lemma_mul_is_distributive_add,
    lemma_mul_is_distributive_add_other_way, lemma_mul_nonnegative, lemma_mul_upper_bound,
};

verus! {

use crate::Error;
use crate::types::{Frequency, SignalStrength, SIGNAL_ONE};
use crate::spectrum::Spectrum;
use crate::bands::{bands_wf, growth_ratio_ok, in_band, lemma_band_unique, lemma_bands_cover,
    matches_band_seq, Band};
use crate::fixed::{mul_div_small, WIDE_ONE};
use crate::analyzer::{bin_power, power_spec};

/// The upper cutoff actually used: the requested one, clamped to half
/// the sampling frequency.
pub open spec fn clamped_upper(upper: int, sampling: int) -> int {
    if upper > sampling / 2 {
        sampling / 2
    } else {
        upper
    }
}

/// The center frequency of bin `i` among `n` bins at sampling
/// frequency `s` (all in microhertz).
pub open spec fn bin_center(s: int, n: int, i: int) -> int {
    s * i / n
}

/// The summed powers (squared magnitudes, as [`power_spec`]) of bins
/// `1 .. upto` whose center frequency falls into band `j`.  Bin 0 (the
/// DC component) never contributes.
pub open spec fn assign_sum(
    bands: Seq<Band>,
    bins: Seq<(i64, i64)>,
    s: int,
    j: int,
    upto: int,
) -> int
    decreases upto,
{
    if upto <= 1 {
        0
    } else {
        assign_sum(bands, bins, s, j, upto - 1) + if in_band(
            bands,
            j,
            bin_center(s, bins.len() as int, upto - 1),
        ) {
            power_spec(bins[upto - 1])
        } else {
            0
        }
    }
}

/// The number of bins among `1 .. upto` whose center frequency falls
/// into band `j`.
pub open spec fn assign_count(
    bands: Seq<Band>,
    bins: Seq<(i64, i64)>,
    s: int,
    j: int,
    upto: int,
) -> int
    decreases upto,
{
    if upto <= 1 {
        0
    } else {
        assign_count(bands, bins, s, j, upto - 1) + if in_band(
            bands,
            j,
            bin_center(s, bins.len() as int, upto - 1),
        ) {
            1int
        } else {
            0int
        }
    }
}

/// Band `j`'s raw value: the average power of its contributing bins,
/// or zero where no bin contributes.
pub open spec fn band_avg(bands: Seq<Band>, bins: Seq<(i64, i64)>, s: int, j: int) -> int {
    let upto = bins.len() as int / 2 + 1;
    let c = assign_count(bands, bins, s, j, upto);
    if c > 0 {
        assign_sum(bands, bins, s, j, upto) / c
    } else {
        0
    }
}

/// The sum of the raw values of bands `0 .. upto`.
pub open spec fn total_avg(bands: Seq<Band>, bins: Seq<(i64, i64)>, s: int, upto: int) -> int
    decreases upto,
{
    if upto <= 0 {
        0
    } else {
        total_avg(bands, bins, s, upto - 1) + band_avg(bands, bins, s, upto - 1)
    }
}

/// Band `j`'s final value: its raw value divided by the total of all
/// raw values (in Q32.32), or the raw value itself where the total is
/// zero (silence is returned unchanged).
pub open spec fn assigned_value(bands: Seq<Band>, bins: Seq<(i64, i64)>, s: int, j: int) -> int {
    let t = total_avg(bands, bins, s, bands.len() as int);
    let a = band_avg(bands, bins, s, j);
    if t > 0 {
        a * (SIGNAL_ONE as int) / t
    } else {
        a
    }
}

/// A bin's power is non-negative and fits a `u64`.
proof fn lemma_power_bounds(bin: (i64, i64))
    ensures
        0 <= power_spec(bin) <= u64::MAX,
{
    assert(0 <= bin.0 * bin.0) by (nonlinear_arith);
    assert(0 <= bin.1 * bin.1) by (nonlinear_arith);
    vstd::arithmetic::div_mod::lemma_div_pos_is_pos(
        bin.0 * bin.0 + bin.1 * bin.1,
        crate::types::SIGNAL_ONE as int,
    );
}

/// Partial sums and counts are non-negative, and each partial sum is
/// bounded by its count times the largest possible magnitude.
proof fn lemma_accum_bounds(bands: Seq<Band>, bins: Seq<(i64, i64)>, s: int, j: int, upto: int)
    ensures
        0 <= assign_count(bands, bins, s, j, upto) <= if upto <= 1 {
            0
        } else {
            upto - 1
        },
        0 <= assign_sum(bands, bins, s, j, upto),
        assign_sum(bands, bins, s, j, upto) <= assign_count(bands, bins, s, j, upto) * (
        u64::MAX as int),
    decreases upto,
{
    if upto > 1 {
        lemma_accum_bounds(bands, bins, s, j, upto - 1);
        let c = assign_count(bands, bins, s, j, upto - 1);
        lemma_power_bounds(bins[upto - 1]);
        lemma_mul_is_distributive_add(u64::MAX as int, c, 1);
        lemma_mul_is_commutative(u64::MAX as int, c);
        lemma_mul_is_commutative(u64::MAX as int, c + 1);
        lemma_mul_nonnegative(c, u64::MAX as int);
    }
}

/// Every band's raw value is non-negative and fits a `u64`.
proof fn lemma_avg_bounds(bands: Seq<Band>, bins: Seq<(i64, i64)>, s: int, j: int)
    ensures
        0 <= band_avg(bands, bins, s, j) <= u64::MAX,
{
    let upto = bins.len() as int / 2 + 1;
    let c = assign_count(bands, bins, s, j, upto);
    let sum = assign_sum(bands, bins, s, j, upto);
    lemma_accum_bounds(bands, bins, s, j, upto);
    if c > 0 {
        lemma_div_pos_is_pos(sum, c);
        lemma_div_is_ordered(sum, c * (u64::MAX as int), c);
        lemma_mul_is_commutative(c, u64::MAX as int);
        lemma_div_by_multiple(u64::MAX as int, c);
    }
}

/// The running total of raw values is non-negative, bounded, and at
/// least as large as each raw value it includes.
proof fn lemma_total_bounds(bands: Seq<Band>, bins: Seq<(i64, i64)>, s: int, upto: int)
    requires
        0 <= upto,
    ensures
        0 <= total_avg(bands, bins, s, upto) <= upto * (u64::MAX as int),
        forall|j: int|
            0 <= j < upto ==> #[trigger] band_avg(bands, bins, s, j) <= total_avg(
                bands,
                bins,
                s,
                upto,
            ),
    decreases upto,
{
    if upto > 0 {
        lemma_total_bounds(bands, bins, s, upto - 1);
        lemma_avg_bounds(bands, bins, s, upto - 1);
        lemma_mul_is_distributive_add(u64::MAX as int, upto - 1, 1);
        lemma_mul_is_commutative(u64::MAX as int, upto - 1);
        lemma_mul_is_commutative(u64::MAX as int, upto);
    }
}

/// The sum of the final values of bands `0 .. upto`.
pub open spec fn assigned_total(bands: Seq<Band>, bins: Seq<(i64, i64)>, s: int, upto: int) -> int
    decreases upto,
{
    if upto <= 0 {
        0
    } else {
        assigned_total(bands, bins, s, upto - 1) + assigned_value(bands, bins, s, upto - 1)
    }
}

/// For non-negative numerators, quotients add up to the quotient of the
/// sum, short by at most one.
proof fn lemma_div_superadd(a: int, b: int, d: int)
    requires
        0 <= a,
        0 <= b,
        0 < d,
    ensures
        a / d + b / d <= (a + b) / d <= a / d + b / d + 1,
{
    let qa = a / d;
    let ra = a % d;
    let qb = b / d;
    let rb = b % d;
    lemma_fundamental_div_mod(a, d);
    lemma_fundamental_div_mod(b, d);
    lemma_hoist_over_denominator(ra + rb, qa + qb, d as nat);
    assert(d * qa + d * qb == (qa + qb) * d) by (nonlinear_arith);
    assert(a + b == (ra + rb) + (qa + qb) * d);
    lemma_mod_bound(a, d);
    lemma_mod_bound(b, d);
    lemma_div_pos_is_pos(ra + rb, d);
    lemma_multiply_divide_lt(ra + rb, d, 2);
}

/// Normalization sums to one: whenever any energy is present, the final
/// band values sum to one in Q32.32, short by less than one unit per
/// band (the rounding each division may drop).
pub proof fn lemma_normalized_sum(bands: Seq<Band>, bins: Seq<(i64, i64)>, s: int)
    requires
        total_avg(bands, bins, s, bands.len() as int) > 0,
    ensures
        SIGNAL_ONE - bands.len() <= assigned_total(bands, bins, s, bands.len() as int)
            <= SIGNAL_ONE,
{
    let n = bands.len() as int;
    let t = total_avg(bands, bins, s, n);
    lemma_normalized_sum_step(bands, bins, s, n);
    lemma_mul_is_commutative(t, SIGNAL_ONE as int);
    lemma_div_by_multiple(SIGNAL_ONE as int, t);
}

/// The partial sums of final values track the scaled partial totals.
proof fn lemma_normalized_sum_step(bands: Seq<Band>, bins: Seq<(i64, i64)>, s: int, upto: int)
    requires
        0 <= upto <= bands.len(),
        total_avg(bands, bins, s, bands.len() as int) > 0,
    ensures
        total_avg(bands, bins, s, upto) * (SIGNAL_ONE as int) / total_avg(
            bands,
            bins,
            s,
            bands.len() as int,
        ) - upto <= assigned_total(bands, bins, s, upto) <= total_avg(bands, bins, s, upto) * (
        SIGNAL_ONE as int) / total_avg(bands, bins, s, bands.len() as int),
    decreases upto,
{
    let t = total_avg(bands, bins, s, bands.len() as int);
    if upto <= 0 {
        vstd::arithmetic::div_mod::lemma_div_of0(t);
    } else {
        lemma_normalized_sum_step(bands, bins, s, upto - 1);
        let ta = total_avg(bands, bins, s, upto - 1);
        let a = band_avg(bands, bins, s, upto - 1);
        lemma_total_bounds(bands, bins, s, upto - 1);
        lemma_avg_bounds(bands, bins, s, upto - 1);
        lemma_mul_nonnegative(ta, SIGNAL_ONE as int);
        lemma_mul_nonnegative(a, SIGNAL_ONE as int);
        lemma_div_superadd(ta * (SIGNAL_ONE as int), a * (SIGNAL_ONE as int), t);
        lemma_mul_is_distributive_add_other_way(SIGNAL_ONE as int, ta, a);
        assert(assigned_value(bands, bins, s, upto - 1) == a * (SIGNAL_ONE as int) / t);
    }
}

/// Assigns transform output onto a band spectrum at a fixed sampling
/// frequency.
pub struct Assigner {
    spectrum: Spectrum,
    sampling_freq: Frequency,
}

impl View for Assigner {
    type V = Seq<Band>;

    closed spec fn view(&self) -> Seq<Band> {
        self.spectrum@
    }
}

impl Assigner {
    /// The internal ordering invariant every constructed value has.
    pub open spec fn wf(&self) -> bool {
        bands_wf(self@)
    }

    /// The sampling frequency the assigner was configured with.
    pub closed spec fn rate(&self) -> Frequency {
        self.sampling_freq
    }

    /// Builds an assigner: validates the sampling frequency, clamps the
    /// upper cutoff to half of it, and partitions the cutoff range into
    /// `num_bands` bands.
    pub fn new(
        lower_cutoff_freq: Frequency,
        upper_cutoff_freq: Frequency,
        num_bands: usize,
        sampling_freq: Frequency,
    ) -> (result: Result<Self, Error>)
        ensures
            sampling_freq == 0 ==> result == Err::<Assigner, Error>(
                Error::SamplingRate(sampling_freq),
            ),
            sampling_freq > 0 && clamped_upper(upper_cutoff_freq as int, sampling_freq as int)
                == 0 ==> result == Err::<Assigner, Error>(Error::UpperCutoff),
            sampling_freq > 0 && clamped_upper(upper_cutoff_freq as int, sampling_freq as int) > 0
                && lower_cutoff_freq == 0 ==> result == Err::<Assigner, Error>(Error::LowerCutoff),
            sampling_freq > 0 && clamped_upper(upper_cutoff_freq as int, sampling_freq as int) > 0
                && lower_cutoff_freq > 0 && lower_cutoff_freq >= clamped_upper(
                upper_cutoff_freq as int,
                sampling_freq as int,
            ) ==> result == Err::<Assigner, Error>(Error::CutoffOrder),
            sampling_freq > 0 && 0 < lower_cutoff_freq < clamped_upper(
                upper_cutoff_freq as int,
                sampling_freq as int,
            ) ==> match result {
                Ok(a) => {
                    &&& a.wf()
                    &&& a.rate() == sampling_freq
                    &&& a@.len() == num_bands
                    &&& (num_bands > 0 ==> a@[0].0 == lower_cutoff_freq)
                    &&& (num_bands > 0 ==> (clamped_upper(
                        upper_cutoff_freq as int,
                        sampling_freq as int,
                    ) > a@[num_bands - 1].0 ==> a@[num_bands - 1].1 == clamped_upper(
                        upper_cutoff_freq as int,
                        sampling_freq as int,
                    )))
                    &&& exists|r: int|
                        #[trigger] growth_ratio_ok(
                            r,
                            lower_cutoff_freq as int,
                            clamped_upper(upper_cutoff_freq as int, sampling_freq as int),
                            num_bands as nat,
                        ) && matches_band_seq(
                            a@,
                            lower_cutoff_freq as int,
                            clamped_upper(upper_cutoff_freq as int, sampling_freq as int),
                            num_bands as int,
                            r,
                        )
                },
                Err(_) => false,
            },
    {
        if !(sampling_freq > 0) {
            return Err(Error::SamplingRate(sampling_freq));
        }
        let half_rate = sampling_freq / 2;
        let upper = if upper_cutoff_freq > half_rate {
            half_rate
        } else {
            upper_cutoff_freq
        };
        match Spectrum::new(lower_cutoff_freq, upper, num_bands) {
            Ok(spectrum) => Ok(Assigner { spectrum, sampling_freq }),
            Err(e) => Err(e),
        }
    }

    /// Buckets each valid transform bin's power into its band, averages
    /// each band, and divides every value by the total so that the band
    /// values sum to one in Q32.32 (unless the total is zero, in which
    /// case the raw values — all zeros — are returned).
    ///
    /// Bin 0 (the DC component) and bins beyond the midpoint are
    /// skipped by design; an empty spectrum is reported as an error.
    pub fn assign_fft(&self, fft_output: &Vec<(i64, i64)>) -> (result: Result<
        Vec<SignalStrength>,
        Error,
    >)
        requires
            self.wf(),
        ensures
            fft_output@.len() == 0 ==> result == Err::<Vec<SignalStrength>, Error>(
                Error::EmptySpectrum,
            ),
            fft_output@.len() > 0 ==> match result {
                Ok(out) => {
                    &&& out@.len() == self@.len()
                    &&& forall|j: int|
                        0 <= j < self@.len() ==> (#[trigger] out@[j]) as int == assigned_value(
                            self@,
                            fft_output@,
                            self.rate() as int,
                            j,
                        )
                },
                Err(_) => false,
            },
    {
        if fft_output.len() == 0 {
            return Err(Error::EmptySpectrum);
        }
        let n = fft_output.len();
        let half: usize = n / 2;
        let num = self.spectrum.len();

        let mut sums: Vec<u128> = Vec::new();
        let mut counts: Vec<u64> = Vec::new();
        let mut k: usize = 0;
        while k < num
            invariant
                sums@.len() == k <= num,
                counts@.len() == k,
                forall|j: int| 0 <= j < k ==> (#[trigger] sums@[j]) == 0u128,
                forall|j: int| 0 <= j < k ==> (#[trigger] counts@[j]) == 0u64,
            decreases num - k,
        {
            sums.push(0);
            counts.push(0);
            k = k + 1;
        }

        let ghost bands = self@;
        let ghost bins = fft_output@;
        let ghost s: int = self.rate() as int;

        let mut i: usize = 1;
        while i <= half
            invariant
                self.wf(),
                bands == self@,
                bins == fft_output@,
                s == self.rate() as int,
                n == fft_output@.len() > 0,
                half == n / 2,
                num == self@.len(),
                1 <= i <= half + 1,
                sums@.len() == num,
                counts@.len() == num,
                forall|j: int|
                    0 <= j < num ==> (#[trigger] counts@[j]) as int == assign_count(
                        bands,
                        bins,
                        s,
                        j,
                        i as int,
                    ),
                forall|j: int|
                    0 <= j < num ==> (#[trigger] sums@[j]) as int == assign_sum(
                        bands,
                        bins,
                        s,
                        j,
                        i as int,
                    ),
                forall|j: int| 0 <= j < num ==> (#[trigger] counts@[j]) < i,
            decreases half + 1 - i,
        {
            let ghost prev_sums = sums@;
            let ghost prev_counts = counts@;
            let ghost fq: int = bin_center(s, n as int, i as int);
            let located: Option<usize> = match mul_div_small(self.sampling_freq as u128, i, n) {
                Some(f) => {
                    proof {
                        assert(f as int == fq);
                    }
                    self.spectrum.locate(f)
                },
                None => {
                    proof {
                        assert forall|j: int| !in_band(bands, j, fq) by {
                            if 0 <= j < bands.len() {
                                assert(bands[j].1 <= u64::MAX < fq);
                            }
                        }
                    }
                    None
                },
            };
            match located {
                Some(b) => {
                    proof {
                        assert(in_band(bands, b as int, fq));
                        assert forall|j: int| 0 <= j < num && j != b implies !in_band(
                            bands,
                            j,
                            fq,
                        ) by {
                            if in_band(bands, j, fq) {
                                lemma_band_unique(bands, j, b as int, fq);
                            }
                        }
                    }
                    let m: u64 = bin_power(fft_output[i]);
                    proof {
                        assert(m as int == power_spec(bins[i as int]));
                        // the per-band sum stays within count * u64::MAX
                        lemma_accum_bounds(bands, bins, s, b as int, i as int);
                        lemma_mul_upper_bound(
                            assign_count(bands, bins, s, b as int, i as int),
                            (WIDE_ONE - 1) as int,
                            u64::MAX as int,
                            (WIDE_ONE - 1) as int,
                        );
                        assert(((WIDE_ONE - 1) as int) * ((WIDE_ONE - 1) as int) + ((WIDE_ONE
                            - 1) as int) < u128::MAX) by (nonlinear_arith);
                    }
                    let bumped_count: u64 = counts[b] + 1;
                    counts.set(b, bumped_count);
                    let bumped_sum: u128 = sums[b] + (m as u128);
                    sums.set(b, bumped_sum);
                },
                None => {
                    proof {
                        lemma_bands_cover(bands, fq);
                        assert(forall|j: int| !in_band(bands, j, fq));
                    }
                },
            }
            proof {
                assert forall|j: int| 0 <= j < num implies (#[trigger] counts@[j]) as int
                    == assign_count(bands, bins, s, j, i + 1) && (#[trigger] sums@[j]) as int
                    == assign_sum(bands, bins, s, j, i + 1) && counts@[j] < i + 1 by {
                    assert(assign_count(bands, bins, s, j, i + 1) == assign_count(
                        bands,
                        bins,
                        s,
                        j,
                        i as int,
                    ) + if in_band(bands, j, fq) {
                        1int
                    } else {
                        0int
                    });
                    assert(assign_sum(bands, bins, s, j, i + 1) == assign_sum(
                        bands,
                        bins,
                        s,
                        j,
                        i as int,
                    ) + if in_band(bands, j, fq) {
                        power_spec(bins[i as int])
                    } else {
                        0int
                    });
                    assert(prev_counts[j] as int == assign_count(bands, bins, s, j, i as int));
                    assert(prev_sums[j] as int == assign_sum(bands, bins, s, j, i as int));
                }
            }
            i = i + 1;
        }

        // Average each band's contributions.
        let mut avgs: Vec<u64> = Vec::new();
        let mut j: usize = 0;
        while j < num
            invariant
                bands == self@,
                bins == fft_output@,
                n == fft_output@.len() > 0,
                half == n / 2,
                num == self@.len(),
                sums@.len() == num,
                counts@.len() == num,
                avgs@.len() == j <= num,
                forall|jj: int|
                    0 <= jj < num ==> (#[trigger] counts@[jj]) as int == assign_count(
                        bands,
                        bins,
                        s,
                        jj,
                        half as int + 1,
                    ),
                forall|jj: int|
                    0 <= jj < num ==> (#[trigger] sums@[jj]) as int == assign_sum(
                        bands,
                        bins,
                        s,
                        jj,
                        half as int + 1,
                    ),
                forall|jj: int|
                    0 <= jj < j ==> (#[trigger] avgs@[jj]) as int == band_avg(bands, bins, s, jj),
            decreases num - j,
        {
            proof {
                lemma_accum_bounds(bands, bins, s, j as int, half as int + 1);
                let c = assign_count(bands, bins, s, j as int, half as int + 1);
                let sum = assign_sum(bands, bins, s, j as int, half as int + 1);
                if c > 0 {
                    lemma_div_pos_is_pos(sum, c);
                    lemma_div_is_ordered(sum, c * (u64::MAX as int), c);
                    lemma_mul_is_commutative(c, u64::MAX as int);
                    lemma_div_by_multiple(u64::MAX as int, c);
                }
            }
            let c: u64 = counts[j];
            let a: u64 = if c > 0 {
                (sums[j] / (c as u128)) as u64
            } else {
                0
            };
            avgs.push(a);
            j = j + 1;
        }

        // Total of all band values.
        let mut total: u128 = 0;
        let mut j2: usize = 0;
        while j2 < num
            invariant
                bands == self@,
                bins == fft_output@,
                num == self@.len(),
                avgs@.len() == num,
                j2 <= num,
                forall|jj: int|
                    0 <= jj < num ==> (#[trigger] avgs@[jj]) as int == band_avg(bands, bins, s, jj),
                total as int == total_avg(bands, bins, s, j2 as int),
                total as int <= j2 as int * (u64::MAX as int),
            decreases num - j2,
        {
            proof {
                lemma_avg_bounds(bands, bins, s, j2 as int);
                lemma_mul_is_distributive_add(u64::MAX as int, j2 as int, 1);
                lemma_mul_is_commutative(u64::MAX as int, j2 as int);
                lemma_mul_is_commutative(u64::MAX as int, j2 as int + 1);
                lemma_mul_upper_bound(
                    j2 as int + 1,
                    WIDE_ONE as int,
                    u64::MAX as int,
                    (WIDE_ONE - 1) as int,
                );
                assert((WIDE_ONE as int) * ((WIDE_ONE - 1) as int) < u128::MAX) by (nonlinear_arith);
            }
            total = total + (avgs[j2] as u128);
            j2 = j2 + 1;
        }

        // Normalize, unless the signal is all zero.
        let mut out: Vec<SignalStrength> = Vec::new();
        let mut j3: usize = 0;
        while j3 < num
            invariant
                bands == self@,
                bins == fft_output@,
                num == self@.len(),
                avgs@.len() == num,
                out@.len() == j3 <= num,
                forall|jj: int|
                    0 <= jj < num ==> (#[trigger] avgs@[jj]) as int == band_avg(bands, bins, s, jj),
                total as int == total_avg(bands, bins, s, num as int),
                forall|jj: int|
                    0 <= jj < j3 ==> (#[trigger] out@[jj]) as int == assigned_value(
                        bands,
                        bins,
                        s,
                        jj,
                    ),
            decreases num - j3,
        {
            let v: u64 = if total > 0 {
                proof {
                    lemma_total_bounds(bands, bins, s, num as int);
                    lemma_avg_bounds(bands, bins, s, j3 as int);
                    let a = band_avg(bands, bins, s, j3 as int);
                    let t = total_avg(bands, bins, s, num as int);
                    lemma_mul_upper_bound(a, (WIDE_ONE - 1) as int, SIGNAL_ONE as int,
                        SIGNAL_ONE as int);
                    assert(((WIDE_ONE - 1) as int) * (SIGNAL_ONE as int) < u128::MAX)
                        by (nonlinear_arith);
                    lemma_mul_inequality(a, t, SIGNAL_ONE as int);
                    lemma_mul_nonnegative(a, SIGNAL_ONE as int);
                    lemma_div_is_ordered(a * (SIGNAL_ONE as int), t * (SIGNAL_ONE as int), t);
                    lemma_mul_is_commutative(t, SIGNAL_ONE as int);
                    lemma_div_by_multiple(SIGNAL_ONE as int, t);
                    lemma_div_pos_is_pos(a * (SIGNAL_ONE as int), t);
                }
                ((avgs[j3] as u128) * (SIGNAL_ONE as u128) / total) as u64
            } else {
                avgs[j3]
            };
            out.push(v);
            j3 = j3 + 1;
        }
        Ok(out)
    }
}

} // verus!
