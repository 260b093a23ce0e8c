//! Logarithmically spaced frequency buckets and the aggregation of a
//! power spectrum into them.

use vstd::prelude::*;
use vstd::arithmetic::div_mod::{lemma_div_by_multiple, lemma_div_is_ordered, lemma_div_pos_is_pos};
use vstd::arithmetic::mul::{
    lemma_mul_is_commutative, lemma_mul_is_distributive_add, lemma_mul_nonnegative,
    lemma_mul_upper_bound,
};

verus! {

use crate::Error;
use crate::types::{Frequency, SignalStrength, FREQ_SCALE};
use crate::bands::{
    bands_wf, build_bands, growth_ratio_ok, in_band, lemma_band_unique, lemma_bands_cover,
    locate_in, matches_band_seq, Band,
};
use crate::fixed::{mul_div_small, WIDE_LIMIT, WIDE_ONE};

/// The center frequency of FFT bin `i` (in microhertz) for a spectrum
/// of `n` bins at `sr` hertz: bins are spaced `sr / n` hertz apart.
pub open spec fn bin_freq(sr: int, n: int, i: int) -> int {
    sr * (FREQ_SCALE as int) * i / n
}

/// The sum of the spectrum values among bins `1 .. upto` whose center
/// frequency falls into band `j`.  Bin 0 (the DC component) never
/// contributes.
pub open spec fn band_accum(
    bands: Seq<Band>,
    spectrum: Seq<SignalStrength>,
    sr: int,
    j: int,
    upto: int,
) -> int
    decreases upto,
{
    if upto <= 1 {
        0
    } else {
        band_accum(bands, spectrum, sr, j, upto - 1) + if in_band(
            bands,
            j,
            bin_freq(sr, spectrum.len() as int, upto - 1),
        ) {
            spectrum[upto - 1] as int
        } else {
            0
        }
    }
}

/// The number of bins among `1 .. upto` whose center frequency falls
/// into band `j`.
pub open spec fn band_count(
    bands: Seq<Band>,
    spectrum: Seq<SignalStrength>,
    sr: int,
    j: int,
    upto: int,
) -> int
    decreases upto,
{
    if upto <= 1 {
        0
    } else {
        band_count(bands, spectrum, sr, j, upto - 1) + if in_band(
            bands,
            j,
            bin_freq(sr, spectrum.len() as int, upto - 1),
        ) {
            1int
        } else {
            0int
        }
    }
}

/// Band `j`'s final value: the average of its contributing bins over
/// the valid bins `1 ..= len / 2`, or zero where no bin contributes.
pub open spec fn bucket_value(
    bands: Seq<Band>,
    spectrum: Seq<SignalStrength>,
    sr: int,
    j: int,
) -> int {
    let upto = spectrum.len() as int / 2 + 1;
    let c = band_count(bands, spectrum, sr, j, upto);
    if c > 0 {
        band_accum(bands, spectrum, sr, j, upto) / c
    } else {
        0
    }
}

/// Partial sums and counts are non-negative, and each partial sum is
/// bounded by its count times the largest possible bin value.
proof fn lemma_bucket_bounds(
    bands: Seq<Band>,
    spectrum: Seq<SignalStrength>,
    sr: int,
    j: int,
    upto: int,
)
    ensures
        0 <= band_count(bands, spectrum, sr, j, upto) <= if upto <= 1 {
            0
        } else {
            upto - 1
        },
        0 <= band_accum(bands, spectrum, sr, j, upto),
        band_accum(bands, spectrum, sr, j, upto) <= band_count(bands, spectrum, sr, j, upto) * (
        u64::MAX as int),
    decreases upto,
{
    if upto > 1 {
        lemma_bucket_bounds(bands, spectrum, sr, j, upto - 1);
        let c = band_count(bands, spectrum, sr, j, upto - 1);
        lemma_mul_is_distributive_add(u64::MAX as int, c, 1);
        lemma_mul_is_commutative(u64::MAX as int, c);
        lemma_mul_is_commutative(u64::MAX as int, c + 1);
        lemma_mul_nonnegative(c, u64::MAX as int);
    }
}

/// A sorted, contiguous sequence of half-open frequency intervals,
/// geometrically spaced between two cutoff frequencies.
#[derive(Clone)]
pub struct Buckets {
    bands: Vec<Band>,
}

impl View for Buckets {
    type V = Seq<Band>;

    closed spec fn view(&self) -> Seq<Band> {
        self.bands@
    }
}

impl Buckets {
    /// The internal ordering invariant every constructed value has.
    pub open spec fn wf(&self) -> bool {
        bands_wf(self@)
    }

    /// Builds `num_bands` geometrically spaced buckets covering
    /// `[lower_cutoff, upper_cutoff)`.
    ///
    /// The cutoffs are validated in order; zero bands is legal and
    /// yields an empty partition.
    pub fn new(lower_cutoff: Frequency, upper_cutoff: Frequency, num_bands: usize) -> (result:
        Result<Self, Error>)
        ensures
            upper_cutoff == 0 ==> result == Err::<Buckets, Error>(Error::UpperCutoff),
            upper_cutoff > 0 && lower_cutoff == 0 ==> result == Err::<Buckets, Error>(
                Error::LowerCutoff,
            ),
            upper_cutoff > 0 && lower_cutoff > 0 && lower_cutoff >= upper_cutoff ==> result
                == Err::<Buckets, Error>(Error::CutoffOrder),
            0 < lower_cutoff < upper_cutoff ==> match result {
                Ok(b) => {
                    &&& b.wf()
                    &&& b@.len() == num_bands
                    &&& (num_bands > 0 ==> b@[0].0 == lower_cutoff)
                    &&& (num_bands > 0 ==> (upper_cutoff > b@[num_bands - 1].0
                        ==> b@[num_bands - 1].1 == upper_cutoff))
                    &&& (forall|i: int|
                        0 <= i < num_bands ==> (#[trigger] b@[i]).0 == u64::MAX || b@[i].0
                            < b@[i].1)
                    &&& exists|r: int|
                        #[trigger] growth_ratio_ok(
                            r,
                            lower_cutoff as int,
                            upper_cutoff as int,
                            num_bands as nat,
                        ) && matches_band_seq(
                            b@,
                            lower_cutoff as int,
                            upper_cutoff as int,
                            num_bands as int,
                            r,
                        )
                },
                Err(_) => false,
            },
    {
        if !(upper_cutoff > 0) {
            return Err(Error::UpperCutoff);
        }
        if !(lower_cutoff > 0) {
            return Err(Error::LowerCutoff);
        }
        if !(lower_cutoff < upper_cutoff) {
            return Err(Error::CutoffOrder);
        }
        let bands = build_bands(lower_cutoff, upper_cutoff, num_bands);
        Ok(Buckets { bands })
    }

    /// The number of buckets.
    pub fn len(&self) -> (n: usize)
        ensures
            n == self@.len(),
    {
        self.bands.len()
    }

    /// Finds the bucket whose interval `[low, high)` contains `target`:
    /// `None` exactly when `target` lies below the first bucket or at
    /// or above the last one.
    pub fn locate(&self, target: Frequency) -> (res: Option<usize>)
        requires
            self.wf(),
        ensures
            match res {
                Some(i) => in_band(self@, i as int, target as int),
                None => self@.len() == 0 || target < self@[0].0 || target >= self@[self@.len()
                    - 1].1,
            },
    {
        locate_in(&self.bands, target)
    }

    /// The bucket intervals, in ascending order.
    pub fn bands(&self) -> (out: &Vec<Band>)
        ensures
            out@ == self@,
    {
        &self.bands
    }

    /// Buckets each valid FFT bin of `spectrum` into the band its
    /// center frequency falls into and averages each band, skipping the
    /// DC bin and bins beyond the spectrum's midpoint.  Bands that no
    /// bin falls into report exactly zero.
    pub fn bucketize(&self, spectrum: &Vec<SignalStrength>, sampling_rate: usize) -> (result:
        Result<Vec<SignalStrength>, Error>)
        requires
            self.wf(),
        ensures
            sampling_rate == 0 ==> result == Err::<Vec<SignalStrength>, Error>(
                Error::SamplingRate(0),
            ),
            sampling_rate > 0 && spectrum@.len() == 0 ==> result == Err::<
                Vec<SignalStrength>,
                Error,
            >(Error::EmptySpectrum),
            sampling_rate > 0 && spectrum@.len() > 0 ==> match result {
                Ok(out) => {
                    &&& out@.len() == self@.len()
                    &&& forall|j: int|
                        0 <= j < self@.len() ==> (#[trigger] out@[j]) as int == bucket_value(
                            self@,
                            spectrum@,
                            sampling_rate as int,
                            j,
                        )
                },
                Err(_) => false,
            },
    {
        if !(sampling_rate > 0) {
            return Err(Error::SamplingRate(sampling_rate as u64));
        }
        if spectrum.len() == 0 {
            return Err(Error::EmptySpectrum);
        }

        let ghost bands = self@;
        let ghost values = spectrum@;
        let ghost sr: int = sampling_rate as int;

        let num = self.bands.len();
        let mut sums: Vec<u128> = Vec::new();
        let mut counts: Vec<u64> = Vec::new();
        let mut k: usize = 0;
        while k < num
            invariant
                sums@.len() == k <= num,
                counts@.len() == k,
                forall|j: int| 0 <= j < k ==> (#[trigger] sums@[j]) == 0u128,
                forall|j: int| 0 <= j < k ==> (#[trigger] counts@[j]) == 0u64,
            decreases num - k,
        {
            sums.push(0);
            counts.push(0);
            k = k + 1;
        }

        let n = spectrum.len();
        let half: usize = n / 2;
        let mut i: usize = 1;
        while i <= half
            invariant
                self.wf(),
                bands == self@,
                values == spectrum@,
                sr == sampling_rate as int,
                sampling_rate > 0,
                num == self@.len(),
                n == spectrum@.len(),
                half == n / 2,
                1 <= i <= half + 1,
                sums@.len() == num,
                counts@.len() == num,
                forall|j: int|
                    0 <= j < num ==> (#[trigger] sums@[j]) as int == band_accum(
                        bands,
                        values,
                        sr,
                        j,
                        i as int,
                    ),
                forall|j: int|
                    0 <= j < num ==> (#[trigger] counts@[j]) as int == band_count(
                        bands,
                        values,
                        sr,
                        j,
                        i as int,
                    ),
                forall|j: int| 0 <= j < num ==> (#[trigger] counts@[j]) < i,
            decreases half + 1 - i,
        {
            let ghost prev_sums = sums@;
            let ghost prev_counts = counts@;
            proof {
                lemma_mul_upper_bound(
                    sampling_rate as int,
                    (WIDE_ONE - 1) as int,
                    FREQ_SCALE as int,
                    FREQ_SCALE as int,
                );
                assert((WIDE_ONE - 1) * (FREQ_SCALE as int) < WIDE_LIMIT) by (nonlinear_arith);
            }
            let base: u128 = (sampling_rate as u128) * (FREQ_SCALE as u128);
            let located: Option<usize> = match mul_div_small(base, i, n) {
                Some(f) => {
                    proof {
                        assert(f as int == bin_freq(sr, n as int, i as int));
                    }
                    self.locate(f)
                },
                None => {
                    proof {
                        let fq = bin_freq(sr, n as int, i as int);
                        assert forall|j: int| !in_band(bands, j, fq) by {
                            if 0 <= j < bands.len() {
                                assert(bands[j].1 <= u64::MAX < fq);
                            }
                        }
                    }
                    None
                },
            };
            let ghost fq: int = bin_freq(sr, n as int, i as int);
            match located {
                Some(b) => {
                    proof {
                        assert(in_band(bands, b as int, fq));
                        assert forall|j: int| 0 <= j < num && j != b implies !in_band(
                            bands,
                            j,
                            fq,
                        ) by {
                            if in_band(bands, j, fq) {
                                lemma_band_unique(bands, j, b as int, fq);
                            }
                        }
                        lemma_bucket_bounds(bands, values, sr, b as int, i as int);
                        lemma_mul_upper_bound(
                            band_count(bands, values, sr, b as int, i as int),
                            (WIDE_ONE - 1) as int,
                            u64::MAX as int,
                            (WIDE_ONE - 1) as int,
                        );
                        assert(((WIDE_ONE - 1) as int) * ((WIDE_ONE - 1) as int) + ((WIDE_ONE
                            - 1) as int) < u128::MAX) by (nonlinear_arith);
                    }
                    let bumped_count: u64 = counts[b] + 1;
                    counts.set(b, bumped_count);
                    let bumped_sum: u128 = sums[b] + (spectrum[i] as u128);
                    sums.set(b, bumped_sum);
                },
                None => {
                    proof {
                        lemma_bands_cover(bands, fq);
                        assert(forall|j: int| !in_band(bands, j, fq));
                    }
                },
            }
            proof {
                assert forall|j: int| 0 <= j < num implies (#[trigger] sums@[j]) as int
                    == band_accum(bands, values, sr, j, i + 1) && (#[trigger] counts@[j]) as int
                    == band_count(bands, values, sr, j, i + 1) && counts@[j] < i + 1 by {
                    assert(band_accum(bands, values, sr, j, i + 1) == band_accum(
                        bands,
                        values,
                        sr,
                        j,
                        i as int,
                    ) + if in_band(bands, j, fq) {
                        values[i as int] as int
                    } else {
                        0int
                    });
                    assert(band_count(bands, values, sr, j, i + 1) == band_count(
                        bands,
                        values,
                        sr,
                        j,
                        i as int,
                    ) + if in_band(bands, j, fq) {
                        1int
                    } else {
                        0int
                    });
                    assert(prev_sums[j] as int == band_accum(bands, values, sr, j, i as int));
                    assert(prev_counts[j] as int == band_count(bands, values, sr, j, i as int));
                }
            }
            i = i + 1;
        }

        // Average each band's contributions.
        let mut out: Vec<SignalStrength> = Vec::new();
        let mut j: usize = 0;
        while j < num
            invariant
                bands == self@,
                values == spectrum@,
                n == spectrum@.len(),
                half == n / 2,
                num == self@.len(),
                sums@.len() == num,
                counts@.len() == num,
                out@.len() == j <= num,
                forall|jj: int|
                    0 <= jj < num ==> (#[trigger] sums@[jj]) as int == band_accum(
                        bands,
                        values,
                        sr,
                        jj,
                        half as int + 1,
                    ),
                forall|jj: int|
                    0 <= jj < num ==> (#[trigger] counts@[jj]) as int == band_count(
                        bands,
                        values,
                        sr,
                        jj,
                        half as int + 1,
                    ),
                forall|jj: int|
                    0 <= jj < j ==> (#[trigger] out@[jj]) as int == bucket_value(
                        bands,
                        values,
                        sr,
                        jj,
                    ),
            decreases num - j,
        {
            proof {
                lemma_bucket_bounds(bands, values, sr, j as int, half as int + 1);
                let c = band_count(bands, values, sr, j as int, half as int + 1);
                let sum = band_accum(bands, values, sr, j as int, half as int + 1);
                if c > 0 {
                    lemma_div_pos_is_pos(sum, c);
                    lemma_div_is_ordered(sum, c * (u64::MAX as int), c);
                    lemma_mul_is_commutative(c, u64::MAX as int);
                    lemma_div_by_multiple(u64::MAX as int, c);
                }
            }
            let c: u64 = counts[j];
            let a: u64 = if c > 0 {
                (sums[j] / (c as u128)) as u64
            } else {
                0
            };
            out.push(a);
            j = j + 1;
        }
        Ok(out)
    }
}

} // verus!
