//! The analysis front end: window application before the Fourier
//! transform and power-spectrum extraction after it.
//!
//! The transform itself works on floating-point data and runs outside
//! this crate; everything around it — envelope generation, windowing,
//! length validation, and the squared-magnitude power spectrum — is
//! verified here on the fixed-point model.

use vstd::prelude::*;
use vstd::arithmetic::div_mod::{lemma_div_is_ordered, lemma_div_multiples_vanish,
    lemma_div_pos_is_pos};
use vstd::arithmetic::mul::{lemma_mul_inequality, lemma_mul_is_commutative,
    lemma_mul_nonnegative};

verus! {

use crate::Error;
use crate::types::{Sample, SignalStrength, GROWTH_ONE, SIGNAL_ONE};
use crate::sample::SampleBuffer;
use crate::window_kind::WindowKind;
use crate::fixed::sat64;

/// A sample scaled by a window multiplier (Q32.32 ratio), rounded
/// toward zero.
pub open spec fn windowed_spec(s: int, w: int) -> int {
    if s >= 0 {
        s * w / (GROWTH_ONE as int)
    } else {
        -((-s) * w / (GROWTH_ONE as int))
    }
}

/// The power (squared magnitude, in Q32.32) of a complex transform
/// output bin, saturating at `u64::MAX`.
pub open spec fn power_spec(bin: (i64, i64)) -> int {
    sat64((bin.0 * bin.0 + bin.1 * bin.1) / (SIGNAL_ONE as int))
}

/// The fixed, length-specialized analysis configuration: the window
/// envelope applied to every block before it is transformed.
pub struct Analyzer {
    window: Vec<u64>,
}

impl View for Analyzer {
    type V = Seq<u64>;

    closed spec fn view(&self) -> Seq<u64> {
        self.window@
    }
}

impl Analyzer {
    /// Window multipliers never exceed one.
    pub open spec fn wf(&self) -> bool {
        forall|i: int| 0 <= i < self@.len() ==> (#[trigger] self@[i]) <= GROWTH_ONE
    }

    /// Builds an analyzer for blocks of `len` samples, generating the
    /// window envelope once.
    pub fn new(len: usize, window_kind: WindowKind) -> (out: Self)
        requires
            len >= 1,
        ensures
            out@.len() == len,
            out.wf(),
            forall|i: int|
                0 <= i < len ==> (#[trigger] out@[i]) as int == window_kind.window_spec(
                    len as int,
                    i,
                ),
    {
        let window = window_kind.generate(len);
        Analyzer { window }
    }

    /// The block length this analyzer was configured for.
    pub fn len(&self) -> (n: usize)
        ensures
            n == self@.len(),
    {
        self.window.len()
    }

    /// Applies the window to both channels of a sample block, on a
    /// copy.  The block must hold exactly as many samples as the
    /// analyzer's length, else the mismatch is reported.
    pub fn windowed_channels(&self, samples: &SampleBuffer) -> (result: Result<
        (Vec<Sample>, Vec<Sample>),
        Error,
    >)
        requires
            self.wf(),
        ensures
            match result {
                Ok(channels) => {
                    &&& self@.len() == samples@.len()
                    &&& channels.0@.len() == samples@.len()
                    &&& channels.1@.len() == samples@.len()
                    &&& forall|i: int|
                        0 <= i < samples@.len() ==> (#[trigger] channels.0@[i]) as int
                            == windowed_spec(samples@[i].0 as int, self@[i] as int)
                    &&& forall|i: int|
                        0 <= i < samples@.len() ==> (#[trigger] channels.1@[i]) as int
                            == windowed_spec(samples@[i].1 as int, self@[i] as int)
                },
                Err(e) => self@.len() != samples@.len() && e == Error::NumSamples(
                    self@.len() as usize,
                    samples@.len() as usize,
                ),
            },
    {
        let n = self.window.len();
        let samples_len = samples.len();
        if n != samples_len {
            return Err(Error::NumSamples(n, samples_len));
        }
        let snapshot = samples.iter();
        let mut left: Vec<Sample> = Vec::new();
        let mut right: Vec<Sample> = Vec::new();
        let mut it = snapshot;
        let mut i: usize = 0;
        while i < n
            invariant
                self.wf(),
                n == self@.len() == samples@.len(),
                i <= n,
                it.wf(),
                it@ == samples@.skip(i as int),
                left@.len() == i,
                right@.len() == i,
                forall|j: int|
                    0 <= j < i ==> (#[trigger] left@[j]) as int == windowed_spec(
                        samples@[j].0 as int,
                        self@[j] as int,
                    ),
                forall|j: int|
                    0 <= j < i ==> (#[trigger] right@[j]) as int == windowed_spec(
                        samples@[j].1 as int,
                        self@[j] as int,
                    ),
            decreases n - i,
        {
            let pair = match it.next() {
                Some(p) => p,
                None => {
                    proof {
                        assert(false);
                    }
                    (0, 0)
                },
            };
            proof {
                assert(pair == samples@[i as int]);
            }
            let w = self.window[i];
            left.push(apply_window(pair.0, w));
            right.push(apply_window(pair.1, w));
            i = i + 1;
        }
        Ok((left, right))
    }
}

/// Scales one sample by a window multiplier, exactly as the
/// specification states it.
fn apply_window(s: Sample, w: u64) -> (out: Sample)
    requires
        w <= GROWTH_ONE,
    ensures
        out as int == windowed_spec(s as int, w as int),
{
    proof {
        lemma_apply_window_bounds(s as int, w as int);
    }
    if s >= 0 {
        let scaled: u128 = (s as u128) * (w as u128) / (GROWTH_ONE as u128);
        scaled as i32
    } else {
        let mag: u64 = (-(s as i64)) as u64;
        let scaled: u128 = (mag as u128) * (w as u128) / (GROWTH_ONE as u128);
        (-(scaled as i64)) as i32
    }
}

proof fn lemma_apply_window_bounds(s: int, w: int)
    requires
        i32::MIN <= s <= i32::MAX,
        0 <= w <= GROWTH_ONE,
    ensures
        s >= 0 ==> 0 <= s * w / (GROWTH_ONE as int) <= s,
        s < 0 ==> 0 <= (-s) * w / (GROWTH_ONE as int) <= -s,
{
    let g = GROWTH_ONE as int;
    if s >= 0 {
        lemma_mul_nonnegative(s, w);
        lemma_div_pos_is_pos(s * w, g);
        lemma_mul_inequality(w, g, s);
        lemma_mul_is_commutative(w, s);
        lemma_mul_is_commutative(g, s);
        lemma_div_is_ordered(s * w, s * g, g);
        lemma_div_multiples_vanish(s, g);
    } else {
        lemma_mul_nonnegative(-s, w);
        lemma_div_pos_is_pos((-s) * w, g);
        lemma_mul_inequality(w, g, -s);
        lemma_mul_is_commutative(w, -s);
        lemma_mul_is_commutative(g, -s);
        lemma_div_is_ordered((-s) * w, (-s) * g, g);
        lemma_div_multiples_vanish(-s, g);
    }
}

/// The power (squared magnitude, in Q32.32) of one complex transform
/// output bin, saturating at `u64::MAX`.
pub fn bin_power(bin: (i64, i64)) -> (v: SignalStrength)
    ensures
        v as int == power_spec(bin),
{
    proof {
        lemma_power_bin_bounds(bin);
    }
    let re2: i128 = (bin.0 as i128) * (bin.0 as i128);
    let im2: i128 = (bin.1 as i128) * (bin.1 as i128);
    let scaled: u128 = ((re2 as u128) + (im2 as u128)) / (SIGNAL_ONE as u128);
    if scaled > u64::MAX as u128 {
        u64::MAX
    } else {
        scaled as u64
    }
}

/// Converts complex transform output to a power spectrum: the squared
/// magnitude (`re^2 + im^2`, not the magnitude) of every bin, in
/// Q32.32, saturating at `u64::MAX`.
pub fn power_spectrum(bins: &Vec<(i64, i64)>) -> (out: Vec<SignalStrength>)
    ensures
        out@.len() == bins@.len(),
        forall|i: int|
            0 <= i < bins@.len() ==> (#[trigger] out@[i]) as int == power_spec(bins@[i]),
{
    let mut out: Vec<SignalStrength> = Vec::new();
    let n = bins.len();
    let mut i: usize = 0;
    while i < n
        invariant
            i <= n,
            n == bins@.len(),
            out@.len() == i,
            forall|j: int| 0 <= j < i ==> (#[trigger] out@[j]) as int == power_spec(bins@[j]),
        decreases n - i,
    {
        out.push(bin_power(bins[i]));
        i = i + 1;
    }
    out
}

proof fn lemma_power_bin_bounds(bin: (i64, i64))
    ensures
        0 <= bin.0 * bin.0 <= (crate::fixed::WIDE_ONE as int / 2) * (crate::fixed::WIDE_ONE as int
            / 2),
        0 <= bin.1 * bin.1 <= (crate::fixed::WIDE_ONE as int / 2) * (crate::fixed::WIDE_ONE as int
            / 2),
        (bin.0 as i128) as int == bin.0 as int,
        (bin.1 as i128) as int == bin.1 as int,
        bin.0 * bin.0 + bin.1 * bin.1 < u128::MAX,
        i128::MAX > (crate::fixed::WIDE_ONE as int / 2) * (crate::fixed::WIDE_ONE as int / 2),
{
    let h = crate::fixed::WIDE_ONE as int / 2;
    assert(0 <= bin.0 * bin.0 <= (crate::fixed::WIDE_ONE as int / 2) * (crate::fixed::WIDE_ONE as int
        / 2)) by (nonlinear_arith)
        requires
            i64::MIN <= bin.0 <= i64::MAX,
    ;
    assert(0 <= bin.1 * bin.1 <= (crate::fixed::WIDE_ONE as int / 2) * (crate::fixed::WIDE_ONE as int
        / 2)) by (nonlinear_arith)
        requires
            i64::MIN <= bin.1 <= i64::MAX,
    ;
    assert((crate::fixed::WIDE_ONE as int / 2) * (crate::fixed::WIDE_ONE as int / 2) + (
    crate::fixed::WIDE_ONE as int / 2) * (crate::fixed::WIDE_ONE as int / 2) < u128::MAX)
        by (nonlinear_arith);
    assert(i128::MAX > (crate::fixed::WIDE_ONE as int / 2) * (crate::fixed::WIDE_ONE as int / 2))
        by (nonlinear_arith);
}

} // verus!
