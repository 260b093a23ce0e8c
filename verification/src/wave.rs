//! Periodic test-wave generation: sample values of the classic waveform
//! shapes at a fixed amplitude of one quarter.

use vstd::prelude::*;
use vstd::arithmetic::div_mod::{
    lemma_div_is_ordered, lemma_div_multiples_vanish, lemma_div_pos_is_pos, lemma_mod_bound,
    lemma_multiply_divide_lt,
};
use vstd::arithmetic::mul::{
    lemma_mul_inequality, lemma_mul_is_commutative, lemma_mul_nonnegative, lemma_mul_upper_bound,
};

verus! {

use crate::types::{Frequency, Sample, FREQ_SCALE, GROWTH_ONE};
use crate::trig::{lemma_sin_turns_bounds, sin_turns, sin_turns_spec, QUARTER_TURN};

/// The generated amplitude: one quarter, in Q.16.
pub const WAVE_AMPLITUDE: i64 = 16_384;

/// The fractional position within the wave's cycle at sample `i`
/// (in Q32.32 turns): the fractional part of `i * freq / spp` cycles.
pub open spec fn cycle_frac(i: int, spp: int, freq: int) -> int {
    let den = spp * (FREQ_SCALE as int);
    (i * freq % den) * (GROWTH_ONE as int) / den
}

/// An amplitude-scaled Q32.32 value, rounded toward zero.
pub open spec fn scale_amp(v: int) -> int {
    if v >= 0 {
        WAVE_AMPLITUDE * v / (GROWTH_ONE as int)
    } else {
        -(WAVE_AMPLITUDE * (-v) / (GROWTH_ONE as int))
    }
}

/// The supported waveform shapes.
#[derive(Clone, Copy)]
pub enum WaveFunction {
    Sine,
    Square,
    Triangle,
    Sawtooth,
    SineMag,
}

impl WaveFunction {
    /// The value (in Q.16) of this waveform at fractional cycle
    /// position `frac` (in Q32.32 turns).
    pub open spec fn val_at_spec(self, frac: int) -> int {
        let s = GROWTH_ONE as int;
        match self {
            WaveFunction::Sine => scale_amp(sin_turns_spec(frac)),
            WaveFunction::Square => if frac < s / 2 {
                WAVE_AMPLITUDE as int
            } else {
                -(WAVE_AMPLITUDE as int)
            },
            WaveFunction::Triangle => {
                let g = (frac + QUARTER_TURN) % s;
                let dist = if g >= s / 2 {
                    g - s / 2
                } else {
                    s / 2 - g
                };
                scale_amp(s - 4 * dist)
            },
            WaveFunction::Sawtooth => scale_amp(2 * frac - s),
            WaveFunction::SineMag => {
                let m = sin_turns_spec(frac / 2);
                let a = if m >= 0 {
                    m
                } else {
                    -m
                };
                scale_amp(2 * a - s)
            },
        }
    }

    /// The value (in Q.16) of this waveform at sample `i` of a wave of
    /// `frequency` sampled `samples_per_period` times per second.
    pub open spec fn val_spec(self, i: int, samples_per_period: int, frequency: int) -> int {
        self.val_at_spec(cycle_frac(i, samples_per_period, frequency))
    }

    /// Evaluates the waveform, exactly as the specification states it.
    pub fn val(&self, sample_index: usize, samples_per_period: usize, frequency: Frequency) -> (out:
        Sample)
        requires
            samples_per_period > 0,
        ensures
            out as int == self.val_spec(
                sample_index as int,
                samples_per_period as int,
                frequency as int,
            ),
            -WAVE_AMPLITUDE <= out <= WAVE_AMPLITUDE,
    {
        let den: u128 = (samples_per_period as u128) * (FREQ_SCALE as u128);
        proof {
            lemma_mul_upper_bound(
                samples_per_period as int,
                (crate::fixed::WIDE_ONE - 1) as int,
                FREQ_SCALE as int,
                FREQ_SCALE as int,
            );
            assert(((crate::fixed::WIDE_ONE - 1) as int) * (FREQ_SCALE as int) < u128::MAX)
                by (nonlinear_arith);
            lemma_mul_nonnegative(samples_per_period as int, FREQ_SCALE as int);
            lemma_mul_upper_bound(
                sample_index as int,
                (crate::fixed::WIDE_ONE - 1) as int,
                frequency as int,
                (crate::fixed::WIDE_ONE - 1) as int,
            );
            assert(((crate::fixed::WIDE_ONE - 1) as int) * ((crate::fixed::WIDE_ONE - 1) as int)
                < u128::MAX) by (nonlinear_arith);
            lemma_mul_nonnegative(sample_index as int, frequency as int);
        }
        let scaled: u128 = (sample_index as u128) * (frequency as u128);
        let rem: u128 = scaled % den;
        proof {
            lemma_mod_bound(scaled as int, den as int);
            lemma_mul_inequality(rem as int, (den - 1) as int, GROWTH_ONE as int);
            lemma_mul_nonnegative(rem as int, GROWTH_ONE as int);
            lemma_mul_upper_bound(
                rem as int,
                den as int,
                GROWTH_ONE as int,
                GROWTH_ONE as int,
            );
            assert(den as int * (GROWTH_ONE as int) < u128::MAX) by (nonlinear_arith)
                requires
                    0 < den as int <= ((crate::fixed::WIDE_ONE - 1) as int) * (FREQ_SCALE as int),
            ;
            lemma_div_pos_is_pos(rem as int * (GROWTH_ONE as int), den as int);
            lemma_mul_is_commutative(den as int, GROWTH_ONE as int);
            lemma_multiply_divide_lt(rem as int * (GROWTH_ONE as int), den as int,
                GROWTH_ONE as int);
        }
        let frac: u64 = ((rem * (GROWTH_ONE as u128)) / den) as u64;
        proof {
            assert(frac as int == cycle_frac(
                sample_index as int,
                samples_per_period as int,
                frequency as int,
            ));
            assert(frac < GROWTH_ONE);
        }
        self.val_at(frac)
    }

    /// Evaluates the waveform at a fractional cycle position.
    fn val_at(&self, frac: u64) -> (out: Sample)
        requires
            frac < GROWTH_ONE,
        ensures
            out as int == self.val_at_spec(frac as int),
            -WAVE_AMPLITUDE <= out <= WAVE_AMPLITUDE,
    {
        let half: u64 = GROWTH_ONE / 2;
        match *self {
            WaveFunction::Sine => {
                proof {
                    lemma_sin_turns_bounds(frac as int);
                }
                scale_amp_exec(sin_turns(frac))
            },
            WaveFunction::Square => {
                if frac < half {
                    WAVE_AMPLITUDE as i32
                } else {
                    -(WAVE_AMPLITUDE as i32)
                }
            },
            WaveFunction::Triangle => {
                let g: u64 = (frac + QUARTER_TURN) % GROWTH_ONE;
                proof {
                    lemma_mod_bound((frac + QUARTER_TURN) as int, GROWTH_ONE as int);
                }
                let dist: u64 = if g >= half {
                    g - half
                } else {
                    half - g
                };
                scale_amp_exec((GROWTH_ONE as i64) - 4 * (dist as i64))
            },
            WaveFunction::Sawtooth => {
                scale_amp_exec(2 * (frac as i64) - (GROWTH_ONE as i64))
            },
            WaveFunction::SineMag => {
                proof {
                    lemma_sin_turns_bounds(frac as int / 2);
                }
                let m: i64 = sin_turns(frac / 2);
                let a: i64 = if m >= 0 {
                    m
                } else {
                    -m
                };
                scale_amp_exec(2 * a - (GROWTH_ONE as i64))
            },
        }
    }
}

/// Scales a Q32.32 value in `[-1, 1]` by the wave amplitude, exactly as
/// the specification states it.
fn scale_amp_exec(v: i64) -> (out: Sample)
    requires
        -(GROWTH_ONE as i64) <= v <= GROWTH_ONE as i64,
    ensures
        out as int == scale_amp(v as int),
        -WAVE_AMPLITUDE <= out <= WAVE_AMPLITUDE,
{
    proof {
        lemma_scale_amp_bounds(v as int);
    }
    if v >= 0 {
        let scaled: u128 = ((WAVE_AMPLITUDE as u128) * (v as u128)) / (GROWTH_ONE as u128);
        scaled as i32
    } else {
        let mag: u128 = (-v) as u128;
        let scaled: u128 = ((WAVE_AMPLITUDE as u128) * mag) / (GROWTH_ONE as u128);
        -(scaled as i32)
    }
}

proof fn lemma_scale_amp_bounds(v: int)
    requires
        -(GROWTH_ONE as int) <= v <= GROWTH_ONE as int,
    ensures
        v >= 0 ==> 0 <= WAVE_AMPLITUDE * v / (GROWTH_ONE as int) <= WAVE_AMPLITUDE,
        v < 0 ==> 0 <= WAVE_AMPLITUDE * (-v) / (GROWTH_ONE as int) <= WAVE_AMPLITUDE,
{
    let g = GROWTH_ONE as int;
    let m = if v >= 0 {
        v
    } else {
        -v
    };
    lemma_mul_nonnegative(WAVE_AMPLITUDE as int, m);
    lemma_div_pos_is_pos(WAVE_AMPLITUDE as int * m, g);
    lemma_mul_inequality(m, g, WAVE_AMPLITUDE as int);
    lemma_mul_is_commutative(m, WAVE_AMPLITUDE as int);
    lemma_mul_is_commutative(g, WAVE_AMPLITUDE as int);
    lemma_div_is_ordered(WAVE_AMPLITUDE as int * m, WAVE_AMPLITUDE as int * g, g);
    lemma_mul_is_commutative(WAVE_AMPLITUDE as int, g);
    lemma_div_multiples_vanish(WAVE_AMPLITUDE as int, g);
}

/// A stateful generator stepping one sample of a waveform at a time.
pub struct WaveGen {
    function: WaveFunction,
    samples_per_period: usize,
    sample_index: usize,
    frequency: Frequency,
}

impl WaveGen {
    /// The generator's waveform.
    pub closed spec fn function_spec(&self) -> WaveFunction {
        self.function
    }

    /// The generator's sampling rate, in samples per period.
    pub closed spec fn rate_spec(&self) -> usize {
        self.samples_per_period
    }

    /// The position of the next sample within the current period.
    pub closed spec fn index_spec(&self) -> usize {
        self.sample_index
    }

    /// The generated frequency, in microhertz.
    pub closed spec fn frequency_spec(&self) -> Frequency {
        self.frequency
    }

    /// The sampling rate is positive and the position stays inside the
    /// period.
    pub open spec fn wf(&self) -> bool {
        self.rate_spec() > 0 && self.index_spec() < self.rate_spec()
    }

    /// Builds a generator starting at the first sample of the period.
    pub fn new(function: WaveFunction, samples_per_period: usize, frequency: Frequency) -> (out:
        Self)
        requires
            samples_per_period > 0,
        ensures
            out.function_spec() == function,
            out.rate_spec() == samples_per_period,
            out.index_spec() == 0,
            out.frequency_spec() == frequency,
            out.wf(),
    {
        Self { function, samples_per_period, sample_index: 0, frequency }
    }

    /// The next sample of the waveform; the position wraps at the end
    /// of each period.
    pub fn next(&mut self) -> (out: Sample)
        requires
            old(self).wf(),
        ensures
            final(self).wf(),
            out as int == old(self).function_spec().val_spec(
                old(self).index_spec() as int,
                old(self).rate_spec() as int,
                old(self).frequency_spec() as int,
            ),
            final(self).index_spec() as int == (old(self).index_spec() + 1) % (old(
                self,
            ).rate_spec() as int),
            final(self).function_spec() == old(self).function_spec(),
            final(self).rate_spec() == old(self).rate_spec(),
            final(self).frequency_spec() == old(self).frequency_spec(),
    {
        let v = self.function.val(self.sample_index, self.samples_per_period, self.frequency);
        self.sample_index = (self.sample_index + 1) % self.samples_per_period;
        v
    }
}

} // verus!
