//! Real-time audio spectral analysis: windowed transforms, logarithmic
//! frequency-band partitioning, bin-to-band aggregation, and a sliding
//! sample buffer.
//!
//! All quantities are carried as fixed-point integers (see [`types`]), so
//! every computation here has an exact arithmetic meaning that the
//! contracts pin down.

use vstd::prelude::*;

pub mod types;
pub mod fixed;
pub mod bands;
pub mod buckets;
pub mod spectrum;
pub mod assign;
pub mod sample;
pub mod audio_data;
pub mod trig;
pub mod window;
pub mod window_kind;
pub mod fourier;
pub mod analyzer;
pub mod wave;
pub mod beat;

verus! {

/// Everything that can go wrong while configuring or feeding the
/// analysis pipeline.  All conditions are recoverable and reported to
/// the immediate caller.
#[derive(Clone, Copy, Debug, PartialEq, Eq, Structural)]
pub enum Error {
    /// The number of bands must be greater than zero.
    NumBands,
    /// The lower cutoff must be greater than zero.
    LowerCutoff,
    /// The upper cutoff must be greater than zero.
    UpperCutoff,
    /// The lower cutoff must be less than the upper cutoff.
    CutoffOrder,
    /// Unexpected input buffer size (expected, produced).
    InputBuffer(usize, usize),
    /// Unexpected output buffer size (expected, produced).
    OutputBuffer(usize, usize),
    /// Unexpected number of samples (expected, produced).
    NumSamples(usize, usize),
    /// The sampling rate must be greater than zero (found).
    SamplingRate(u64),
    /// The decay factor must be greater than zero.
    DecayFactor,
    /// The trigger factor must be greater than zero.
    TriggerFactor,
    /// Too few samples in the buffer (expected, produced).
    TooFewSamples(usize, usize),
    /// The spectrum handed to the aggregator must not be empty.
    EmptySpectrum,
}

impl Error {
    /// The description [`Error::message`] returns for each kind.
    pub open spec fn message_spec(self) -> Seq<char> {
        match self {
            Error::NumBands => "number of bands must be greater than zero"@,
            Error::LowerCutoff => "lower cutoff must be greater than zero"@,
            Error::UpperCutoff => "upper cutoff must be greater than zero"@,
            Error::CutoffOrder => "lower cutoff must be less than upper cutoff"@,
            Error::InputBuffer(_, _) => "unexpected input buffer size"@,
            Error::OutputBuffer(_, _) => "unexpected output buffer size"@,
            Error::NumSamples(_, _) => "unexpected number of samples"@,
            Error::SamplingRate(_) => "sampling rate must be greater than zero"@,
            Error::DecayFactor => "decay factor must be greater than zero"@,
            Error::TriggerFactor => "trigger factor must be greater than zero"@,
            Error::TooFewSamples(_, _) => "too few samples in buffer"@,
            Error::EmptySpectrum => "spectrum must not be empty"@,
        }
    }

    /// A short human-readable description of the error kind.
    pub fn message(&self) -> (s: &'static str)
        ensures
            s@ == self.message_spec(),
    {
        match *self {
            Error::NumBands => "number of bands must be greater than zero",
            Error::LowerCutoff => "lower cutoff must be greater than zero",
            Error::UpperCutoff => "upper cutoff must be greater than zero",
            Error::CutoffOrder => "lower cutoff must be less than upper cutoff",
            Error::InputBuffer(_, _) => "unexpected input buffer size",
            Error::OutputBuffer(_, _) => "unexpected output buffer size",
            Error::NumSamples(_, _) => "unexpected number of samples",
            Error::SamplingRate(_) => "sampling rate must be greater than zero",
            Error::DecayFactor => "decay factor must be greater than zero",
            Error::TriggerFactor => "trigger factor must be greater than zero",
            Error::TooFewSamples(_, _) => "too few samples in buffer",
            Error::EmptySpectrum => "spectrum must not be empty",
        }
    }
}

} // verus!
