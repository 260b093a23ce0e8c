//! Mono or channel-split stereo audio data, with a combined
//! root-mean-square loudness estimate.

use vstd::prelude::*;
use vstd::arithmetic::mul::lemma_mul_nonnegative;

verus! {

use crate::types::SignalStrength;
use crate::types::SIGNAL_ONE;
use crate::sample::{mean_sq_spec, rms_spec, SampleBuffer, SAMPLE_SQ_MAX};
use crate::fixed::{isqrt, sqrt_floor};

/// Audio held either as one buffer of sample pairs or as two
/// channel-split buffers of equal length.
pub enum AudioBuffer {
    Mono(SampleBuffer),
    Stereo(SampleBuffer, SampleBuffer),
}

impl AudioBuffer {
    /// Channel-split buffers must be equally long.
    pub open spec fn wf(&self) -> bool {
        match self {
            AudioBuffer::Mono(_) => true,
            AudioBuffer::Stereo(l, r) => l@.len() == r@.len(),
        }
    }

    /// The number of stored samples.
    pub fn len(&self) -> (n: usize)
        requires
            self.wf(),
        ensures
            match self {
                AudioBuffer::Mono(b) => n == b@.len(),
                AudioBuffer::Stereo(l, _) => n == l@.len(),
            },
    {
        match self {
            AudioBuffer::Mono(buf) => buf.len(),
            AudioBuffer::Stereo(buf_l, _) => buf_l.len(),
        }
    }

    /// Root-mean-square loudness (in Q32.32): for stereo data the
    /// per-channel mean squares are averaged before the square root.
    pub fn root_mean_sqr(&self) -> (out: SignalStrength)
        requires
            self.wf(),
        ensures
            match self {
                AudioBuffer::Mono(b) => out as int == rms_spec(b@),
                AudioBuffer::Stereo(l, r) => out as int == sqrt_floor(
                    ((mean_sq_spec(l@) + mean_sq_spec(r@)) / 2) * (SIGNAL_ONE as int),
                ),
            },
    {
        match self {
            AudioBuffer::Mono(buf) => buf.root_mean_sqr(),
            AudioBuffer::Stereo(buf_l, buf_r) => {
                let mean_sqr_l = buf_l.mean_sqr();
                let mean_sqr_r = buf_r.mean_sqr();
                let ms: u64 = (mean_sqr_l + mean_sqr_r) / 2;
                proof {
                    lemma_mul_nonnegative(ms as int, SIGNAL_ONE as int);
                    assert((ms as int) * (SIGNAL_ONE as int) <= (SAMPLE_SQ_MAX as int) * (
                    SIGNAL_ONE as int)) by (nonlinear_arith)
                        requires
                            0 <= ms <= SAMPLE_SQ_MAX,
                    ;
                    assert((SAMPLE_SQ_MAX as int) * (SIGNAL_ONE as int) < u128::MAX)
                        by (nonlinear_arith);
                }
                isqrt((ms as u128) * (SIGNAL_ONE as u128))
            },
        }
    }
}

} // verus!
