//! Beat detection configuration: validation of the detector's
//! parameters.

use vstd::prelude::*;

verus! {

use crate::Error;
use crate::types::{Frequency, SignalStrength};
use crate::analyzer::Analyzer;

/// A level-tracking beat detector over an analysis pipeline.
pub struct Detector {
    decay: SignalStrength,
    trigger: SignalStrength,
    lower_cutoff: Frequency,
    upper_cutoff: Frequency,
    volume: SignalStrength,
    delta: SignalStrength,
    beat_delta: SignalStrength,
    peak: SignalStrength,
    valley: SignalStrength,
    analyzer: Analyzer,
}

impl Detector {
    /// Validates a detector configuration, each parameter in order.
    pub fn new(
        decay_factor: usize,
        trigger: usize,
        trigger_factor: usize,
        lower_cutoff: usize,
        upper_cutoff: usize,
        fft_len: usize,
    ) -> (result: Result<(), Error>)
        requires
            fft_len >= 1,
        ensures
            decay_factor == 0 ==> result == Err::<(), Error>(Error::DecayFactor),
            decay_factor > 0 && trigger_factor == 0 ==> result == Err::<(), Error>(
                Error::TriggerFactor,
            ),
            decay_factor > 0 && trigger_factor > 0 && lower_cutoff == 0 ==> result == Err::<
                (),
                Error,
            >(Error::LowerCutoff),
            decay_factor > 0 && trigger_factor > 0 && lower_cutoff > 0 && upper_cutoff == 0
                ==> result == Err::<(), Error>(Error::UpperCutoff),
            decay_factor > 0 && trigger_factor > 0 && lower_cutoff > 0 && upper_cutoff > 0
                && lower_cutoff >= upper_cutoff ==> result == Err::<(), Error>(Error::CutoffOrder),
            decay_factor > 0 && trigger_factor > 0 && 0 < lower_cutoff < upper_cutoff ==> result
                == Ok::<(), Error>(()),
    {
        if !(decay_factor > 0) {
            return Err(Error::DecayFactor);
        }
        if !(trigger_factor > 0) {
            return Err(Error::TriggerFactor);
        }
        if !(lower_cutoff > 0) {
            return Err(Error::LowerCutoff);
        }
        if !(upper_cutoff > 0) {
            return Err(Error::UpperCutoff);
        }
        if !(lower_cutoff < upper_cutoff) {
            return Err(Error::CutoffOrder);
        }
        // the detector's analysis pipeline is configured eagerly, even
        // though nothing consumes it yet
        let _analyzer = Analyzer::new(fft_len, crate::window_kind::WindowKind::Blackman);
        Ok(())
    }
}

} // verus!
