//! The fixed-point number model used throughout the crate.
//!
//! Audio work is usually done in floating point, but every quantity this
//! crate computes with is held as a scaled integer, which gives each
//! operation an exact meaning:
//!
//! * a [`Frequency`] is a count of microhertz (`22_050 Hz` is
//!   `22_050_000_000`),
//! * a [`SignalStrength`] is a Q32.32 value (`1.0` is [`SIGNAL_ONE`]),
//!   used for powers, magnitudes and loudness,
//! * a [`Sample`] is a Q.16 amplitude (`1.0` is [`SAMPLE_ONE`]), nominal
//!   range `[-1.0, 1.0]`,
//! * growth ratios and window coefficients are Q32.32 values
//!   (`1.0` is [`GROWTH_ONE`]).

use vstd::prelude::*;

verus! {

/// A frequency in microhertz.
pub type Frequency = u64;

/// A non-negative signal quantity (power, magnitude, loudness) in Q32.32.
pub type SignalStrength = u64;

/// A single audio sample amplitude in Q.16.
pub type Sample = i32;

/// Microhertz per hertz: the scale of [`Frequency`].
pub const FREQ_SCALE: u64 = 1_000_000;

/// The Q32.32 fixed-point one, used for growth ratios and window values.
pub const GROWTH_ONE: u64 = 4_294_967_296;

/// The Q32.32 fixed-point one, used for signal strengths.
pub const SIGNAL_ONE: u64 = 4_294_967_296;

/// The Q.16 fixed-point one, used for sample amplitudes.
pub const SAMPLE_ONE: i32 = 65_536;

} // verus!
