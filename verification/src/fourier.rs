//! Fourier-pipeline window tapers.

pub mod window;
