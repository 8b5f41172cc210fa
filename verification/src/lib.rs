//! Bitstream autocorrelation pitch detection for a monophonic tuner.
//!
//! A fixed-length window of audio samples is binarized by a hysteresis
//! zero-cross detector, packed into a bit buffer, and scanned for the
//! candidate period whose shifted copy differs from the signal in the
//! fewest bits.  The raw period is corrected for octave errors and then
//! refined to sub-sample precision by interpolating the zero crossings
//! of the raw waveform.
//!
//! Samples are fixed-point numbers: `SAMPLE_UNIT` stands for an
//! amplitude of one.  The refined period is returned as an exact
//! fraction of samples.

pub mod bitstream;
pub mod config;
pub mod correlate;
pub mod harmonics;
pub mod pipeline;
pub mod refine;
pub mod words;
pub mod zero_cross;
