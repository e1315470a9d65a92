//! Binned min/max waveform rendering.
//!
//! A long sequence of audio amplitude samples is reduced once, at
//! construction, to fixed-size bins of (min, max) amplitude pairs.  Any time
//! window of those bins can then be rendered, many times and at any zoom
//! level, into a caller-owned pixel buffer as vertical amplitude bars, in one
//! of three pixel layouts (one, three or four bytes per pixel).
//!
//! Amplitudes are plain signed integers in a fixed-point scale of the
//! caller's choosing; sample rates are whole millihertz and time windows
//! whole microseconds, so every bin-to-pixel and amplitude-to-row mapping is
//! exact integer arithmetic.

pub mod binned;
pub mod color;
pub mod config;
pub mod error;
pub mod raster;
pub mod sample;
pub mod time;
