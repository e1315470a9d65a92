use vstd::prelude::*;

verus! {

/// An immutable ordered sequence of amplitude samples plus the rate at which
/// they were taken.
///
/// A sample is a signed 64-bit amplitude in a fixed-point scale of the
/// caller's choosing; the same scale must be used for the amplitude range of
/// the rendering configuration.  The sample rate is given in millihertz
/// (thousandths of samples per second), so that fractional rates are exact.
pub struct SampleSequence {
    pub data: Vec<i64>,
    pub sample_rate_millihz: u64,
}

/// A pair of minimum and maximum amplitude over some group of samples.
#[derive(Clone, Copy, Debug, PartialEq, Eq, Structural)]
pub struct MinMaxPair {
    pub min: i64,
    pub max: i64,
}

} // verus!
