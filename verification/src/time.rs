use vstd::prelude::*;

verus! {

/// The number of microsecond-millihertz units in one sample:
/// 10^6 microseconds per second times 10^3 millihertz per hertz.
pub const MICROS_MILLIHZ_PER_SAMPLE: u64 = 1_000_000_000;

/// A window of the sample data to render.
#[derive(Clone, Copy, Debug, PartialEq, Eq, Structural)]
pub enum TimeRange {
    /// A window in elapsed time, as whole microseconds: the samples taken
    /// from `start` (inclusive) to `end` (exclusive) microseconds after the
    /// first sample.
    Micros(u64, u64),
    /// A window given directly as sample indices, `start` inclusive to `end`
    /// exclusive.
    Samples(usize, usize),
}

impl TimeRange {
    /// The first sample index of this window at the given sample rate: for a
    /// time-based window, the floor of the window start times the rate.
    pub open spec fn spec_begin(self, sample_rate_millihz: u64) -> int {
        match self {
            TimeRange::Micros(b, _) => (b * sample_rate_millihz) / (
            MICROS_MILLIHZ_PER_SAMPLE as int),
            TimeRange::Samples(b, _) => b as int,
        }
    }

    /// The one-past-the-last sample index of this window at the given sample
    /// rate: for a time-based window, the floor of the window end times the
    /// rate.
    pub open spec fn spec_end(self, sample_rate_millihz: u64) -> int {
        match self {
            TimeRange::Micros(_, e) => (e * sample_rate_millihz) / (
            MICROS_MILLIHZ_PER_SAMPLE as int),
            TimeRange::Samples(_, e) => e as int,
        }
    }

    /// Whether this window resolves, at the given rate, to a well-ordered
    /// sample interval that the machine can index.
    pub open spec fn spec_resolvable(self, sample_rate_millihz: u64) -> bool {
        0 <= self.spec_begin(sample_rate_millihz) <= self.spec_end(sample_rate_millihz)
            <= usize::MAX
    }

    /// Resolves this window to an absolute half-open sample interval
    /// `[begin, end)` at the given sample rate.
    pub fn resolve(&self, sample_rate_millihz: u64) -> (r: (usize, usize))
        requires
            self.spec_resolvable(sample_rate_millihz),
        ensures
            r.0 == self.spec_begin(sample_rate_millihz),
            r.1 == self.spec_end(sample_rate_millihz),
    {
        match self {
            TimeRange::Micros(b, e) => {
                let rate = sample_rate_millihz as u128;
                let begin = (*b as u128 * rate) / (MICROS_MILLIHZ_PER_SAMPLE as u128);
                let end = (*e as u128 * rate) / (MICROS_MILLIHZ_PER_SAMPLE as u128);
                (begin as usize, end as usize)
            },
            TimeRange::Samples(b, e) => (*b, *e),
        }
    }
}

} // verus!
