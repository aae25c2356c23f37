//! Sample counts and the frame-width policy of differential graphs.
use vstd::prelude::*;

verus! {

/// Source of frame widths for differential flame graphs, chosen per stack.
#[derive(Debug, Clone, Copy, PartialEq, Eq, Structural, Default)]
pub enum FrameWidthSource {
    /// Shape from the first dataset.
    Before,
    /// Shape from the second dataset (the default).
    #[default]
    After,
    /// Only the differences between the two datasets.
    Difference,
    /// Only what the two datasets have in common.
    Common,
    /// All samples of both datasets.
    AllSamples,
    /// The larger of the two datasets (common plus difference).
    Max,
}

/// The width that `src` gives to a `(before, after)` pair.
pub open spec fn width_of(src: FrameWidthSource, before: int, after: int) -> int {
    match src {
        FrameWidthSource::Before => before,
        FrameWidthSource::After => after,
        FrameWidthSource::Difference => if before > after { before - after } else { after - before },
        FrameWidthSource::Common => if before < after { before } else { after },
        FrameWidthSource::AllSamples => before + after,
        FrameWidthSource::Max => if before > after { before } else { after },
    }
}

impl FrameWidthSource {
    /// The default source: the second dataset.
    pub fn default_source() -> (r: FrameWidthSource)
        ensures
            r == FrameWidthSource::After,
    {
        FrameWidthSource::After
    }

    /// Apply the width policy to a `(before, after)` pair.
    pub fn apply(&self, before: u64, after: u64) -> (r: u64)
        requires
            *self == FrameWidthSource::AllSamples ==> before + after <= u64::MAX,
        ensures
            r == width_of(*self, before as int, after as int),
    {
        match self {
            FrameWidthSource::Before => before,
            FrameWidthSource::After => after,
            FrameWidthSource::Difference => {
                if before > after {
                    before - after
                } else {
                    after - before
                }
            },
            FrameWidthSource::Common => {
                if before < after {
                    before
                } else {
                    after
                }
            },
            FrameWidthSource::AllSamples => before + after,
            FrameWidthSource::Max => {
                if before > after {
                    before
                } else {
                    after
                }
            },
        }
    }
}

/// Largest overall total, per dataset and in the width metric, that a graph
/// may hold (2^52). Percent-point changes are formatted exactly from
/// `100 * count * total` products, whose numerators must stay within the
/// 112 bits that the exact fixed-point formatting takes; 2^52 is the largest
/// power of two for which they do.
pub const MAX_SAMPLES: u64 = 0x10_0000_0000_0000;

/// A sample count: the two datasets and the width used for layout. In
/// single-count mode `before`, `after` and `visual` are the same number.
#[derive(Debug, Clone, Copy, PartialEq, Eq, Structural)]
pub struct SampleCount {
    pub before: u64,
    pub after: u64,
    pub visual: u64,
}

impl SampleCount {
    pub fn zero() -> (r: SampleCount)
        ensures
            r == (SampleCount { before: 0, after: 0, visual: 0 }),
    {
        SampleCount { before: 0, after: 0, visual: 0 }
    }

    /// Component-wise sum.
    pub fn add(&self, o: &SampleCount) -> (r: SampleCount)
        requires
            self.before + o.before <= u64::MAX,
            self.after + o.after <= u64::MAX,
            self.visual + o.visual <= u64::MAX,
        ensures
            r.before == self.before + o.before,
            r.after == self.after + o.after,
            r.visual == self.visual + o.visual,
    {
        SampleCount {
            before: self.before + o.before,
            after: self.after + o.after,
            visual: self.visual + o.visual,
        }
    }
}

} // verus!
