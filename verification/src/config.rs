use vstd::prelude::*;

use crate::color::Color;

verus! {

/// A validated rendering configuration: the amplitude range that the image
/// height spans, and the background and foreground colors.
///
/// `new` is the only way to obtain one, so every `WaveformConfig` satisfies
/// `wf()`: the amplitude range is non-empty and both colors share one pixel
/// layout.  Amplitudes use the same fixed-point scale as the samples.
#[derive(Clone, Copy, Debug)]
pub struct WaveformConfig {
    amp_min: i64,
    amp_max: i64,
    background: Color,
    foreground: Color,
}

impl WaveformConfig {
    /// The lower end of the rendered amplitude range.
    pub closed spec fn spec_amp_min(self) -> i64 {
        self.amp_min
    }

    /// The upper end of the rendered amplitude range.
    pub closed spec fn spec_amp_max(self) -> i64 {
        self.amp_max
    }

    /// The color painted outside the amplitude envelope.
    pub closed spec fn spec_background(self) -> Color {
        self.background
    }

    /// The color painted inside the amplitude envelope.
    pub closed spec fn spec_foreground(self) -> Color {
        self.foreground
    }

    /// The pixel width shared by both colors, in bytes.
    pub open spec fn spec_bytes_per_pixel(self) -> int {
        self.spec_background().spec_bytes_per_pixel()
    }

    /// What validation established: a non-empty amplitude range and one pixel
    /// layout shared by both colors.
    pub open spec fn wf(self) -> bool {
        &&& self.spec_amp_min() < self.spec_amp_max()
        &&& self.spec_background().same_variant(self.spec_foreground())
    }

    /// Validates and builds a configuration.  Returns `None` when the
    /// amplitude range is empty or reversed, or when the two colors use
    /// different pixel layouts.
    pub fn new(amp_min: i64, amp_max: i64, background: Color, foreground: Color) -> (r: Option<
        WaveformConfig,
    >)
        ensures
            r is Some <==> (amp_min < amp_max && background.same_variant(foreground)),
            r matches Some(c) ==> {
                &&& c.wf()
                &&& c.spec_amp_min() == amp_min
                &&& c.spec_amp_max() == amp_max
                &&& c.spec_background() == background
                &&& c.spec_foreground() == foreground
            },
    {
        if amp_min < amp_max && background.bytes_per_pixel() == foreground.bytes_per_pixel() {
            Some(WaveformConfig { amp_min, amp_max, background, foreground })
        } else {
            None
        }
    }

    /// Read-only access to the background color.
    pub fn get_background(&self) -> (c: Color)
        ensures
            c == self.spec_background(),
    {
        self.background
    }

    /// Read-only access to the foreground color.
    pub fn get_foreground(&self) -> (c: Color)
        ensures
            c == self.spec_foreground(),
    {
        self.foreground
    }

    /// Read-only access to the lower end of the amplitude range.
    pub fn get_amp_min(&self) -> (v: i64)
        ensures
            v == self.spec_amp_min(),
    {
        self.amp_min
    }

    /// Read-only access to the upper end of the amplitude range.
    pub fn get_amp_max(&self) -> (v: i64)
        ensures
            v == self.spec_amp_max(),
    {
        self.amp_max
    }
}

} // verus!
