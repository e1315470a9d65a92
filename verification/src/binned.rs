use vstd::arithmetic::div_mod::{
    lemma_div_is_ordered, lemma_div_nonincreasing, lemma_div_pos_is_pos,
    lemma_fundamental_div_mod, lemma_fundamental_div_mod_converse,
    lemma_mod_division_less_than_divisor,
};
use vstd::arithmetic::mul::{lemma_mul_inequality, lemma_mul_is_distributive_add_other_way};
use vstd::prelude::*;

use crate::raster::{
    lemma_byte_index_injective, lemma_byte_index_surjective, lemma_row_base_in_bounds,
    paint_column, spec_bar_byte, spec_byte_index, spec_in_rect,
};

use crate::color::Color;
use crate::config::WaveformConfig;
use crate::error::InvalidSizeError;
use crate::sample::{MinMaxPair, SampleSequence};
use crate::time::TimeRange;

verus! {

/// How many bins a sequence of `n` samples yields at bin size `b`: the
/// division rounded up, so that a final partial bin still counts.
pub open spec fn spec_nb_bins(n: int, b: int) -> int
    recommends
        b >= 1,
{
    (n + b - 1) / b
}

/// What it means for `p` to be the min/max summary of bin `i` of `samples`
/// at bin size `b`: every sample of the bin lies between `p.min` and
/// `p.max`, and both bounds are attained by some sample of the bin.
pub open spec fn spec_bin_summary(samples: Seq<i64>, b: int, i: int, p: MinMaxPair) -> bool {
    let lo = i * b;
    let hi = if (i + 1) * b <= samples.len() {
        (i + 1) * b
    } else {
        samples.len() as int
    };
    &&& forall|j: int| lo <= j < hi ==> p.min <= #[trigger] samples[j] <= p.max
    &&& exists|j: int| lo <= j < hi && #[trigger] samples[j] == p.min
    &&& exists|j: int| lo <= j < hi && #[trigger] samples[j] == p.max
}

/// The image row that amplitude `v` maps to on a column of height `h` whose
/// bottom is `amp_min` and whose top is `amp_max`: the scaled offset above
/// the bottom, clamped into `[0, h]`, measured from the top (row 0 is the
/// highest amplitude).
pub open spec fn spec_row(v: int, amp_min: int, amp_max: int, h: int) -> int
    recommends
        amp_min < amp_max,
        h >= 0,
{
    let scaled = if v <= amp_min {
        0int
    } else {
        ((v - amp_min) * h) / (amp_max - amp_min)
    };
    let clamped = if scaled > h {
        h
    } else {
        scaled
    };
    h - clamped
}

/// Maps an amplitude to its image row, flipping vertically and clamping
/// out-of-range amplitudes to the image bounds.
pub fn amplitude_to_row(v: i64, amp_min: i64, amp_max: i64, h: usize) -> (r: usize)
    requires
        amp_min < amp_max,
    ensures
        r == spec_row(v as int, amp_min as int, amp_max as int, h as int),
        r <= h,
{
    if v <= amp_min {
        return h;
    }
    let d: u128 = (v as i128 - amp_min as i128) as u128;
    let den: u128 = (amp_max as i128 - amp_min as i128) as u128;
    proof {
        assert((d as int) * (h as int) <= u128::MAX) by (nonlinear_arith)
            requires
                0 <= d as int <= u64::MAX,
                0 <= h as int <= u64::MAX,
        ;
    }
    let num: u128 = d * (h as u128);
    let q: u128 = num / den;
    let clamped: u128 = if q > h as u128 {
        h as u128
    } else {
        q
    };
    h - (clamped as usize)
}

/// The minimum of the `min` fields of bins `[s, e)`.
pub open spec fn spec_env_min(bins: Seq<MinMaxPair>, s: int, e: int) -> i64
    recommends
        0 <= s < e <= bins.len(),
    decreases e - s,
{
    if e <= s + 1 {
        bins[s].min
    } else {
        let rest = spec_env_min(bins, s, e - 1);
        if bins[e - 1].min < rest {
            bins[e - 1].min
        } else {
            rest
        }
    }
}

/// The maximum of the `max` fields of bins `[s, e)`.
pub open spec fn spec_env_max(bins: Seq<MinMaxPair>, s: int, e: int) -> i64
    recommends
        0 <= s < e <= bins.len(),
    decreases e - s,
{
    if e <= s + 1 {
        bins[s].max
    } else {
        let rest = spec_env_max(bins, s, e - 1);
        if bins[e - 1].max > rest {
            bins[e - 1].max
        } else {
            rest
        }
    }
}

/// Reduces bins `[s, e)` to one pair: the min of the mins and the max of the
/// maxes.
fn envelope_of(bins: &Vec<MinMaxPair>, s: usize, e: usize) -> (r: (i64, i64))
    requires
        s < e <= bins@.len(),
    ensures
        r.0 == spec_env_min(bins@, s as int, e as int),
        r.1 == spec_env_max(bins@, s as int, e as int),
{
    let mut mn = bins[s].min;
    let mut mx = bins[s].max;
    let mut j = s + 1;
    while j < e
        invariant
            s < j <= e <= bins@.len(),
            mn == spec_env_min(bins@, s as int, j as int),
            mx == spec_env_max(bins@, s as int, j as int),
        decreases e - j,
    {
        let p = bins[j];
        if p.min < mn {
            mn = p.min;
        }
        if p.max > mx {
            mx = p.max;
        }
        j += 1;
    }
    (mn, mx)
}

/// The envelope of bins `[s, e)` is exact: it bounds every bin of the range
/// and both bounds are attained by some bin of the range.
pub proof fn lemma_envelope_bounds(bins: Seq<MinMaxPair>, s: int, e: int)
    requires
        0 <= s < e <= bins.len(),
    ensures
        forall|j: int|
            s <= j < e ==> spec_env_min(bins, s, e) <= (#[trigger] bins[j]).min && bins[j].max
                <= spec_env_max(bins, s, e),
        exists|j: int| s <= j < e && (#[trigger] bins[j]).min == spec_env_min(bins, s, e),
        exists|j: int| s <= j < e && (#[trigger] bins[j]).max == spec_env_max(bins, s, e),
    decreases e - s,
{
    if e <= s + 1 {
        assert(s <= s < e && bins[s].min == spec_env_min(bins, s, e));
        assert(s <= s < e && bins[s].max == spec_env_max(bins, s, e));
    } else {
        lemma_envelope_bounds(bins, s, e - 1);
        if bins[e - 1].min < spec_env_min(bins, s, e - 1) {
            assert(bins[e - 1].min == spec_env_min(bins, s, e));
        } else {
            let j = choose|j: int|
                s <= j < e - 1 && (#[trigger] bins[j]).min == spec_env_min(bins, s, e - 1);
            assert(bins[j].min == spec_env_min(bins, s, e));
        }
        if bins[e - 1].max > spec_env_max(bins, s, e - 1) {
            assert(bins[e - 1].max == spec_env_max(bins, s, e));
        } else {
            let j = choose|j: int|
                s <= j < e - 1 && (#[trigger] bins[j]).max == spec_env_max(bins, s, e - 1);
            assert(bins[j].max == spec_env_max(bins, s, e));
        }
    }
}

/// The whole-bin step taken by a pixel column when it is not catching up:
/// the bins-per-pixel ratio `nb / (w * b)` rounded down.
pub open spec fn spec_floor_step(nb: int, w: int, b: int) -> int
    recommends
        w >= 1,
        b >= 1,
{
    nb / (w * b)
}

/// The whole-bin step taken by a pixel column when it is catching up: the
/// bins-per-pixel ratio rounded up.
pub open spec fn spec_ceil_step(nb: int, w: int, b: int) -> int
    recommends
        w >= 1,
        b >= 1,
{
    (nb + w * b - 1) / (w * b)
}

/// Whether pixel column `x` takes the rounded-up step: it does when, having
/// consumed `consumed` bins before it, taking another floor step would fall
/// behind the ideal ratio of bins to columns, that is when
/// `(consumed + 1) / x` is still below `nb / (w * b)`, compared exactly by
/// cross-multiplication.  Column 0 always takes the floor step.
pub open spec fn spec_takes_ceil(nb: int, w: int, b: int, consumed: int, x: int) -> bool {
    x >= 1 && (consumed + 1) * (w * b) < x * nb
}

/// The bin step of pixel column `x` after `consumed` bins were consumed.
pub open spec fn spec_step(nb: int, w: int, b: int, consumed: int, x: int) -> int {
    if spec_takes_ceil(nb, w, b, consumed, x) {
        spec_ceil_step(nb, w, b)
    } else {
        spec_floor_step(nb, w, b)
    }
}

/// The first bin consumed by pixel column `x`: column 0 starts at the bin
/// holding the window start, and each later column starts where the previous
/// one stopped.  A column whose start bin has reached the final bin consumes
/// nothing, and one whose step would run past the end stops at the end.
pub open spec fn spec_col_bin(
    bins_len: int,
    nb: int,
    w: int,
    b: int,
    o: int,
    x: int,
) -> int
    decreases x,
{
    if x <= 0 {
        o
    } else {
        let s = spec_col_bin(bins_len, nb, w, b, o, x - 1);
        if s < bins_len - 1 {
            let inc = spec_step(nb, w, b, s - o, x - 1);
            if s + inc <= bins_len {
                s + inc
            } else {
                bins_len
            }
        } else {
            s
        }
    }
}

/// Start bins never move backwards past the window start, nor beyond the end
/// of the bins once they were reached.
proof fn lemma_col_bin_bounds(bins_len: int, nb: int, w: int, b: int, o: int, x: int)
    requires
        0 <= o,
        0 <= nb,
        1 <= w,
        1 <= b,
        1 <= bins_len,
        0 <= x,
    ensures
        o <= spec_col_bin(bins_len, nb, w, b, o, x),
        spec_col_bin(bins_len, nb, w, b, o, x) <= if o <= bins_len {
            bins_len
        } else {
            o
        },
    decreases x,
{
    if x > 0 {
        lemma_col_bin_bounds(bins_len, nb, w, b, o, x - 1);
        lemma_steps_non_negative(nb, w, b);
    }
}

/// Both candidate steps are non-negative bin counts.
proof fn lemma_steps_non_negative(nb: int, w: int, b: int)
    requires
        0 <= nb,
        1 <= w,
        1 <= b,
    ensures
        0 <= spec_floor_step(nb, w, b),
        0 <= spec_ceil_step(nb, w, b),
{
    assert(w * b >= 1) by (nonlinear_arith)
        requires
            w >= 1,
            b >= 1,
    ;
    lemma_div_pos_is_pos(nb, w * b);
    lemma_div_pos_is_pos(nb + w * b - 1, w * b);
}

/// Whether the destination sub-rectangle at pixel offset `(offx, offy)` with
/// shape `(w, h)` lies inside the declared `(fullw, fullh)` pixel grid and
/// its last byte lies inside a buffer of `buf_len` bytes.
pub open spec fn spec_dest_fits(
    offx: int,
    offy: int,
    w: int,
    h: int,
    fullw: int,
    fullh: int,
    bpp: int,
    buf_len: int,
) -> bool {
    &&& offx + w <= fullw
    &&& offy + h <= fullh
    &&& ((offy + h - 1) * fullw + (offx + w)) * bpp <= buf_len
}

/// Scaling both sides of `a <= l / b` by a positive `b` is exact: it holds
/// exactly when `a * b <= l`.
proof fn lemma_mul_le_iff_div(a: int, b: int, l: int)
    requires
        0 <= a,
        1 <= b,
        0 <= l,
    ensures
        (a * b <= l) <==> (a <= l / b),
{
    lemma_fundamental_div_mod(l, b);
    lemma_mod_division_less_than_divisor(l, b);
    if a <= l / b {
        lemma_mul_inequality(a, l / b, b);
        assert((l / b) * b == b * (l / b)) by (nonlinear_arith);
    }
    if a > l / b {
        lemma_mul_inequality(l / b + 1, a, b);
        assert((l / b + 1) * b == b * (l / b) + b) by (nonlinear_arith);
    }
}

/// A binned min/max waveform renderer.
///
/// Minimum and maximum amplitude values are binned once, at construction, to
/// reduce the work of each later render call; the renderer is immutable from
/// then on.
#[derive(Debug)]
pub struct BinnedWaveformRenderer {
    pub config: WaveformConfig,
    sample_rate_millihz: u64,
    bin_size: usize,
    minmax: Vec<MinMaxPair>,
}

impl BinnedWaveformRenderer {
    /// The size of the bins the samples were grouped into.
    pub closed spec fn spec_bin_size(self) -> usize {
        self.bin_size
    }

    /// The sample rate the samples were taken at, in millihertz.
    pub closed spec fn spec_sample_rate(self) -> u64 {
        self.sample_rate_millihz
    }

    /// The precomputed bin summaries, in sample order.
    pub closed spec fn bins(self) -> Seq<MinMaxPair> {
        self.minmax@
    }

    /// The configuration this renderer paints with.
    pub closed spec fn spec_config(self) -> WaveformConfig {
        self.config
    }

    /// What construction established: a positive bin size, at least one bin,
    /// and a validated configuration.
    pub open spec fn wf(self) -> bool {
        &&& self.spec_bin_size() >= 1
        &&& self.bins().len() >= 1
        &&& self.spec_config().wf()
    }

    /// The (min, max) amplitude envelope that pixel column `x` renders when
    /// the window holds `nb` samples starting in bin `o` and spans `w`
    /// columns: the bins the column consumes, reduced to the min of their
    /// mins and the max of their maxes — except that a column whose start
    /// bin has reached the final bin falls back to the zero amplitude.
    pub open spec fn spec_col_env(self, nb: int, o: int, w: int, x: int) -> MinMaxPair {
        let bins = self.bins();
        let b = self.spec_bin_size() as int;
        let s = spec_col_bin(bins.len() as int, nb, w, b, o, x);
        if s < bins.len() - 1 {
            let inc = spec_step(nb, w, b, s - o, x);
            let re = if s + inc <= bins.len() {
                s + inc
            } else {
                bins.len() as int
            };
            let e = if re >= s + 1 {
                re
            } else {
                s + 1
            };
            MinMaxPair { min: spec_env_min(bins, s, e), max: spec_env_max(bins, s, e) }
        } else {
            MinMaxPair { min: 0, max: 0 }
        }
    }

    /// The color of the pixel at column `x`, row `y`: the foreground color
    /// on the rows spanned by the column's amplitude envelope, the
    /// background color above and below it.
    pub open spec fn spec_pixel_color(self, nb: int, o: int, w: int, h: int, x: int, y: int) -> Color {
        let env = self.spec_col_env(nb, o, w, x);
        let amp_min = self.spec_config().spec_amp_min() as int;
        let amp_max = self.spec_config().spec_amp_max() as int;
        let min_row = spec_row(env.min as int, amp_min, amp_max, h);
        let max_row = spec_row(env.max as int, amp_min, amp_max, h);
        if max_row <= y < min_row {
            self.spec_config().spec_foreground()
        } else {
            self.spec_config().spec_background()
        }
    }

    /// The byte at channel `ch` of the pixel at column `x`, row `y` when
    /// `range` is rendered onto `w` by `h` pixels.
    pub open spec fn spec_rendered_byte(
        self,
        range: TimeRange,
        w: int,
        h: int,
        x: int,
        y: int,
        ch: int,
    ) -> u8 {
        let begin = range.spec_begin(self.spec_sample_rate());
        let end = range.spec_end(self.spec_sample_rate());
        let nb = end - begin;
        let o = begin / (self.spec_bin_size() as int);
        self.spec_pixel_color(nb, o, w, h, x, y).spec_byte(ch)
    }

    /// Whether a buffer write with these offsets, shape and declared full
    /// shape is accepted: a non-empty shape that fits the full shape, and a
    /// destination sub-rectangle whose bytes all lie within the buffer.
    pub open spec fn spec_write_ok(
        self,
        offx: int,
        offy: int,
        w: int,
        h: int,
        fullw: int,
        fullh: int,
        buf_len: int,
    ) -> bool {
        &&& 1 <= w && 1 <= h
        &&& w <= fullw && h <= fullh
        &&& spec_dest_fits(
            offx,
            offy,
            w,
            h,
            fullw,
            fullh,
            self.spec_config().spec_bytes_per_pixel(),
            buf_len,
        )
    }

    /// The constructor: bins `samples` into groups of `bin_size` and keeps
    /// one (min, max) pair per group.
    ///
    /// Bin `i` covers samples `[i * bin_size, min((i + 1) * bin_size, n))`;
    /// there are `ceil(n / bin_size)` bins, each holding the exact min and
    /// max over its covered samples.  Fails if and only if `bin_size`
    /// exceeds the sample count.
    pub fn new(samples: &SampleSequence, bin_size: usize, config: WaveformConfig) -> (r: Result<
        BinnedWaveformRenderer,
        InvalidSizeError,
    >)
        requires
            bin_size >= 1,
            config.wf(),
        ensures
            r is Err <==> bin_size > samples.data@.len(),
            r matches Err(e) ==> e.var_name@ == "bin_size"@,
            r matches Ok(w) ==> {
                &&& w.wf()
                &&& w.spec_bin_size() == bin_size
                &&& w.spec_sample_rate() == samples.sample_rate_millihz
                &&& w.spec_config() == config
                &&& w.bins().len() == spec_nb_bins(samples.data@.len() as int, bin_size as int)
                &&& forall|i: int|
                    0 <= i < w.bins().len() ==> spec_bin_summary(
                        samples.data@,
                        bin_size as int,
                        i,
                        #[trigger] w.bins()[i],
                    )
            },
    {
        let n = samples.data.len();
        if bin_size > n {
            return Err(InvalidSizeError::new("bin_size"));
        }
        proof {
            lemma_fundamental_div_mod(n as int, bin_size as int);
            assert(n % bin_size != 0 ==> n / bin_size < n) by (nonlinear_arith)
                requires
                    1 <= bin_size <= n,
            ;
            assert(n / bin_size >= 1) by (nonlinear_arith)
                requires
                    1 <= bin_size <= n,
            ;
        }
        let nb_bins = n / bin_size + if n % bin_size != 0 {
            1
        } else {
            0
        };
        proof {
            lemma_ceil_div_form(n as int, bin_size as int);
        }
        let mut data: Vec<MinMaxPair> = Vec::new();
        for x in 0..nb_bins
            invariant
                1 <= bin_size <= n == samples.data@.len(),
                nb_bins == spec_nb_bins(n as int, bin_size as int),
                data@.len() == x,
                forall|i: int|
                    0 <= i < x ==> spec_bin_summary(
                        samples.data@,
                        bin_size as int,
                        i,
                        #[trigger] data@[i],
                    ),
        {
            proof {
                lemma_bin_start_in_range(n as int, bin_size as int, x as int);
            }
            let lo = x * bin_size;
            let hi = if bin_size <= n - lo {
                lo + bin_size
            } else {
                n
            };
            proof {
                lemma_mul_is_distributive_add_other_way(bin_size as int, x as int, 1);
                assert(hi == if (x + 1) * bin_size <= n {
                    (x + 1) * (bin_size as int)
                } else {
                    n as int
                });
            }
            let mut mn = samples.data[lo];
            let mut mx = samples.data[lo];
            let mut j = lo + 1;
            while j < hi
                invariant
                    lo < j <= hi <= samples.data@.len(),
                    forall|k: int| lo <= k < j ==> mn <= #[trigger] samples.data@[k] <= mx,
                    exists|k: int| lo <= k < j && #[trigger] samples.data@[k] == mn,
                    exists|k: int| lo <= k < j && #[trigger] samples.data@[k] == mx,
                decreases hi - j,
            {
                let s = samples.data[j];
                if s > mx {
                    mx = s;
                } else if s < mn {
                    mn = s;
                }
                j += 1;
            }
            data.push(MinMaxPair { min: mn, max: mx });
        }
        Ok(
            BinnedWaveformRenderer {
                config,
                bin_size,
                minmax: data,
                sample_rate_millihz: samples.sample_rate_millihz,
            },
        )
    }

    /// Renders the window `range` into the sub-rectangle of `img` that
    /// starts at pixel offset `offsets` and spans `shape` pixels, where
    /// `img` is a row-major pixel buffer of `full_shape` pixels in the
    /// configuration's pixel format.
    ///
    /// On success exactly the destination sub-rectangle is overwritten —
    /// every pixel gets the color of its column's amplitude envelope — and
    /// every other byte of `img` keeps its value; on failure `img` is not
    /// touched at all.  Fails if and only if the shape has a zero dimension,
    /// the shape exceeds the full shape, or the destination sub-rectangle
    /// does not fit the full shape and the buffer's length.
    #[verifier::loop_isolation(false)]
    pub fn render_write(
        &self,
        range: TimeRange,
        offsets: (usize, usize),
        shape: (usize, usize),
        img: &mut Vec<u8>,
        full_shape: (usize, usize),
    ) -> (r: Result<(), InvalidSizeError>)
        requires
            self.wf(),
            self.spec_write_ok(
                offsets.0 as int,
                offsets.1 as int,
                shape.0 as int,
                shape.1 as int,
                full_shape.0 as int,
                full_shape.1 as int,
                old(img)@.len() as int,
            ) ==> range.spec_resolvable(self.spec_sample_rate()),
        ensures
            final(img)@.len() == old(img)@.len(),
            r is Ok <==> self.spec_write_ok(
                offsets.0 as int,
                offsets.1 as int,
                shape.0 as int,
                shape.1 as int,
                full_shape.0 as int,
                full_shape.1 as int,
                old(img)@.len() as int,
            ),
            r is Err ==> final(img)@ == old(img)@,
            (shape.0 == 0 || shape.1 == 0) ==> (r matches Err(e) && e.var_name@ == "shape"@),
            (shape.0 >= 1 && shape.1 >= 1 && (shape.0 > full_shape.0 || shape.1 > full_shape.1))
                ==> (r matches Err(e) && e.var_name@ == "shape and/or full_shape"@),
            (shape.0 >= 1 && shape.1 >= 1 && shape.0 <= full_shape.0 && shape.1 <= full_shape.1
                && !spec_dest_fits(
                offsets.0 as int,
                offsets.1 as int,
                shape.0 as int,
                shape.1 as int,
                full_shape.0 as int,
                full_shape.1 as int,
                self.spec_config().spec_bytes_per_pixel(),
                old(img)@.len() as int,
            )) ==> (r matches Err(e) && e.var_name@ == "offsets and/or shape"@),
            r is Ok ==> forall|x: int, y: int, ch: int|
                0 <= x < shape.0 && 0 <= y < shape.1 && 0 <= ch
                    < self.spec_config().spec_bytes_per_pixel() ==> final(img)@[spec_byte_index(
                    full_shape.0 as int,
                    self.spec_config().spec_bytes_per_pixel(),
                    offsets.0 + x,
                    offsets.1 + y,
                    ch,
                )] == #[trigger] self.spec_rendered_byte(
                    range,
                    shape.0 as int,
                    shape.1 as int,
                    x,
                    y,
                    ch,
                ),
            r is Ok ==> forall|i: int|
                0 <= i < old(img)@.len() && !spec_in_rect(
                    i,
                    full_shape.0 as int,
                    self.spec_config().spec_bytes_per_pixel(),
                    offsets.0 as int,
                    offsets.0 + shape.0,
                    offsets.1 as int,
                    offsets.1 + shape.1,
                ) ==> final(img)@[i] == old(img)@[i],
    {
        let (w, h) = shape;
        let (offx, offy) = offsets;
        let (fullw, fullh) = full_shape;
        if w == 0 || h == 0 {
            return Err(InvalidSizeError::new("shape"));
        }
        if w > fullw || h > fullh {
            return Err(InvalidSizeError::new("shape and/or full_shape"));
        }
        let bpp = self.config.get_background().bytes_per_pixel();
        proof {
            assert(img@.len() == img.len());
        }
        let len = img.len();
        let fits: bool = if offx > fullw - w || offy > fullh - h {
            false
        } else {
            proof {
                assert(((offy as int) + (h as int) - 1) * (fullw as int) + ((offx as int) + (
                w as int)) <= u128::MAX) by (nonlinear_arith)
                    requires
                        0 <= offy as int,
                        1 <= h as int,
                        1 <= fullw as int,
                        offy as int + h as int <= fullh as int,
                        offx as int + w as int <= fullw as int,
                        fullh as int <= u64::MAX,
                        fullw as int <= u64::MAX,
                ;
            }
            let cells: u128 = ((offy as u128) + (h as u128) - 1) * (fullw as u128) + ((offx as u128)
                + (w as u128));
            let budget: u128 = (len as u128) / (bpp as u128);
            proof {
                lemma_mul_le_iff_div(cells as int, bpp as int, len as int);
            }
            cells <= budget
        };
        if !fits {
            return Err(InvalidSizeError::new("offsets and/or shape"));
        }
        let (begin, end) = range.resolve(self.sample_rate_millihz);
        let nb = end - begin;
        let bsz = self.bin_size;
        let nbins = self.minmax.len();
        let offset_bin = begin / bsz;
        proof {
            assert(1 <= (w as int) * (bsz as int) && (w as int) * (bsz as int)
                <= 0xfffffffffffffffe0000000000000001) by (nonlinear_arith)
                requires
                    1 <= w as int <= u64::MAX,
                    1 <= bsz as int <= u64::MAX,
            ;
        }
        let wb: u128 = (w as u128) * (bsz as u128);
        let nb128: u128 = nb as u128;
        let floor128: u128 = nb128 / wb;
        proof {
            lemma_div_nonincreasing(nb as int, wb as int);
            assert((nb as int) <= (nb as int) * (wb as int)) by (nonlinear_arith)
                requires
                    0 <= nb as int,
                    1 <= wb as int,
            ;
            lemma_div_is_ordered(
                nb as int + wb as int - 1,
                (nb as int) * (wb as int) + wb as int - 1,
                wb as int,
            );
            lemma_fundamental_div_mod_converse(
                (nb as int) * (wb as int) + wb as int - 1,
                wb as int,
                nb as int,
                wb as int - 1,
            );
        }
        let ceil128: u128 = (nb128 + wb - 1) / wb;
        let floor_step: usize = floor128 as usize;
        let ceil_step: usize = ceil128 as usize;
        let bg_color = self.config.get_background();
        let fg_color = self.config.get_foreground();
        let bg_bytes = bg_color.channel_bytes();
        let fg_bytes = fg_color.channel_bytes();
        let amp_lo = self.config.get_amp_min();
        let amp_hi = self.config.get_amp_max();
        let ghost nbi = nb as int;
        let ghost oi = offset_bin as int;
        let ghost bi = bsz as int;
        let ghost wi = w as int;
        let ghost hi = h as int;
        let ghost bppi = bpp as int;
        let ghost fwi = fullw as int;
        let ghost nbinsi = nbins as int;
        proof {
            assert(floor_step == spec_floor_step(nbi, wi, bi));
            assert(ceil_step == spec_ceil_step(nbi, wi, bi));
        }
        let mut start_bin = offset_bin;
        let mut x: usize = 0;
        while x < w
            invariant
                x <= w,
                start_bin == spec_col_bin(nbinsi, nbi, wi, bi, oi, x as int),
                img@.len() == old(img)@.len(),
                forall|xx: int, y: int, ch: int|
                    0 <= xx < x && 0 <= y < hi && 0 <= ch < bppi ==> img@[spec_byte_index(
                        fwi,
                        bppi,
                        offx + xx,
                        offy + y,
                        ch,
                    )] == #[trigger] self.spec_rendered_byte(range, wi, hi, xx, y, ch),
                forall|i: int|
                    0 <= i < old(img)@.len() && !spec_in_rect(
                        i,
                        fwi,
                        bppi,
                        offx as int,
                        offx + x,
                        offy as int,
                        offy + h,
                    ) ==> img@[i] == old(img)@[i],
            decreases w - x,
        {
            proof {
                lemma_col_bin_bounds(nbinsi, nbi, wi, bi, oi, x as int);
            }
            let consumed = start_bin - offset_bin;
            let take_ceil: bool = if x == 0 {
                false
            } else {
                proof {
                    assert((x as int) * (nb as int) <= u128::MAX) by (nonlinear_arith)
                        requires
                            0 <= x as int <= u64::MAX,
                            0 <= nb as int <= u64::MAX,
                    ;
                }
                match ((consumed as u128) + 1).checked_mul(wb) {
                    Some(lhs) => lhs < (x as u128) * (nb as u128),
                    None => false,
                }
            };
            proof {
                assert(take_ceil == spec_takes_ceil(nbi, wi, bi, consumed as int, x as int));
            }
            let inc = if take_ceil {
                ceil_step
            } else {
                floor_step
            };
            let ghost s_before = start_bin as int;
            let pair: (i64, i64) = if start_bin < nbins - 1 {
                let range_end = if inc <= nbins - start_bin {
                    start_bin + inc
                } else {
                    nbins
                };
                let e = if range_end > start_bin {
                    range_end
                } else {
                    start_bin + 1
                };
                let p = envelope_of(&self.minmax, start_bin, e);
                start_bin = range_end;
                p
            } else {
                (0i64, 0i64)
            };
            proof {
                let env = self.spec_col_env(nbi, oi, wi, x as int);
                assert(pair.0 == env.min && pair.1 == env.max);
                assert(start_bin == spec_col_bin(nbinsi, nbi, wi, bi, oi, x as int + 1));
            }
            let min_row = amplitude_to_row(pair.0, amp_lo, amp_hi, h);
            let max_row = amplitude_to_row(pair.1, amp_lo, amp_hi, h);
            let px = offx + x;
            proof {
                lemma_mul_inequality(
                    (offy as int + hi - 1) * fwi + px as int + 1,
                    (offy as int + hi - 1) * fwi + (offx as int + wi),
                    bppi,
                );
            }
            let ghost img_before = img@;
            paint_column(img, px, offy, h, fullw, bpp, max_row, min_row, &fg_bytes, &bg_bytes);
            proof {
                assert forall|xx: int, y: int, ch: int|
                    0 <= xx < x + 1 && 0 <= y < hi && 0 <= ch < bppi implies img@[spec_byte_index(
                    fwi,
                    bppi,
                    offx + xx,
                    offy + y,
                    ch,
                )] == #[trigger] self.spec_rendered_byte(range, wi, hi, xx, y, ch) by {
                    let idx = spec_byte_index(fwi, bppi, offx + xx, offy + y, ch);
                    if xx == x {
                        assert(img@[idx] == spec_bar_byte(
                            max_row as int,
                            min_row as int,
                            fg_bytes@,
                            bg_bytes@,
                            y,
                            ch,
                        ));
                        assert(self.spec_pixel_color(nbi, oi, wi, hi, xx, y) == (if max_row <= y
                            < min_row {
                            fg_color
                        } else {
                            bg_color
                        }));
                    } else {
                        lemma_mul_inequality(
                            (offy as int + hi - 1) * fwi + (offx + xx) + 1,
                            (offy as int + hi - 1) * fwi + (offx as int + wi),
                            bppi,
                        );
                        lemma_row_base_in_bounds(
                            fwi,
                            bppi,
                            offx + xx,
                            offy as int,
                            hi,
                            y,
                            old(img)@.len() as int,
                        );
                        if spec_in_rect(idx, fwi, bppi, px as int, px + 1, offy as int, offy + h) {
                            let (px2, py2, ch2): (int, int, int) = choose|px2: int, py2: int, ch2: int|
                                px as int <= px2 < px + 1 && offy as int <= py2 < offy + h && 0
                                    <= ch2 < bppi && idx == #[trigger] spec_byte_index(
                                    fwi,
                                    bppi,
                                    px2,
                                    py2,
                                    ch2,
                                );
                            lemma_byte_index_injective(
                                fwi,
                                bppi,
                                offx + xx,
                                offy + y,
                                ch,
                                px2,
                                py2,
                                ch2,
                            );
                        }
                        assert(img@[idx] == img_before[idx]);
                    }
                }
                assert forall|i: int|
                    0 <= i < old(img)@.len() && !spec_in_rect(
                        i,
                        fwi,
                        bppi,
                        offx as int,
                        offx + x + 1,
                        offy as int,
                        offy + h,
                    ) implies img@[i] == old(img)@[i] by {
                    if spec_in_rect(i, fwi, bppi, px as int, px + 1, offy as int, offy + h) {
                        let (px2, py2, ch2): (int, int, int) = choose|px2: int, py2: int, ch2: int|
                            px as int <= px2 < px + 1 && offy as int <= py2 < offy + h && 0 <= ch2
                                < bppi && i == #[trigger] spec_byte_index(fwi, bppi, px2, py2, ch2);
                        assert(spec_in_rect(
                            i,
                            fwi,
                            bppi,
                            offx as int,
                            offx + x + 1,
                            offy as int,
                            offy + h,
                        ));
                    }
                    assert(img@[i] == img_before[i]);
                    assert(!spec_in_rect(i, fwi, bppi, offx as int, offx + x, offy as int, offy + h));
                }
            }
            x += 1;
        }
        Ok(())
    }

    /// Renders an image as a freshly allocated byte buffer in the
    /// configuration's pixel format: the equivalent of `render_write` at
    /// zero offset into a buffer of exactly `shape`.
    ///
    /// Returns `None` exactly when `shape` has a zero dimension — nothing
    /// was requested, which is not an error.
    pub fn render_vec(&self, range: TimeRange, shape: (usize, usize)) -> (r: Option<Vec<u8>>)
        requires
            self.wf(),
            (shape.0 >= 1 && shape.1 >= 1) ==> range.spec_resolvable(self.spec_sample_rate()),
            (shape.0 as int) * (shape.1 as int) * self.spec_config().spec_bytes_per_pixel()
                <= usize::MAX,
        ensures
            r is None <==> (shape.0 == 0 || shape.1 == 0),
            r matches Some(v) ==> {
                &&& v@.len() == (shape.0 as int) * (shape.1 as int)
                    * self.spec_config().spec_bytes_per_pixel()
                &&& forall|x: int, y: int, ch: int|
                    0 <= x < shape.0 && 0 <= y < shape.1 && 0 <= ch
                        < self.spec_config().spec_bytes_per_pixel() ==> v@[spec_byte_index(
                        shape.0 as int,
                        self.spec_config().spec_bytes_per_pixel(),
                        x,
                        y,
                        ch,
                    )] == #[trigger] self.spec_rendered_byte(
                        range,
                        shape.0 as int,
                        shape.1 as int,
                        x,
                        y,
                        ch,
                    )
            },
    {
        let (w, h) = shape;
        if w == 0 || h == 0 {
            return None;
        }
        let bpp = self.config.get_background().bytes_per_pixel();
        proof {
            assert((w as int) * (h as int) <= (w as int) * (h as int) * (bpp as int) && 0 <= (
            w as int) * (h as int) && ((h as int) - 1) * (w as int) + (w as int) == (h as int) * (
            w as int) && (h as int) * (w as int) == (w as int) * (h as int)) by (nonlinear_arith)
                requires
                    1 <= w as int,
                    1 <= h as int,
                    1 <= bpp as int,
            ;
        }
        let n = w * h * bpp;
        let mut img: Vec<u8> = Vec::new();
        while img.len() < n
            invariant
                img@.len() <= n,
            decreases n - img@.len(),
        {
            img.push(0u8);
        }
        let res = self.render_write(range, (0, 0), shape, &mut img, shape);
        match res {
            Ok(_) => Some(img),
            Err(_) => {
                proof {
                    assert(false);
                }
                None
            },
        }
    }

    /// The bin size this renderer was built with.
    pub fn get_bin_size(&self) -> (r: usize)
        ensures
            r == self.spec_bin_size(),
    {
        self.bin_size
    }

    /// The sample rate this renderer was built with, in millihertz.
    pub fn get_sample_rate(&self) -> (r: u64)
        ensures
            r == self.spec_sample_rate(),
    {
        self.sample_rate_millihz
    }

    /// Read-only access to the precomputed bin summaries.
    pub fn get_bins(&self) -> (r: &Vec<MinMaxPair>)
        ensures
            r@ == self.bins(),
    {
        &self.minmax
    }
}

/// The two rendering paths agree: a buffer of exactly `w` by `h` pixels that
/// the buffer-writing path fully overwrote at zero offset holds, byte for
/// byte, the image that the allocating path returns for the same renderer,
/// window and shape.
pub proof fn lemma_render_paths_agree(
    wfr: BinnedWaveformRenderer,
    range: TimeRange,
    w: int,
    h: int,
    v: Seq<u8>,
    b: Seq<u8>,
)
    requires
        wfr.wf(),
        1 <= w,
        1 <= h,
        v.len() == w * h * wfr.spec_config().spec_bytes_per_pixel(),
        b.len() == w * h * wfr.spec_config().spec_bytes_per_pixel(),
        forall|x: int, y: int, ch: int|
            0 <= x < w && 0 <= y < h && 0 <= ch < wfr.spec_config().spec_bytes_per_pixel() ==> v[
            spec_byte_index(w, wfr.spec_config().spec_bytes_per_pixel(), x, y, ch)]
                == #[trigger] wfr.spec_rendered_byte(range, w, h, x, y, ch),
        forall|x: int, y: int, ch: int|
            0 <= x < w && 0 <= y < h && 0 <= ch < wfr.spec_config().spec_bytes_per_pixel() ==> b[
            spec_byte_index(w, wfr.spec_config().spec_bytes_per_pixel(), x, y, ch)]
                == #[trigger] wfr.spec_rendered_byte(range, w, h, x, y, ch),
    ensures
        v == b,
{
    let bpp = wfr.spec_config().spec_bytes_per_pixel();
    assert forall|i: int| 0 <= i < v.len() implies v[i] == b[i] by {
        lemma_byte_index_surjective(w, h, bpp, i);
        let (x, y, ch): (int, int, int) = choose|x: int, y: int, ch: int|
            0 <= x < w && 0 <= y < h && 0 <= ch < bpp && i == #[trigger] spec_byte_index(
                w,
                bpp,
                x,
                y,
                ch,
            );
        assert(v[i] == wfr.spec_rendered_byte(range, w, h, x, y, ch));
        assert(b[i] == wfr.spec_rendered_byte(range, w, h, x, y, ch));
    }
    assert(v =~= b);
}

/// The two ways of writing "divide by `b`, rounding up" agree: quotient plus
/// one when there is a remainder, and the shifted floor division.
proof fn lemma_ceil_div_form(n: int, b: int)
    requires
        1 <= b,
        0 <= n,
    ensures
        spec_nb_bins(n, b) == n / b + if n % b != 0 {
            1int
        } else {
            0int
        },
{
    lemma_fundamental_div_mod(n, b);
    let q = n / b;
    let r = n % b;
    if r == 0 {
        assert(n + b - 1 == q * b + (b - 1)) by (nonlinear_arith)
            requires
                n == b * q + r,
                r == 0,
        ;
        lemma_fundamental_div_mod_converse(n + b - 1, b, q, b - 1);
    } else {
        assert(n + b - 1 == (q + 1) * b + (r - 1)) by (nonlinear_arith)
            requires
                n == b * q + r,
        ;
        lemma_fundamental_div_mod_converse(n + b - 1, b, q + 1, r - 1);
    }
}

/// Every bin index below the bin count starts strictly inside the samples.
proof fn lemma_bin_start_in_range(n: int, b: int, x: int)
    requires
        1 <= b <= n,
        0 <= x < spec_nb_bins(n, b),
    ensures
        x * b < n,
{
    lemma_fundamental_div_mod(n + b - 1, b);
    let q = (n + b - 1) / b;
    lemma_mul_inequality(x, q - 1, b);
    assert((q - 1) * b == q * b - b) by (nonlinear_arith);
}

} // verus!
