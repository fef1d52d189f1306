//! The color mapping engine: converting escape samples into BGRA pixels via
//! multi-stop gradient interpolation, and resizing the resulting image.

use vstd::prelude::*;
use crate::definitions::{ColorPeak, FracImage, FracPoint, Gradient, RawFrac};
use crate::fp::{fp_log2, fp_log2_s, fp_sub, fp_sub_s, narrow_div, sat64, tdiv, FP_ONE};
use crate::draw::{mag2, mag2_s};

verus! {

/// The peaks are ordered by nondecreasing position.
pub open spec fn sorted_by_at(peaks: Seq<ColorPeak>) -> bool {
    forall|i: int, j: int| 0 <= i < j < peaks.len() ==> peaks[i].at <= peaks[j].at
}

/// The first index of a peak with minimal position.
pub open spec fn min_at_index(peaks: Seq<ColorPeak>) -> int
    recommends
        peaks.len() > 0,
    decreases peaks.len(),
{
    if peaks.len() <= 1 {
        0
    } else {
        let m = min_at_index(peaks.drop_last());
        if peaks.last().at < peaks[m].at {
            peaks.len() - 1
        } else {
            m
        }
    }
}

/// Selection sort by position: repeatedly move the first minimal peak to the
/// front. This pins the sorted order even between peaks of equal position.
pub open spec fn sort_by_at_s(peaks: Seq<ColorPeak>) -> Seq<ColorPeak>
    decreases peaks.len(),
    via sort_by_at_s_decreases
{
    if peaks.len() == 0 {
        Seq::empty()
    } else {
        let m = min_at_index(peaks);
        seq![peaks[m]] + sort_by_at_s(peaks.remove(m))
    }
}

/// The first minimal index is an index, and its peak is minimal.
pub proof fn lemma_min_at_index_range(peaks: Seq<ColorPeak>)
    requires
        peaks.len() > 0,
    ensures
        0 <= min_at_index(peaks) < peaks.len(),
        forall|k: int|
            0 <= k < peaks.len() ==> (#[trigger] peaks[k]).at >= peaks[min_at_index(peaks)].at,
    decreases peaks.len(),
{
    if peaks.len() > 1 {
        lemma_min_at_index_range(peaks.drop_last());
        assert(forall|k: int|
            0 <= k < peaks.len() - 1 ==> #[trigger] peaks[k] == peaks.drop_last()[k]);
    }
}

#[via_fn]
proof fn sort_by_at_s_decreases(peaks: Seq<ColorPeak>) {
    if peaks.len() > 0 {
        lemma_min_at_index_range(peaks);
    }
}

/// Returns the peaks ordered by nondecreasing position; the same stops,
/// rearranged.
pub fn sort_peaks(peaks: &Vec<ColorPeak>) -> (r: Vec<ColorPeak>)
    ensures
        r@ == sort_by_at_s(peaks@),
        sorted_by_at(r@),
        r@.to_multiset() == peaks@.to_multiset(),
        r@.len() == peaks@.len(),
{
    broadcast use vstd::seq_lib::group_to_multiset_ensures;

    let mut rest: Vec<ColorPeak> = Vec::with_capacity(peaks.len());
    let mut i: usize = 0;
    while i < peaks.len()
        invariant
            i <= peaks@.len(),
            rest@ == peaks@.subrange(0, i as int),
        decreases peaks@.len() - i,
    {
        rest.push(peaks[i]);
        proof {
            assert(peaks@.subrange(0, i + 1) =~= peaks@.subrange(0, i as int).push(
                peaks@[i as int],
            ));
        }
        i = i + 1;
    }
    proof {
        assert(rest@ =~= peaks@);
    }
    let mut out: Vec<ColorPeak> = Vec::with_capacity(peaks.len());
    proof {
        assert(Seq::<ColorPeak>::empty() + sort_by_at_s(peaks@) =~= sort_by_at_s(peaks@));
    }
    while rest.len() > 0
        invariant
            sort_by_at_s(peaks@) == out@ + sort_by_at_s(rest@),
            out@.to_multiset().add(rest@.to_multiset()) == peaks@.to_multiset(),
            out@.len() + rest@.len() == peaks@.len(),
            sorted_by_at(out@),
            forall|a: int, b: int|
                0 <= a < out@.len() && 0 <= b < rest@.len() ==> out@[a].at <= rest@[b].at,
        decreases rest@.len(),
    {
        // find the position of the first minimal remaining peak
        let mut j_min: usize = 0;
        let mut j: usize = 1;
        proof {
            assert(min_at_index(rest@.subrange(0, 1)) == 0);
        }
        while j < rest.len()
            invariant
                rest@.len() > 0,
                1 <= j <= rest@.len(),
                j_min < j,
                j_min as int == min_at_index(rest@.subrange(0, j as int)),
                forall|k: int| 0 <= k < j ==> rest@[k].at >= rest@[j_min as int].at,
            decreases rest@.len() - j,
        {
            proof {
                assert(rest@.subrange(0, j + 1).drop_last() =~= rest@.subrange(0, j as int));
                assert(rest@.subrange(0, j + 1).last() == rest@[j as int]);
            }
            if rest[j].at < rest[j_min].at {
                j_min = j;
            }
            j = j + 1;
        }
        proof {
            assert(rest@.subrange(0, rest@.len() as int) =~= rest@);
            assert(j_min as int == min_at_index(rest@));
        }
        let ghost old_out = out@;
        let ghost old_rest = rest@;
        let elem = rest.remove(j_min);
        out.push(elem);
        proof {
            assert(sort_by_at_s(old_rest) == seq![old_rest[j_min as int]] + sort_by_at_s(
                old_rest.remove(j_min as int),
            ));
            assert(out@ + sort_by_at_s(rest@) =~= old_out + (seq![elem] + sort_by_at_s(rest@)));
        }
        proof {
            broadcast use vstd::multiset::group_multiset_axioms;

            old_rest.to_multiset_ensures();
            old_out.to_multiset_ensures();
            assert(old_rest[j_min as int] == elem);
            assert(old_rest.contains(elem));
            assert(old_rest.to_multiset().count(elem) > 0);
            assert(rest@.to_multiset() =~= old_rest.to_multiset().remove(elem));
            assert(out@.to_multiset() =~= old_out.to_multiset().insert(elem));
            assert(out@.to_multiset().add(rest@.to_multiset()) =~= old_out.to_multiset().add(
                old_rest.to_multiset(),
            ));
            // every element still in rest was in old_rest, so it is at least elem
            assert(forall|b: int|
                0 <= b < rest@.len() ==> rest@[b].at >= elem.at) by {
                assert(forall|b: int|
                    0 <= b < rest@.len() ==> rest@[b] == old_rest[if b < j_min as int {
                        b
                    } else {
                        b + 1
                    }]);
            }
        }
    }
    proof {
        assert(rest@.to_multiset().len() == 0);
        assert(out@.to_multiset().add(rest@.to_multiset()) =~= out@.to_multiset());
        assert(out@ + sort_by_at_s(rest@) =~= out@);
    }
    out
}

/// The smoothed, fixed-point step count `n - log2(log2(|z|^2))`: the
/// continuous correction that removes banding. Non-positive logarithm
/// arguments are guarded by skipping the correction.
pub open spec fn smooth_steps_s(n: nat, re: int, im: int) -> int {
    let base = sat64(n * (FP_ONE as int));
    let a = mag2_s(re, im);
    if a >= 1 {
        let l = fp_log2_s(a);
        if l >= 1 {
            fp_sub_s(base, fp_log2_s(l))
        } else {
            base
        }
    } else {
        base
    }
}

/// The normalized coloring coordinate: the (optionally smoothed) step count
/// divided by the step bound and clamped into `[0, 1]`, in fixed point.
pub open spec fn norm_x_s(smooth: bool, n: nat, re: int, im: int, max_steps: nat) -> int
    recommends
        max_steps >= 1,
{
    let nf = if smooth {
        smooth_steps_s(n, re, im)
    } else {
        sat64(n * (FP_ONE as int))
    };
    if nf <= 0 {
        0
    } else if tdiv(nf, max_steps as int) > FP_ONE {
        FP_ONE as int
    } else {
        tdiv(nf, max_steps as int)
    }
}

/// The step count as a saturated fixed-point number.
fn fp_of_steps(n: usize) -> (r: i64)
    ensures
        r == sat64(n * (FP_ONE as int)),
{
    proof {
        assert(0 <= (n as int) * (FP_ONE as int) <= 0xFFFF_FFFF_FFFF_FFFF * 0x100_0000)
            by (nonlinear_arith)
            requires
                0 <= n as int <= 0xFFFF_FFFF_FFFF_FFFF,
        ;
    }
    let w: i128 = (n as i128) * (FP_ONE as i128);
    if w > i64::MAX as i128 {
        i64::MAX
    } else {
        w as i64
    }
}

/// Computes the normalized coloring coordinate, in fixed point.
fn norm_x(smooth: bool, n: usize, re: i64, im: i64, max_steps: usize) -> (x: i64)
    requires
        max_steps >= 1,
    ensures
        x == norm_x_s(smooth, n as nat, re as int, im as int, max_steps as nat),
        0 <= x <= FP_ONE,
{
    let base = fp_of_steps(n);
    let nf: i64 = if smooth {
        let a = mag2(re, im);
        if a >= 1 {
            let l = fp_log2(a);
            if l >= 1 {
                fp_sub(base, fp_log2(l))
            } else {
                base
            }
        } else {
            base
        }
    } else {
        base
    };
    if nf <= 0 {
        0
    } else {
        let q_wide: u64 = (nf as u64) / (max_steps as u64);
        proof {
            assert(q_wide == tdiv(nf as int, max_steps as int));
        }
        let q = q_wide as i64;
        if q > FP_ONE {
            FP_ONE
        } else {
            q
        }
    }
}

/// The bounding pair of gradient stops around the coordinate `x`: walk the
/// stops in order while the upper stop lies at or below `x`, starting from
/// the pair `(p1, p2)`; a walk past the last stop bounds with the end color
/// at position one.
pub open spec fn walk_from(
    peaks: Seq<ColorPeak>,
    end_color: (u8, u8, u8, u8),
    p1: ColorPeak,
    p2: ColorPeak,
    x: int,
) -> (ColorPeak, ColorPeak)
    decreases peaks.len(),
{
    if p2.at > x {
        (p1, p2)
    } else if peaks.len() == 0 {
        (p2, ColorPeak { bgra: end_color, at: FP_ONE })
    } else {
        walk_from(peaks.drop_first(), end_color, p2, peaks[0], x)
    }
}

/// The interpolation factor between two stop positions, clamped into
/// `[0, 1]` in fixed point.
pub open spec fn factor_s(x: int, at1: int, at2: int) -> int
    recommends
        at1 < at2,
{
    let f0 = sat64(tdiv((x - at1) * (FP_ONE as int), at2 - at1));
    if f0 < 0 {
        0
    } else if f0 > FP_ONE {
        FP_ONE as int
    } else {
        f0
    }
}

/// Computes the clamped interpolation factor.
fn interp_factor(x: i64, at1: i64, at2: i64) -> (f: i64)
    requires
        at1 < at2,
    ensures
        f == factor_s(x as int, at1 as int, at2 as int),
        0 <= f <= FP_ONE,
{
    proof {
        let d = (x as int) - (at1 as int);
        assert(-0x2_0000_0000_0000_0000 * 0x100_0000 <= d * (FP_ONE as int)
            <= 0x2_0000_0000_0000_0000 * 0x100_0000) by (nonlinear_arith)
            requires
                -0x2_0000_0000_0000_0000 <= d <= 0x2_0000_0000_0000_0000,
        ;
    }
    let num: i128 = ((x as i128) - (at1 as i128)) * (FP_ONE as i128);
    let den: i128 = (at2 as i128) - (at1 as i128);
    let f0 = narrow_div(num, den);
    if f0 < 0 {
        0
    } else if f0 > FP_ONE {
        FP_ONE
    } else {
        f0
    }
}

/// Linear interpolation of one 8-bit channel by the fixed-point factor `f`,
/// rounded to the nearest integer: `round(c1 * (1 - f) + c2 * f)`.
pub open spec fn lerp_channel_s(c1: int, c2: int, f: int) -> int
    recommends
        0 <= c1 <= 255,
        0 <= c2 <= 255,
        0 <= f <= FP_ONE,
{
    (c1 * (FP_ONE - f) + c2 * f + FP_ONE / 2) / (FP_ONE as int)
}

/// Linear interpolation of a BGRA color, channel by channel.
pub open spec fn lerp_color_s(c1: (u8, u8, u8, u8), c2: (u8, u8, u8, u8), f: int) -> (
    u8,
    u8,
    u8,
    u8,
) {
    (
        lerp_channel_s(c1.0 as int, c2.0 as int, f) as u8,
        lerp_channel_s(c1.1 as int, c2.1 as int, f) as u8,
        lerp_channel_s(c1.2 as int, c2.2 as int, f) as u8,
        lerp_channel_s(c1.3 as int, c2.3 as int, f) as u8,
    )
}

/// Interpolates one channel; the result always lies in the channel range.
fn lerp_channel(c1: u8, c2: u8, f: i64) -> (r: u8)
    requires
        0 <= f <= FP_ONE,
    ensures
        r == lerp_channel_s(c1 as int, c2 as int, f as int),
{
    proof {
        lemma_lerp_channel_bounds(c1 as int, c2 as int, f as int);
        assert((c1 as int) * (FP_ONE - f) <= 255 * (FP_ONE as int)) by (nonlinear_arith)
            requires
                0 <= c1 <= 255,
                0 <= FP_ONE - f <= FP_ONE,
        ;
        assert((c2 as int) * (f as int) <= 255 * (FP_ONE as int)) by (nonlinear_arith)
            requires
                0 <= c2 <= 255,
                0 <= f <= FP_ONE,
        ;
    }
    let n: u64 = (c1 as u64) * ((FP_ONE - f) as u64) + (c2 as u64) * (f as u64) + (FP_ONE as u64)
        / 2;
    (n / (FP_ONE as u64)) as u8
}

/// The rounded interpolation of two channel values never leaves `[0, 255]`,
/// and lies between the two values.
pub proof fn lemma_lerp_channel_bounds(c1: int, c2: int, f: int)
    requires
        0 <= c1 <= 255,
        0 <= c2 <= 255,
        0 <= f <= FP_ONE,
    ensures
        0 <= lerp_channel_s(c1, c2, f) <= 255,
{
    let num = c1 * (FP_ONE - f) + c2 * f + FP_ONE / 2;
    assert(c1 * (FP_ONE - f) + c2 * f <= 255 * (FP_ONE as int)) by (nonlinear_arith)
        requires
            0 <= c1 <= 255,
            0 <= c2 <= 255,
            0 <= f <= FP_ONE,
    ;
    assert(c1 * (FP_ONE - f) >= 0) by (nonlinear_arith)
        requires
            c1 >= 0,
            f <= FP_ONE,
    ;
    assert(c2 * f >= 0) by (nonlinear_arith)
        requires
            c2 >= 0,
            f >= 0,
    ;
    vstd::arithmetic::div_mod::lemma_div_pos_is_pos(num, FP_ONE as int);
    vstd::arithmetic::div_mod::lemma_multiply_divide_lt(num, FP_ONE as int, 256);
}

/// A prepared color mapping: the gradient with its stops sorted, the
/// smoothing choice and the step bound, ready to color escape samples.
pub struct ColorMap {
    pub start_color: (u8, u8, u8, u8),
    pub peaks: Vec<ColorPeak>,
    pub end_color: (u8, u8, u8, u8),
    pub smooth: bool,
    pub max_steps: usize,
}

/// The color that a gradient with sorted stops assigns to one escape
/// sample: normalize the (optionally smoothed) step count, find the
/// bounding stops, and interpolate between their colors; a degenerate pair
/// of stops yields the later stop's color.
pub open spec fn gradient_color_s(
    start_color: (u8, u8, u8, u8),
    peaks: Seq<ColorPeak>,
    end_color: (u8, u8, u8, u8),
    smooth: bool,
    max_steps: nat,
    point: FracPoint,
) -> (u8, u8, u8, u8)
    recommends
        max_steps >= 1,
{
    let x = norm_x_s(smooth, point.0 as nat, point.1 as int, point.2 as int, max_steps);
    color_of_x_s(start_color, peaks, end_color, x)
}

/// The color that a gradient with sorted stops assigns to the normalized
/// coordinate `x` in `[0, 1]`: find the bounding stops and interpolate.
pub open spec fn color_of_x_s(
    start_color: (u8, u8, u8, u8),
    peaks: Seq<ColorPeak>,
    end_color: (u8, u8, u8, u8),
    x: int,
) -> (u8, u8, u8, u8) {
    let start0 = ColorPeak { bgra: start_color, at: 0 };
    let (p1, p2) = walk_from(peaks, end_color, start0, start0, x);
    if p2.at <= p1.at {
        p2.bgra
    } else {
        lerp_color_s(p1.bgra, p2.bgra, factor_s(x, p1.at as int, p2.at as int))
    }
}

impl ColorMap {
    /// A usable color mapping: a positive step bound and sorted stops.
    pub open spec fn wf(self) -> bool {
        &&& self.max_steps >= 1
        &&& sorted_by_at(self.peaks@)
    }

    /// The color this mapping assigns to one escape sample.
    pub open spec fn color_at(self, point: FracPoint) -> (u8, u8, u8, u8) {
        gradient_color_s(
            self.start_color,
            self.peaks@,
            self.end_color,
            self.smooth,
            self.max_steps as nat,
            point,
        )
    }

    /// Calculates the BGRA color of one fractal point.
    pub fn color_point(&self, point: FracPoint) -> (c: (u8, u8, u8, u8))
        requires
            self.wf(),
        ensures
            c == self.color_at(point),
    {
        let (n, re, im) = point;
        let x = norm_x(self.smooth, n, re, im, self.max_steps);
        let ghost start0 = ColorPeak { bgra: self.start_color, at: 0i64 };
        let mut peak1 = ColorPeak { bgra: self.start_color, at: 0 };
        let mut peak2 = ColorPeak { bgra: self.start_color, at: 0 };
        let mut i: usize = 0;
        proof {
            assert(self.peaks@.skip(0) =~= self.peaks@);
        }
        while i < self.peaks.len() && peak2.at <= x
            invariant
                self.wf(),
                0 <= x <= FP_ONE,
                i <= self.peaks@.len(),
                walk_from(self.peaks@.skip(i as int), self.end_color, peak1, peak2, x as int)
                    == walk_from(self.peaks@, self.end_color, start0, start0, x as int),
            decreases self.peaks@.len() - i,
        {
            proof {
                assert(self.peaks@.skip(i as int).drop_first() =~= self.peaks@.skip(i + 1));
                assert(self.peaks@.skip(i as int)[0] == self.peaks@[i as int]);
            }
            peak1 = peak2;
            peak2 = self.peaks[i];
            i = i + 1;
        }
        if i == self.peaks.len() && peak2.at <= x {
            proof {
                assert(self.peaks@.skip(i as int) =~= Seq::<ColorPeak>::empty());
            }
            peak1 = peak2;
            peak2 = ColorPeak { bgra: self.end_color, at: FP_ONE };
        }
        proof {
            assert((peak1, peak2) == walk_from(
                self.peaks@,
                self.end_color,
                start0,
                start0,
                x as int,
            ));
        }
        if peak2.at <= peak1.at {
            peak2.bgra
        } else {
            let f = interp_factor(x, peak1.at, peak2.at);
            (
                lerp_channel(peak1.bgra.0, peak2.bgra.0, f),
                lerp_channel(peak1.bgra.1, peak2.bgra.1, f),
                lerp_channel(peak1.bgra.2, peak2.bgra.2, f),
                lerp_channel(peak1.bgra.3, peak2.bgra.3, f),
            )
        }
    }
}

/// Creates the color mapping that colors fractal points by `gradient`,
/// scaled so that `max_steps` steps reach the end of the gradient. The
/// gradient's stops are sorted by position once, up front.
pub fn color_with_gradient(gradient: Gradient, max_steps: usize) -> (cm: ColorMap)
    requires
        max_steps >= 1,
    ensures
        cm.wf(),
        cm.start_color == gradient.start_color,
        cm.end_color == gradient.end_color,
        cm.smooth == gradient.smooth,
        cm.max_steps == max_steps,
        cm.peaks@ == sort_by_at_s(gradient.peaks@),
{
    let peaks = sort_peaks(&gradient.peaks);
    ColorMap {
        start_color: gradient.start_color,
        peaks,
        end_color: gradient.end_color,
        smooth: gradient.smooth,
        max_steps,
    }
}

/// The color that `gradient` assigns to one escape sample once its stops
/// are sorted.
pub open spec fn fractal_pixel_s(gradient: Gradient, max_steps: nat, point: FracPoint) -> (
    u8,
    u8,
    u8,
    u8,
) {
    gradient_color_s(
        gradient.start_color,
        sort_by_at_s(gradient.peaks@),
        gradient.end_color,
        gradient.smooth,
        max_steps,
        point,
    )
}

/// Takes fractal data `fractal` and colors it with `gradient`: four bytes
/// per escape sample, B, G, R, A, in the same row-major order.
pub fn color_fractal(fractal: &RawFrac, max_steps: usize, gradient: Gradient) -> (img: FracImage)
    requires
        max_steps >= 1,
        4 * fractal@.len() <= usize::MAX,
    ensures
        img@.len() == 4 * fractal@.len(),
        forall|k: int|
            0 <= k < fractal@.len() ==> {
                let c = fractal_pixel_s(gradient, max_steps as nat, #[trigger] fractal@[k]);
                &&& img@[4 * k] == c.0
                &&& img@[4 * k + 1] == c.1
                &&& img@[4 * k + 2] == c.2
                &&& img@[4 * k + 3] == c.3
            },
{
    let mut colored: Vec<u8> = Vec::with_capacity(4 * fractal.len());
    let color_map = color_with_gradient(gradient, max_steps);
    let mut i: usize = 0;
    while i < fractal.len()
        invariant
            color_map.wf(),
            color_map.max_steps == max_steps,
            forall|p: FracPoint| color_map.color_at(p) == fractal_pixel_s(
                gradient,
                max_steps as nat,
                p,
            ),
            4 * fractal@.len() <= usize::MAX,
            i <= fractal@.len(),
            colored@.len() == 4 * i,
            forall|k: int|
                0 <= k < i ==> {
                    let c = fractal_pixel_s(gradient, max_steps as nat, #[trigger] fractal@[k]);
                    &&& colored@[4 * k] == c.0
                    &&& colored@[4 * k + 1] == c.1
                    &&& colored@[4 * k + 2] == c.2
                    &&& colored@[4 * k + 3] == c.3
                },
        decreases fractal@.len() - i,
    {
        let (b, g, r, a) = color_map.color_point(fractal[i]);
        colored.push(b);
        colored.push(g);
        colored.push(r);
        colored.push(a);
        i = i + 1;
    }
    colored
}

/// Reorders a BGRA byte buffer into RGBA by swapping the first and third
/// channel of every pixel.
pub fn bgra_to_rgba(image: &FracImage) -> (r: FracImage)
    requires
        image@.len() % 4 == 0,
    ensures
        r@.len() == image@.len(),
        forall|p: int|
            0 <= p < image@.len() / 4 ==> {
                &&& #[trigger] r@[4 * p] == image@[4 * p + 2]
                &&& r@[4 * p + 1] == image@[4 * p + 1]
                &&& r@[4 * p + 2] == image@[4 * p]
                &&& r@[4 * p + 3] == image@[4 * p + 3]
            },
{
    let mut out: Vec<u8> = Vec::with_capacity(image.len());
    let mut i: usize = 0;
    proof {
        assert(image@.len() % 4 == 0 ==> 4 * (image@.len() / 4) == image@.len());
    }
    while i < image.len() / 4
        invariant
            image@.len() % 4 == 0,
            4 * (image@.len() / 4) == image@.len(),
            i <= image@.len() / 4,
            out@.len() == 4 * i,
            forall|p: int|
                0 <= p < i ==> {
                    &&& #[trigger] out@[4 * p] == image@[4 * p + 2]
                    &&& out@[4 * p + 1] == image@[4 * p + 1]
                    &&& out@[4 * p + 2] == image@[4 * p]
                    &&& out@[4 * p + 3] == image@[4 * p + 3]
                },
        decreases image@.len() / 4 - i,
    {
        let ghost old_out = out@;
        proof {
            assert(4 * (i + 1) <= 4 * (image@.len() as int / 4));
        }
        out.push(image[4 * i + 2]);
        out.push(image[4 * i + 1]);
        out.push(image[4 * i]);
        out.push(image[4 * i + 3]);
        proof {
            assert(forall|k: int| 0 <= k < old_out.len() ==> out@[k] == old_out[k]);
            assert(out@[4 * (i as int)] == image@[4 * (i as int) + 2]);
            assert(out@[4 * (i as int) + 1] == image@[4 * (i as int) + 1]);
            assert(out@[4 * (i as int) + 2] == image@[4 * (i as int)]);
            assert(out@[4 * (i as int) + 3] == image@[4 * (i as int) + 3]);
        }
        i = i + 1;
    }
    out
}

/// What the Lanczos resampler returns for a given source image and pair of
/// dimensions: a pure function of its arguments.
pub uninterp spec fn resample_of(image: Seq<u8>, from: int, to: int) -> Seq<u8>;

/// Relies on `resize::Resizer` with the `RGBA8` pixel format and the
/// `Lanczos3` filter: for positive dimensions and a source buffer of exactly
/// `4 * from * from` bytes it fills a destination buffer of exactly
/// `4 * to * to` bytes, scaling the four channels independently, and its
/// output depends only on the source pixels and the two dimensions. With
/// valid dimensions and buffer lengths the only remaining failure is memory
/// exhaustion.
#[verifier::external_body]
fn lanczos_resize(image: &FracImage, from: usize, to: usize) -> (r: FracImage)
    requires
        1 <= from,
        1 <= to,
        to <= 16384,
        image@.len() == 4 * from * from,
    ensures
        r@.len() == 4 * to * to,
        r@ == resample_of(image@, from as int, to as int),
{
    let mut src = Vec::with_capacity(from * from);
    for px in image.chunks_exact(4) {
        src.push(resize::px::RGBA { r: px[0], g: px[1], b: px[2], a: px[3] });
    }
    let mut dst = vec![resize::px::RGBA { r: 0u8, g: 0u8, b: 0u8, a: 0u8 }; to * to];
    resize::new(from, from, to, to, resize::Pixel::RGBA8, resize::Type::Lanczos3)
        .unwrap()
        .resize(&src, &mut dst)
        .unwrap();
    dst.iter().flat_map(|p| [p.r, p.g, p.b, p.a]).collect()
}

/// Resizes the fractal `image` from the square dimension `from` to the
/// square dimension `to` with a Lanczos resampler. Equal dimensions return
/// the image unchanged, pixel for pixel.
pub fn resize_fractal_image(image: &FracImage, from: usize, to: usize) -> (r: FracImage)
    requires
        1 <= from,
        from <= 16384,
        1 <= to,
        to <= 16384,
        image@.len() == 4 * from * from,
    ensures
        r@.len() == 4 * to * to,
        from == to ==> r@ == image@,
        from != to ==> r@ == resample_of(image@, from as int, to as int),
{
    if from == to {
        let mut out: Vec<u8> = Vec::with_capacity(image.len());
        let mut i: usize = 0;
        while i < image.len()
            invariant
                i <= image@.len(),
                out@ == image@.subrange(0, i as int),
            decreases image@.len() - i,
        {
            out.push(image[i]);
            proof {
                assert(image@.subrange(0, i + 1) =~= image@.subrange(0, i as int).push(
                    image@[i as int],
                ));
            }
            i = i + 1;
        }
        proof {
            assert(out@ =~= image@);
        }
        out
    } else {
        lanczos_resize(image, from, to)
    }
}

/// The interpolated channel never decreases when the factor grows, as long
/// as the later channel value is at least the earlier one.
pub proof fn lemma_lerp_channel_monotone(c1: int, c2: int, f1: int, f2: int)
    requires
        0 <= c1 <= 255,
        0 <= c2 <= 255,
        c1 <= c2,
        0 <= f1 <= f2 <= FP_ONE,
    ensures
        lerp_channel_s(c1, c2, f1) <= lerp_channel_s(c1, c2, f2),
{
    let n1 = c1 * (FP_ONE - f1) + c2 * f1 + FP_ONE / 2;
    let n2 = c1 * (FP_ONE - f2) + c2 * f2 + FP_ONE / 2;
    assert((c1 * ((FP_ONE as int) - f2) + c2 * f2) - (c1 * ((FP_ONE as int) - f1) + c2 * f1) == (
    c2 - c1) * (f2 - f1)) by (nonlinear_arith);
    assert((c2 - c1) * (f2 - f1) >= 0) by (nonlinear_arith)
        requires
            c2 - c1 >= 0,
            f2 - f1 >= 0,
    ;
    vstd::arithmetic::div_mod::lemma_div_is_ordered(n1, n2, FP_ONE as int);
}

/// Walking the stops with the coordinate at the very end passes every stop
/// that lies strictly inside the gradient and bounds with the end color.
proof fn lemma_walk_to_end(
    peaks: Seq<ColorPeak>,
    end_color: (u8, u8, u8, u8),
    p1: ColorPeak,
    p2: ColorPeak,
)
    requires
        p2.at < FP_ONE,
        forall|i: int| 0 <= i < peaks.len() ==> (#[trigger] peaks[i]).at < FP_ONE,
    ensures
        walk_from(peaks, end_color, p1, p2, FP_ONE as int) == (
            if peaks.len() == 0 {
                p2
            } else {
                peaks.last()
            },
            ColorPeak { bgra: end_color, at: FP_ONE },
        ),
    decreases peaks.len(),
{
    if peaks.len() > 0 {
        lemma_walk_to_end(peaks.drop_first(), end_color, p2, peaks[0]);
        if peaks.len() > 1 {
            assert(peaks.drop_first().last() == peaks.last());
        }
    }
}

/// Rounded interpolation returns the earlier color exactly at factor zero
/// and the later color exactly at factor one.
pub proof fn lemma_lerp_channel_endpoints(c1: int, c2: int)
    requires
        0 <= c1 <= 255,
        0 <= c2 <= 255,
    ensures
        lerp_channel_s(c1, c2, 0) == c1,
        lerp_channel_s(c1, c2, FP_ONE as int) == c2,
{
    assert(c1 * ((FP_ONE as int) - 0) + c2 * 0 + FP_ONE / 2 == (FP_ONE as int) * c1 + FP_ONE / 2)
        by (nonlinear_arith);
    vstd::arithmetic::div_mod::lemma_div_multiples_vanish_fancy(c1, FP_ONE / 2, FP_ONE as int);
    assert(c1 * ((FP_ONE as int) - (FP_ONE as int)) + c2 * (FP_ONE as int) + FP_ONE / 2 == (
    FP_ONE as int) * c2 + FP_ONE / 2) by (nonlinear_arith);
    vstd::arithmetic::div_mod::lemma_div_multiples_vanish_fancy(c2, FP_ONE / 2, FP_ONE as int);
}

/// Gradient round trip: when every stop lies strictly inside the gradient
/// and the stops are sorted, the coordinate zero is colored exactly with the
/// start color and the coordinate one exactly with the end color.
pub proof fn lemma_gradient_endpoints(
    start_color: (u8, u8, u8, u8),
    peaks: Seq<ColorPeak>,
    end_color: (u8, u8, u8, u8),
)
    requires
        sorted_by_at(peaks),
        forall|i: int| 0 <= i < peaks.len() ==> 0 < (#[trigger] peaks[i]).at < FP_ONE,
    ensures
        color_of_x_s(start_color, peaks, end_color, 0) == start_color,
        color_of_x_s(start_color, peaks, end_color, FP_ONE as int) == end_color,
{
    let start0 = ColorPeak { bgra: start_color, at: 0 };
    let end1 = ColorPeak { bgra: end_color, at: FP_ONE };
    // coordinate zero: the walk stops at the first peak (or the end stop)
    if peaks.len() == 0 {
        assert(walk_from(peaks, end_color, start0, start0, 0) == (start0, end1));
        assert(factor_s(0, 0, FP_ONE as int) == 0) by {
            vstd::arithmetic::div_mod::lemma_div_multiples_vanish(0, FP_ONE as int);
        }
    } else {
        assert(walk_from(peaks.drop_first(), end_color, start0, peaks[0], 0) == (
            start0,
            peaks[0],
        ));
        assert(walk_from(peaks, end_color, start0, start0, 0) == (start0, peaks[0]));
        assert(factor_s(0, 0, peaks[0].at as int) == 0) by {
            vstd::arithmetic::div_mod::lemma_div_multiples_vanish(0, peaks[0].at as int);
        }
    }
    lemma_lerp_channel_endpoints(start_color.0 as int, end_color.0 as int);
    lemma_lerp_channel_endpoints(start_color.1 as int, end_color.1 as int);
    lemma_lerp_channel_endpoints(start_color.2 as int, end_color.2 as int);
    lemma_lerp_channel_endpoints(start_color.3 as int, end_color.3 as int);
    if peaks.len() > 0 {
        lemma_lerp_channel_endpoints(start_color.0 as int, peaks[0].bgra.0 as int);
        lemma_lerp_channel_endpoints(start_color.1 as int, peaks[0].bgra.1 as int);
        lemma_lerp_channel_endpoints(start_color.2 as int, peaks[0].bgra.2 as int);
        lemma_lerp_channel_endpoints(start_color.3 as int, peaks[0].bgra.3 as int);
    }
    // coordinate one: the walk passes every stop and bounds with the end stop
    lemma_walk_to_end(peaks, end_color, start0, start0);
    let last = if peaks.len() == 0 {
        start0
    } else {
        peaks.last()
    };
    assert(walk_from(peaks, end_color, start0, start0, FP_ONE as int) == (last, end1));
    assert(factor_s(FP_ONE as int, last.at as int, FP_ONE as int) == FP_ONE) by {
        let d = (FP_ONE as int) - last.at;
        assert((FP_ONE - last.at) * (FP_ONE as int) == d * FP_ONE);
        assert(tdiv(d * (FP_ONE as int), d) == FP_ONE) by {
            vstd::arithmetic::div_mod::lemma_div_multiples_vanish(FP_ONE as int, d);
            assert(d * (FP_ONE as int) >= 0) by (nonlinear_arith)
                requires
                    d > 0,
            ;
        }
    }
    lemma_lerp_channel_endpoints(last.bgra.0 as int, end_color.0 as int);
    lemma_lerp_channel_endpoints(last.bgra.1 as int, end_color.1 as int);
    lemma_lerp_channel_endpoints(last.bgra.2 as int, end_color.2 as int);
    lemma_lerp_channel_endpoints(last.bgra.3 as int, end_color.3 as int);
}

/// Monotone channel interpolation: in a two-stop gradient (no inner peaks)
/// every channel whose end value is at least its start value is mapped
/// nondecreasingly in the normalized coordinate.
pub proof fn lemma_two_stop_monotone(
    start_color: (u8, u8, u8, u8),
    end_color: (u8, u8, u8, u8),
    x1: int,
    x2: int,
)
    requires
        0 <= x1 <= x2 <= FP_ONE,
    ensures
        start_color.0 <= end_color.0 ==> color_of_x_s(start_color, Seq::empty(), end_color, x1).0
            <= color_of_x_s(start_color, Seq::empty(), end_color, x2).0,
        start_color.1 <= end_color.1 ==> color_of_x_s(start_color, Seq::empty(), end_color, x1).1
            <= color_of_x_s(start_color, Seq::empty(), end_color, x2).1,
        start_color.2 <= end_color.2 ==> color_of_x_s(start_color, Seq::empty(), end_color, x1).2
            <= color_of_x_s(start_color, Seq::empty(), end_color, x2).2,
        start_color.3 <= end_color.3 ==> color_of_x_s(start_color, Seq::empty(), end_color, x1).3
            <= color_of_x_s(start_color, Seq::empty(), end_color, x2).3,
{
    let start0 = ColorPeak { bgra: start_color, at: 0 };
    let end1 = ColorPeak { bgra: end_color, at: FP_ONE };
    assert(walk_from(Seq::empty(), end_color, start0, start0, x1) == (start0, end1));
    assert(walk_from(Seq::empty(), end_color, start0, start0, x2) == (start0, end1));
    lemma_factor_of_whole(x1);
    lemma_factor_of_whole(x2);
    if start_color.0 <= end_color.0 {
        lemma_lerp_channel_monotone(start_color.0 as int, end_color.0 as int, x1, x2);
    }
    if start_color.1 <= end_color.1 {
        lemma_lerp_channel_monotone(start_color.1 as int, end_color.1 as int, x1, x2);
    }
    if start_color.2 <= end_color.2 {
        lemma_lerp_channel_monotone(start_color.2 as int, end_color.2 as int, x1, x2);
    }
    if start_color.3 <= end_color.3 {
        lemma_lerp_channel_monotone(start_color.3 as int, end_color.3 as int, x1, x2);
    }
    lemma_lerp_channel_bounds(start_color.0 as int, end_color.0 as int, x1);
    lemma_lerp_channel_bounds(start_color.1 as int, end_color.1 as int, x1);
    lemma_lerp_channel_bounds(start_color.2 as int, end_color.2 as int, x1);
    lemma_lerp_channel_bounds(start_color.3 as int, end_color.3 as int, x1);
    lemma_lerp_channel_bounds(start_color.0 as int, end_color.0 as int, x2);
    lemma_lerp_channel_bounds(start_color.1 as int, end_color.1 as int, x2);
    lemma_lerp_channel_bounds(start_color.2 as int, end_color.2 as int, x2);
    lemma_lerp_channel_bounds(start_color.3 as int, end_color.3 as int, x2);
}

/// Gradient round trip at the level of the color mapper: without smoothing,
/// a sample that took no steps is colored exactly with the start color, and
/// a sample that used up the whole step bound exactly with the end color,
/// whenever the sorted stops lie strictly inside the gradient.
pub proof fn lemma_color_round_trip(
    start_color: (u8, u8, u8, u8),
    peaks: Seq<ColorPeak>,
    end_color: (u8, u8, u8, u8),
    max_steps: nat,
    point_lo: FracPoint,
    point_hi: FracPoint,
)
    requires
        sorted_by_at(peaks),
        forall|i: int| 0 <= i < peaks.len() ==> 0 < (#[trigger] peaks[i]).at < FP_ONE,
        1 <= max_steps <= 0x7F_FFFF_FFFF,
        point_lo.0 == 0,
        point_hi.0 == max_steps,
    ensures
        gradient_color_s(start_color, peaks, end_color, false, max_steps, point_lo)
            == start_color,
        gradient_color_s(start_color, peaks, end_color, false, max_steps, point_hi) == end_color,
{
    assert(norm_x_s(false, 0, point_lo.1 as int, point_lo.2 as int, max_steps) == 0);
    assert(sat64(max_steps * (FP_ONE as int)) == max_steps * (FP_ONE as int)) by (nonlinear_arith)
        requires
            1 <= max_steps <= 0x7F_FFFF_FFFF,
    ;
    assert(tdiv(max_steps * (FP_ONE as int), max_steps as int) == FP_ONE) by {
        assert(max_steps * (FP_ONE as int) >= 0) by (nonlinear_arith)
            requires
                max_steps >= 1,
        ;
        vstd::arithmetic::div_mod::lemma_div_multiples_vanish(FP_ONE as int, max_steps as int);
        assert((max_steps as int) * (FP_ONE as int) == max_steps * (FP_ONE as int));
    }
    assert(norm_x_s(false, max_steps, point_hi.1 as int, point_hi.2 as int, max_steps)
        == FP_ONE);
    lemma_gradient_endpoints(start_color, peaks, end_color);
}

/// Over the whole gradient interval the interpolation factor is the
/// coordinate itself.
proof fn lemma_factor_of_whole(x: int)
    requires
        0 <= x <= FP_ONE,
    ensures
        factor_s(x, 0, FP_ONE as int) == x,
{
    assert(x * (FP_ONE as int) >= 0) by (nonlinear_arith)
        requires
            x >= 0,
    ;
    assert(tdiv(x * (FP_ONE as int), FP_ONE as int) == x) by {
        vstd::arithmetic::div_mod::lemma_div_multiples_vanish(x, FP_ONE as int);
    }
}

} // verus!
