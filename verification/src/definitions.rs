//! The data model: viewport, fractal parameters, escape samples, gradients.
//!
//! Real-valued quantities (coordinates, radii, gradient positions, escape
//! bounds) are fixed-point numbers as defined in [`crate::fp`]: an `i64`
//! holding the value scaled by `2^24`.

use vstd::prelude::*;
use crate::fp::FP_ONE;

verus! {

/// The area in which the fractal is drawn.
///
/// The area of the complex plane is a square with the center in
/// `(center_re, center_im)` and a side of length `2 * radius`, all in
/// fixed-point units. `pixel_size` is the number of pixels per square side,
/// which defines the `pixel_size * pixel_size` point mesh for evaluation.
#[derive(Clone, Copy)]
pub struct Field {
    pub pixel_size: usize,
    pub center_re: i64,
    pub center_im: i64,
    pub radius: i64,
}

impl Field {
    /// A valid viewport: a positive, bounded mesh and a square that lies
    /// well inside the fixed-point range.
    pub open spec fn wf(self) -> bool {
        &&& 1 <= self.pixel_size <= 16384
        &&& 1 <= self.radius <= 0x100_0000_0000
        &&& -0x100_0000_0000 <= self.center_re <= 0x100_0000_0000
        &&& -0x100_0000_0000 <= self.center_im <= 0x100_0000_0000
    }
}

impl Default for Field {
    /// A 1000-pixel mesh over the square of radius two around the origin.
    fn default() -> (r: Self)
        ensures
            r.pixel_size == 1000,
            r.center_re == 0,
            r.center_im == 0,
            r.radius == 2 * FP_ONE,
            r.wf(),
    {
        Field { pixel_size: 1000, center_re: 0, center_im: 0, radius: 2 * FP_ONE }
    }
}

/// The result of iterating one point: the number of steps taken before the
/// iteration terminated, and the fixed-point real and imaginary parts of the
/// complex value at the end of iteration (kept for smooth coloring).
pub type FracPoint = (usize, i64, i64);

/// A calculated fractal: one `FracPoint` per pixel, row-major.
pub type RawFrac = Vec<FracPoint>;

/// A colored fractal image: a flattened vector of BGRA pixels, one `u8` per
/// channel, row-major.
pub type FracImage = Vec<u8>;

/// Whether fractal calculation uses the Julia or the Mandelbrot style of
/// point iteration.
#[derive(Clone, Copy, Debug, PartialEq, Eq)]
pub enum IterationStyle {
    Julia,
    Mandelbrot,
}

impl IterationStyle {
    /// The style's display label.
    pub fn label(&self) -> (s: String)
        ensures
            *self == IterationStyle::Julia ==> s@ == "Julia style"@,
            *self == IterationStyle::Mandelbrot ==> s@ == "Mandelbrot style"@,
    {
        broadcast use vstd::string::to_string_from_display_ensures_for_str;

        match self {
            IterationStyle::Julia => "Julia style".to_string(),
            IterationStyle::Mandelbrot => "Mandelbrot style".to_string(),
        }
    }
}

/// The complex function used in iteration when calculating fractals.
#[derive(Clone, Copy, Debug, PartialEq, Eq)]
pub enum IteratorKind {
    Square,
    Cube,
    Inverse,
    Ship,
}

impl IteratorKind {
    /// The iterator's display label.
    pub fn label(&self) -> (s: String)
        ensures
            *self == IteratorKind::Square ==> s@ == "z ^ 2"@,
            *self == IteratorKind::Cube ==> s@ == "z ^ 3"@,
            *self == IteratorKind::Inverse ==> s@ == "z ^ -2"@,
            *self == IteratorKind::Ship ==> s@ == "(|a| + i|b|) ^ 2"@,
    {
        broadcast use vstd::string::to_string_from_display_ensures_for_str;

        match self {
            IteratorKind::Square => "z ^ 2".to_string(),
            IteratorKind::Cube => "z ^ 3".to_string(),
            IteratorKind::Inverse => "z ^ -2".to_string(),
            IteratorKind::Ship => "(|a| + i|b|) ^ 2".to_string(),
        }
    }
}

/// A gradient stop: `bgra` is the color in BGRA `u8` format and `at` is the
/// fixed-point position (expected between zero and one) where the gradient
/// reaches that color along the interval from zero to one.
#[derive(Clone, Copy, Debug)]
pub struct ColorPeak {
    pub bgra: (u8, u8, u8, u8),
    pub at: i64,
}

/// The color gradient chosen for the picture. The gradient starts with
/// `start_color`, transitions linearly between the colors in `peaks` and
/// ends with `end_color`. `smooth` selects the continuous correction of the
/// step count that removes banding.
#[derive(Debug)]
pub struct Gradient {
    pub start_color: (u8, u8, u8, u8),
    pub peaks: Vec<ColorPeak>,
    pub end_color: (u8, u8, u8, u8),
    pub smooth: bool,
}

impl Clone for Gradient {
    /// A deep copy that keeps every stop.
    fn clone(&self) -> (r: Self)
        ensures
            r.start_color == self.start_color,
            r.peaks@ == self.peaks@,
            r.end_color == self.end_color,
            r.smooth == self.smooth,
    {
        let mut peaks: Vec<ColorPeak> = Vec::with_capacity(self.peaks.len());
        let mut i: usize = 0;
        while i < self.peaks.len()
            invariant
                i <= self.peaks@.len(),
                peaks@ == self.peaks@.subrange(0, i as int),
            decreases self.peaks@.len() - i,
        {
            peaks.push(self.peaks[i]);
            proof {
                assert(self.peaks@.subrange(0, i + 1) =~= self.peaks@.subrange(0, i as int).push(
                    self.peaks@[i as int],
                ));
            }
            i = i + 1;
        }
        proof {
            assert(peaks@ =~= self.peaks@);
        }
        Gradient {
            start_color: self.start_color,
            peaks,
            end_color: self.end_color,
            smooth: self.smooth,
        }
    }
}

/// The built-in gradient presets.
#[derive(Clone, Copy)]
pub enum GradientPreset {
    Azul,
    Svarog,
    Emperor,
    Gaia,
}

impl Gradient {
    /// Black into deep blue into warm white, back to black.
    pub fn azul() -> (g: Gradient)
        ensures
            g.start_color == (0u8, 0u8, 0u8, 255u8),
            g.end_color == (0u8, 0u8, 0u8, 255u8),
            g.smooth == true,
            g.peaks@.len() == 2,
            g.peaks@[0] == (ColorPeak { bgra: (220u8, 120u8, 30u8, 255u8), at: 5033164i64 }),
            g.peaks@[1] == (ColorPeak { bgra: (255u8, 230u8, 220u8, 255u8), at: 11744051i64 }),
    {
        Gradient {
            start_color: (0, 0, 0, 255),
            peaks: vec![
                // positions are 0.3 and 0.7 in fixed point
                ColorPeak { bgra: (220, 120, 30, 255), at: 5033164 },
                ColorPeak { bgra: (255, 230, 220, 255), at: 11744051 },
            ],
            end_color: (0, 0, 0, 255),
            smooth: true,
        }
    }

    /// Black through fiery blues into white.
    pub fn svarog() -> (g: Gradient)
        ensures
            g.start_color == (0u8, 0u8, 0u8, 255u8),
            g.end_color == (255u8, 255u8, 255u8, 255u8),
            g.smooth == true,
            g.peaks@.len() == 4,
            g.peaks@[0] == (ColorPeak { bgra: (0u8, 0u8, 0u8, 255u8), at: 3355443i64 }),
            g.peaks@[1] == (ColorPeak { bgra: (30u8, 60u8, 200u8, 255u8), at: 6710886i64 }),
            g.peaks@[2] == (ColorPeak { bgra: (45u8, 180u8, 220u8, 255u8), at: 10066329i64 }),
            g.peaks@[3] == (ColorPeak { bgra: (75u8, 210u8, 250u8, 255u8), at: 13421772i64 }),
    {
        Gradient {
            start_color: (0, 0, 0, 255),
            peaks: vec![
                // positions are 0.2, 0.4, 0.6 and 0.8 in fixed point
                ColorPeak { bgra: (0, 0, 0, 255), at: 3355443 },
                ColorPeak { bgra: (30, 60, 200, 255), at: 6710886 },
                ColorPeak { bgra: (45, 180, 220, 255), at: 10066329 },
                ColorPeak { bgra: (75, 210, 250, 255), at: 13421772 },
            ],
            end_color: (255, 255, 255, 255),
            smooth: true,
        }
    }

    /// Black through purples into white.
    pub fn emperor() -> (g: Gradient)
        ensures
            g.start_color == (0u8, 0u8, 0u8, 255u8),
            g.end_color == (255u8, 255u8, 255u8, 255u8),
            g.smooth == true,
            g.peaks@.len() == 4,
            g.peaks@[0] == (ColorPeak { bgra: (0u8, 0u8, 0u8, 255u8), at: 3355443i64 }),
            g.peaks@[1] == (ColorPeak { bgra: (160u8, 30u8, 80u8, 255u8), at: 6710886i64 }),
            g.peaks@[2] == (ColorPeak { bgra: (200u8, 40u8, 100u8, 255u8), at: 10066329i64 }),
            g.peaks@[3] == (ColorPeak { bgra: (75u8, 210u8, 250u8, 255u8), at: 13421772i64 }),
    {
        Gradient {
            start_color: (0, 0, 0, 255),
            peaks: vec![
                // positions are 0.2, 0.4, 0.6 and 0.8 in fixed point
                ColorPeak { bgra: (0, 0, 0, 255), at: 3355443 },
                ColorPeak { bgra: (160, 30, 80, 255), at: 6710886 },
                ColorPeak { bgra: (200, 40, 100, 255), at: 10066329 },
                ColorPeak { bgra: (75, 210, 250, 255), at: 13421772 },
            ],
            end_color: (255, 255, 255, 255),
            smooth: true,
        }
    }

    /// Earthy browns and golds into pale sky.
    pub fn gaia() -> (g: Gradient)
        ensures
            g.start_color == (0u8, 0u8, 0u8, 255u8),
            g.end_color == (255u8, 255u8, 255u8, 255u8),
            g.smooth == true,
            g.peaks@.len() == 4,
            g.peaks@[0] == (ColorPeak { bgra: (60u8, 50u8, 50u8, 255u8), at: 1677721i64 }),
            g.peaks@[1] == (ColorPeak { bgra: (180u8, 140u8, 60u8, 255u8), at: 8388608i64 }),
            g.peaks@[2] == (ColorPeak { bgra: (210u8, 200u8, 100u8, 255u8), at: 11744051i64 }),
            g.peaks@[3] == (ColorPeak { bgra: (150u8, 230u8, 250u8, 255u8), at: 15099494i64 }),
    {
        Gradient {
            start_color: (0, 0, 0, 255),
            peaks: vec![
                // positions are 0.1, 0.5, 0.7 and 0.9 in fixed point
                ColorPeak { bgra: (60, 50, 50, 255), at: 1677721 },
                ColorPeak { bgra: (180, 140, 60, 255), at: 8388608 },
                ColorPeak { bgra: (210, 200, 100, 255), at: 11744051 },
                ColorPeak { bgra: (150, 230, 250, 255), at: 15099494 },
            ],
            end_color: (255, 255, 255, 255),
            smooth: true,
        }
    }
}

impl Default for Gradient {
    /// The gaia preset.
    fn default() -> (g: Self)
        ensures
            g.start_color == (0u8, 0u8, 0u8, 255u8),
            g.end_color == (255u8, 255u8, 255u8, 255u8),
            g.smooth == true,
            g.peaks@.len() == 4,
            g.peaks@[0] == (ColorPeak { bgra: (60u8, 50u8, 50u8, 255u8), at: 1677721i64 }),
            g.peaks@[1] == (ColorPeak { bgra: (180u8, 140u8, 60u8, 255u8), at: 8388608i64 }),
            g.peaks@[2] == (ColorPeak { bgra: (210u8, 200u8, 100u8, 255u8), at: 11744051i64 }),
            g.peaks@[3] == (ColorPeak { bgra: (150u8, 230u8, 250u8, 255u8), at: 15099494i64 }),
    {
        Gradient::gaia()
    }
}

/// Arguments required for calculating a fractal.
///
/// - `field`: the part of the complex plane to be drawn
/// - `(c_re, c_im)`: the fixed-point complex constant used for Julia-style
///   fractals
/// - `steps`: the number of iteration steps per point before assuming
///   divergence
/// - `iter_bound`: if the squared absolute value of the complex point
///   reaches this fixed-point boundary during iteration, we assume
///   divergence
/// - `iteration_style`: Julia or Mandelbrot iteration
/// - `iterator_kind`: the function used in iteration
#[derive(Clone, Copy)]
pub struct FracArgs {
    pub field: Field,
    pub c_re: i64,
    pub c_im: i64,
    pub steps: usize,
    pub iter_bound: i64,
    pub iteration_style: IterationStyle,
    pub iterator_kind: IteratorKind,
}

impl FracArgs {
    /// Valid fractal parameters: a valid viewport, at least one step allowed
    /// and a positive escape bound.
    pub open spec fn wf(self) -> bool {
        &&& self.field.wf()
        &&& 1 <= self.steps
        &&& 1 <= self.iter_bound
    }
}

impl Default for FracArgs {
    /// A Julia-style square iteration over the default viewport.
    fn default() -> (r: Self)
        ensures
            r.field.pixel_size == 1000,
            r.field.center_re == 0,
            r.field.center_im == 0,
            r.field.radius == 2 * FP_ONE,
            r.c_re == 0,
            r.c_im == 0,
            r.steps == 256,
            r.iter_bound == 10 * FP_ONE,
            r.iteration_style == IterationStyle::Julia,
            r.iterator_kind == IteratorKind::Square,
            r.wf(),
    {
        FracArgs {
            field: Field::default(),
            c_re: 0,
            c_im: 0,
            steps: 256,
            iter_bound: 10 * FP_ONE,
            iteration_style: IterationStyle::Julia,
            iterator_kind: IteratorKind::Square,
        }
    }
}

/// Arguments required for coloring a fractal.
#[derive(Clone)]
pub struct ImageArgs {
    pub gradient: Gradient,
}

impl Default for ImageArgs {
    /// The default gradient.
    fn default() -> (r: Self)
        ensures
            r.gradient.start_color == (0u8, 0u8, 0u8, 255u8),
            r.gradient.end_color == (255u8, 255u8, 255u8, 255u8),
            r.gradient.smooth == true,
            r.gradient.peaks@.len() == 4,
            forall|i: int| 0 <= i < 4 ==> 0 < (#[trigger] r.gradient.peaks@[i]).at < FP_ONE,
    {
        ImageArgs { gradient: Gradient::default() }
    }
}

} // verus!
