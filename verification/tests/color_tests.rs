//! Tests of the gradient model, the color mapper and the image resize.

use fractalisator::color::{
    bgra_to_rgba, color_fractal, color_with_gradient, resize_fractal_image, sort_peaks,
};
use fractalisator::definitions::{
    ColorPeak, Field, FracArgs, Gradient, ImageArgs, IterationStyle, IteratorKind,
};
use fractalisator::draw::compute_fractal;
use fractalisator::fp::FP_ONE;

fn two_stop(start: (u8, u8, u8, u8), end: (u8, u8, u8, u8), smooth: bool) -> Gradient {
    Gradient { start_color: start, peaks: vec![], end_color: end, smooth }
}

#[test]
fn gradient_start_color_at_zero() {
    // an unsmoothed sample with zero steps normalizes to x = 0
    let g = Gradient::gaia();
    let cm = color_with_gradient(
        Gradient { smooth: false, ..g },
        100,
    );
    assert_eq!(cm.color_point((0, 0, 0)), (0, 0, 0, 255));
}

#[test]
fn gradient_end_color_at_one() {
    // an unsmoothed sample with the full step count normalizes to x = 1
    let g = Gradient::gaia();
    let cm = color_with_gradient(
        Gradient { smooth: false, ..g },
        100,
    );
    assert_eq!(cm.color_point((100, 0, 0)), (255, 255, 255, 255));
}

#[test]
fn two_stop_round_trip() {
    let cm = color_with_gradient(two_stop((10, 20, 30, 255), (200, 150, 100, 0), false), 64);
    assert_eq!(cm.color_point((0, 0, 0)), (10, 20, 30, 255));
    assert_eq!(cm.color_point((64, 0, 0)), (200, 150, 100, 0));
}

#[test]
fn two_stop_midpoint_interpolates() {
    // halfway between 0 and 200 with rounding
    let cm = color_with_gradient(two_stop((0, 0, 100, 255), (200, 50, 101, 255), false), 2);
    assert_eq!(cm.color_point((1, 0, 0)), (100, 25, 101, 255));
}

#[test]
fn two_stop_channels_monotone() {
    let cm = color_with_gradient(two_stop((5, 0, 250, 255), (240, 255, 255, 255), false), 50);
    let mut prev = cm.color_point((0, 0, 0));
    for n in 1..=50usize {
        let cur = cm.color_point((n, 0, 0));
        assert!(prev.0 <= cur.0);
        assert!(prev.1 <= cur.1);
        assert!(prev.2 <= cur.2);
        assert!(prev.3 <= cur.3);
        prev = cur;
    }
}

#[test]
fn unsorted_peaks_are_sorted_once() {
    let peaks = vec![
        ColorPeak { bgra: (1, 1, 1, 255), at: 7 * FP_ONE / 10 },
        ColorPeak { bgra: (2, 2, 2, 255), at: 3 * FP_ONE / 10 },
        ColorPeak { bgra: (3, 3, 3, 255), at: 5 * FP_ONE / 10 },
    ];
    let sorted = sort_peaks(&peaks);
    assert_eq!(sorted.len(), 3);
    assert!(sorted[0].at <= sorted[1].at && sorted[1].at <= sorted[2].at);
    assert_eq!(sorted[0].bgra, (2, 2, 2, 255));
    assert_eq!(sorted[1].bgra, (3, 3, 3, 255));
    assert_eq!(sorted[2].bgra, (1, 1, 1, 255));
    let g = Gradient {
        start_color: (0, 0, 0, 255),
        peaks,
        end_color: (255, 255, 255, 255),
        smooth: false,
    };
    let cm = color_with_gradient(g, 10);
    assert!(cm.peaks[0].at <= cm.peaks[1].at && cm.peaks[1].at <= cm.peaks[2].at);
}

#[test]
fn equal_position_peaks_use_later_stop() {
    // two stops at the same position: the interpolation factor is undefined,
    // so the mapper falls back to the later stop's color
    let peaks = vec![
        ColorPeak { bgra: (40, 40, 40, 255), at: FP_ONE / 2 },
        ColorPeak { bgra: (90, 90, 90, 255), at: FP_ONE / 2 },
    ];
    let g = Gradient {
        start_color: (0, 0, 0, 255),
        peaks,
        end_color: (255, 255, 255, 255),
        smooth: false,
    };
    let cm = color_with_gradient(g, 2);
    // n = 1 of 2 normalizes to exactly the shared position
    assert_eq!(cm.color_point((1, 0, 0)), (90, 90, 90, 255));
}

#[test]
fn smoothing_pulls_early_escapes_to_the_start() {
    // steps = 1 with |z|^2 = 8: log2(log2(8)) > 1, so the smoothed count is
    // negative and clamps to x = 0
    let cm = color_with_gradient(Gradient::gaia(), 50);
    assert_eq!(cm.color_point((1, -2 * FP_ONE, -2 * FP_ONE)), (0, 0, 0, 255));
}

#[test]
fn color_fractal_writes_four_bytes_per_point() {
    let frac = vec![(0usize, 0i64, 0i64), (5, FP_ONE, FP_ONE), (10, 0, 0)];
    let g = Gradient::svarog();
    let cm = color_with_gradient(g.clone(), 10);
    let img = color_fractal(&frac, 10, g);
    assert_eq!(img.len(), 12);
    for (k, &point) in frac.iter().enumerate() {
        let (b, gg, r, a) = cm.color_point(point);
        assert_eq!(img[4 * k], b);
        assert_eq!(img[4 * k + 1], gg);
        assert_eq!(img[4 * k + 2], r);
        assert_eq!(img[4 * k + 3], a);
    }
}

#[test]
fn end_to_end_corner_pixel_is_start_colored() {
    // a small Mandelbrot render: the corner pixel maps to -2 - 2i, escapes
    // after one step, and smoothing clamps it onto the gradient start
    let args = FracArgs {
        field: Field { pixel_size: 4, center_re: 0, center_im: 0, radius: 2 * FP_ONE },
        c_re: 0,
        c_im: 0,
        steps: 50,
        iter_bound: 4 * FP_ONE,
        iteration_style: IterationStyle::Mandelbrot,
        iterator_kind: IteratorKind::Square,
    };
    let frac = compute_fractal(args);
    assert_eq!(frac[0], (1, -2 * FP_ONE, -2 * FP_ONE));
    let img = color_fractal(&frac, args.steps, ImageArgs::default().gradient);
    assert_eq!(img.len(), 64);
    let start = ImageArgs::default().gradient.start_color;
    assert_eq!((img[0], img[1], img[2], img[3]), start);
}

#[test]
fn resize_equal_dimensions_is_identity() {
    let img: Vec<u8> = (0..16).map(|v| (v * 13) as u8).collect();
    let out = resize_fractal_image(&img, 2, 2);
    assert_eq!(out, img);
}

#[test]
fn resize_changes_dimensions() {
    let img: Vec<u8> = (0..16).map(|v| (v * 13) as u8).collect();
    let out = resize_fractal_image(&img, 2, 1);
    assert_eq!(out.len(), 4);
    let up = resize_fractal_image(&img, 2, 4);
    assert_eq!(up.len(), 64);
}

#[test]
fn resize_preserves_constant_regions_roughly() {
    // downscale a solid image: every output channel stays near the input
    let img: Vec<u8> = std::iter::repeat([10u8, 200, 30, 255])
        .take(16)
        .flatten()
        .collect();
    let out = resize_fractal_image(&img, 4, 2);
    assert_eq!(out.len(), 16);
    for px in out.chunks(4) {
        assert!((px[0] as i32 - 10).abs() <= 1);
        assert!((px[1] as i32 - 200).abs() <= 1);
        assert!((px[2] as i32 - 30).abs() <= 1);
        assert!((px[3] as i32 - 255).abs() <= 1);
    }
}

#[test]
fn bgra_to_rgba_swaps_blue_and_red() {
    let img = vec![1u8, 2, 3, 4, 5, 6, 7, 8];
    assert_eq!(bgra_to_rgba(&img), vec![3u8, 2, 1, 4, 7, 6, 5, 8]);
}

#[test]
fn preset_gradients_hold_their_stops() {
    let azul = Gradient::azul();
    assert_eq!(azul.start_color, (0, 0, 0, 255));
    assert_eq!(azul.end_color, (0, 0, 0, 255));
    assert!(azul.smooth);
    assert_eq!(azul.peaks.len(), 2);
    assert_eq!(azul.peaks[0].bgra, (220, 120, 30, 255));
    assert_eq!(azul.peaks[0].at, 5033164);
    assert_eq!(azul.peaks[1].bgra, (255, 230, 220, 255));
    assert_eq!(azul.peaks[1].at, 11744051);
    let svarog = Gradient::svarog();
    assert_eq!(svarog.peaks.len(), 4);
    assert_eq!(svarog.end_color, (255, 255, 255, 255));
    let emperor = Gradient::emperor();
    assert_eq!(emperor.peaks.len(), 4);
    assert_eq!(emperor.peaks[1].bgra, (160, 30, 80, 255));
    let gaia = Gradient::gaia();
    assert_eq!(gaia.peaks.len(), 4);
    assert_eq!(gaia.peaks[0].at, 1677721);
    assert_eq!(gaia.peaks[3].at, 15099494);
}

#[test]
fn gradient_clone_keeps_all_stops() {
    let g = Gradient::emperor();
    let c = g.clone();
    assert_eq!(c.start_color, g.start_color);
    assert_eq!(c.end_color, g.end_color);
    assert_eq!(c.smooth, g.smooth);
    assert_eq!(c.peaks.len(), g.peaks.len());
    for (a, b) in c.peaks.iter().zip(g.peaks.iter()) {
        assert_eq!(a.bgra, b.bgra);
        assert_eq!(a.at, b.at);
    }
}

#[test]
fn enum_labels_match_their_variants() {
    assert_eq!(IterationStyle::Julia.label(), "Julia style");
    assert_eq!(IterationStyle::Mandelbrot.label(), "Mandelbrot style");
    assert_eq!(IteratorKind::Square.label(), "z ^ 2");
    assert_eq!(IteratorKind::Cube.label(), "z ^ 3");
    assert_eq!(IteratorKind::Inverse.label(), "z ^ -2");
    assert_eq!(IteratorKind::Ship.label(), "(|a| + i|b|) ^ 2");
}
