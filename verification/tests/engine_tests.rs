//! Tests of the fixed-point layer and the fractal evaluation engine.

use fractalisator::definitions::{Field, FracArgs, IterationStyle, IteratorKind};
use fractalisator::draw::{
    compute_fractal, iterate_point, julia_iterate, mandelbrot_iterate, point_to_complex,
};
use fractalisator::fp::{fp_add, fp_div, fp_log2, fp_mul, fp_ratio, fp_sub, FP_ONE};

#[test]
fn fp_arithmetic_basics() {
    // 2.0 * 3.0 == 6.0 and 1.0 / 2.0 == 0.5 in fixed point
    assert_eq!(fp_mul(2 * FP_ONE, 3 * FP_ONE), 6 * FP_ONE);
    assert_eq!(fp_div(FP_ONE, 2 * FP_ONE), FP_ONE / 2);
    assert_eq!(fp_add(FP_ONE, FP_ONE), 2 * FP_ONE);
    assert_eq!(fp_sub(FP_ONE, 3 * FP_ONE), -2 * FP_ONE);
    assert_eq!(fp_ratio(3, 10), 5033164);
}

#[test]
fn fp_arithmetic_saturates() {
    assert_eq!(fp_add(i64::MAX, 1), i64::MAX);
    assert_eq!(fp_sub(i64::MIN, 1), i64::MIN);
    assert_eq!(fp_mul(i64::MAX, 2 * FP_ONE), i64::MAX);
    assert_eq!(fp_mul(i64::MIN, 2 * FP_ONE), i64::MIN);
}

#[test]
fn fp_log2_exact_on_powers_of_two() {
    assert_eq!(fp_log2(FP_ONE), 0);
    assert_eq!(fp_log2(2 * FP_ONE), FP_ONE);
    assert_eq!(fp_log2(8 * FP_ONE), 3 * FP_ONE);
    // 2^-24 is the smallest positive fixed-point number: log2 is -24
    assert_eq!(fp_log2(1), -24 * FP_ONE);
}

#[test]
fn fp_log2_fraction_digits() {
    // log2(3) = 1.58496...; with 24 fraction digits the truncation error is
    // below 2^-24
    let l = fp_log2(3 * FP_ONE);
    let expected = 1.5849625007f64 * (FP_ONE as f64);
    assert!((l as f64 - expected).abs() < 2.0);
    // log2 is monotone on a few spot values
    assert!(fp_log2(3 * FP_ONE) < fp_log2(4 * FP_ONE));
    assert!(fp_log2(4 * FP_ONE) < fp_log2(5 * FP_ONE));
}

#[test]
fn plane_corners_map_to_viewport_corners() {
    let field = Field { pixel_size: 1000, center_re: FP_ONE, center_im: -FP_ONE, radius: 2 * FP_ONE };
    let (re, im) = point_to_complex(&field, 0, 0);
    assert_eq!(re, field.center_re - field.radius);
    assert_eq!(im, field.center_im - field.radius);
    let (re, im) = point_to_complex(&field, 1000, 1000);
    assert_eq!(re, field.center_re + field.radius);
    assert_eq!(im, field.center_im + field.radius);
}

#[test]
fn plane_center_maps_to_center() {
    let field = Field { pixel_size: 4, center_re: 0, center_im: 0, radius: 2 * FP_ONE };
    let (re, im) = point_to_complex(&field, 2, 2);
    assert_eq!(re, 0);
    assert_eq!(im, 0);
}

#[test]
fn iterate_zero_steps_returns_start_unchanged() {
    let kinds = [
        IteratorKind::Square,
        IteratorKind::Cube,
        IteratorKind::Inverse,
        IteratorKind::Ship,
    ];
    for kind in kinds {
        let (steps, re, im) = iterate_point(3 * FP_ONE, -FP_ONE, 7, -7, 0, 10 * FP_ONE, kind);
        assert_eq!(steps, 0);
        assert_eq!(re, 3 * FP_ONE);
        assert_eq!(im, -FP_ONE);
    }
}

#[test]
fn square_origin_never_escapes() {
    // Mandelbrot style at c = 0: z stays at the origin for any bound
    let (steps, re, im) = iterate_point(0, 0, 0, 0, 50, 4 * FP_ONE, IteratorKind::Square);
    assert_eq!(steps, 50);
    assert_eq!(re, 0);
    assert_eq!(im, 0);
    let (steps, _, _) = iterate_point(0, 0, 0, 0, 256, FP_ONE, IteratorKind::Square);
    assert_eq!(steps, 256);
}

#[test]
fn iterate_escapes_immediately_outside_bound() {
    // |z0|^2 = 8 >= 4: no step is taken
    let (steps, re, im) =
        iterate_point(-2 * FP_ONE, -2 * FP_ONE, 0, 0, 50, 4 * FP_ONE, IteratorKind::Square);
    assert_eq!(steps, 0);
    assert_eq!(re, -2 * FP_ONE);
    assert_eq!(im, -2 * FP_ONE);
}

#[test]
fn square_iteration_concrete_step() {
    // z = 1 + i, c = 0: z^2 = 2i, |z|^2 = 2 < 4 so one step happens,
    // then |2i|^2 = 4 >= 4 stops the iteration
    let (steps, re, im) = iterate_point(FP_ONE, FP_ONE, 0, 0, 50, 4 * FP_ONE, IteratorKind::Square);
    assert_eq!(steps, 1);
    assert_eq!(re, 0);
    assert_eq!(im, 2 * FP_ONE);
}

#[test]
fn compute_fractal_is_deterministic() {
    let args = FracArgs {
        field: Field { pixel_size: 8, center_re: 0, center_im: 0, radius: 2 * FP_ONE },
        c_re: -FP_ONE / 2,
        c_im: FP_ONE / 4,
        steps: 30,
        iter_bound: 10 * FP_ONE,
        iteration_style: IterationStyle::Julia,
        iterator_kind: IteratorKind::Square,
    };
    let a = compute_fractal(args);
    let b = compute_fractal(args);
    assert_eq!(a.len(), 64);
    assert_eq!(a, b);
}

#[test]
fn compute_fractal_all_styles_and_kinds() {
    let kinds = [
        IteratorKind::Square,
        IteratorKind::Cube,
        IteratorKind::Inverse,
        IteratorKind::Ship,
    ];
    let styles = [IterationStyle::Julia, IterationStyle::Mandelbrot];
    for kind in kinds {
        for style in styles {
            let args = FracArgs {
                field: Field { pixel_size: 4, center_re: 0, center_im: 0, radius: 2 * FP_ONE },
                c_re: FP_ONE / 8,
                c_im: -FP_ONE / 8,
                steps: 12,
                iter_bound: 10 * FP_ONE,
                iteration_style: style,
                iterator_kind: kind,
            };
            let frac = compute_fractal(args);
            assert_eq!(frac.len(), 16);
            for &(steps, _, _) in &frac {
                assert!(steps <= 12);
            }
        }
    }
}

#[test]
fn mandelbrot_corner_escapes_fast() {
    // the end-to-end scenario's raw half: pixel (0, 0) of the standard
    // viewport maps to -2 - 2i, which escapes immediately
    let args = FracArgs {
        field: Field { pixel_size: 4, center_re: 0, center_im: 0, radius: 2 * FP_ONE },
        c_re: 0,
        c_im: 0,
        steps: 50,
        iter_bound: 4 * FP_ONE,
        iteration_style: IterationStyle::Mandelbrot,
        iterator_kind: IteratorKind::Square,
    };
    let frac = compute_fractal(args);
    assert_eq!(frac.len(), 16);
    // Mandelbrot starts at the origin, so the first step lands on c = -2 - 2i
    // and |c|^2 = 8 >= 4 ends the iteration after one step
    assert_eq!(frac[0], (1, -2 * FP_ONE, -2 * FP_ONE));
}

#[test]
fn default_args_are_julia_square() {
    let args = FracArgs::default();
    assert_eq!(args.field.pixel_size, 1000);
    assert_eq!(args.field.center_re, 0);
    assert_eq!(args.field.center_im, 0);
    assert_eq!(args.field.radius, 2 * FP_ONE);
    assert_eq!(args.c_re, 0);
    assert_eq!(args.c_im, 0);
    assert_eq!(args.steps, 256);
    assert_eq!(args.iter_bound, 10 * FP_ONE);
    assert_eq!(args.iteration_style, IterationStyle::Julia);
    assert_eq!(args.iterator_kind, IteratorKind::Square);
}

#[test]
fn style_wrappers_pick_their_operands() {
    let args = FracArgs {
        field: Field { pixel_size: 4, center_re: 0, center_im: 0, radius: 2 * FP_ONE },
        c_re: 0,
        c_im: 0,
        steps: 50,
        iter_bound: 4 * FP_ONE,
        iteration_style: IterationStyle::Mandelbrot,
        iterator_kind: IteratorKind::Square,
    };
    // Julia iterates from the point with the constant from the arguments
    let j = julia_iterate((-2 * FP_ONE, -2 * FP_ONE), &args);
    assert_eq!(j, (0, -2 * FP_ONE, -2 * FP_ONE));
    // Mandelbrot iterates from the origin with the point as the constant
    let m = mandelbrot_iterate((-2 * FP_ONE, -2 * FP_ONE), &args);
    assert_eq!(m, (1, -2 * FP_ONE, -2 * FP_ONE));
}
