//! The fractal evaluation engine: mapping pixels to complex points,
//! iterating a chosen complex map until divergence or a step bound, and
//! computing the whole pixel grid.
//!
//! Complex numbers are pairs of fixed-point reals (see [`crate::fp`]).

use vstd::prelude::*;
use rayon::iter::IntoParallelIterator;
use rayon::iter::ParallelIterator;
use crate::definitions::{Field, FracArgs, FracPoint, IterationStyle, IteratorKind, RawFrac};
use crate::fp::{
    fp_abs, fp_abs_s, fp_add, fp_add_s, fp_div, fp_div_s, fp_max, fp_max_s, fp_mul, fp_mul_s,
    fp_sub, fp_sub_s, narrow_div, sat64, tdiv,
};

verus! {

/// The squared magnitude of a fixed-point complex number.
pub open spec fn mag2_s(re: int, im: int) -> int {
    fp_add_s(fp_mul_s(re, re), fp_mul_s(im, im))
}

/// One application of the chosen complex map `z' = f(z, c)`.
pub open spec fn step_s(kind: IteratorKind, re: int, im: int, c_re: int, c_im: int) -> (int, int) {
    match kind {
        IteratorKind::Square => square_step_s(re, im, c_re, c_im),
        IteratorKind::Cube => {
            let re3 = fp_mul_s(fp_mul_s(re, re), re);
            let re_im2 = fp_mul_s(fp_mul_s(re, im), im);
            let re2_im = fp_mul_s(fp_mul_s(re, re), im);
            let im3 = fp_mul_s(fp_mul_s(im, im), im);
            (
                fp_add_s(fp_sub_s(re3, fp_add_s(fp_add_s(re_im2, re_im2), re_im2)), c_re),
                fp_add_s(fp_sub_s(fp_add_s(fp_add_s(re2_im, re2_im), re2_im), im3), c_im),
            )
        },
        IteratorKind::Inverse => {
            let size = fp_max_s(mag2_s(re, im), 1);
            square_step_s(fp_div_s(re, size), fp_div_s(im, size), c_re, c_im)
        },
        IteratorKind::Ship => square_step_s(fp_abs_s(re), fp_abs_s(im), c_re, c_im),
    }
}

/// The square map `z' = z^2 + c` on fixed-point components.
pub open spec fn square_step_s(re: int, im: int, c_re: int, c_im: int) -> (int, int) {
    let m = fp_mul_s(re, im);
    (fp_add_s(fp_sub_s(fp_mul_s(re, re), fp_mul_s(im, im)), c_re), fp_add_s(fp_add_s(m, m), c_im))
}

/// Escape-time iteration: apply `step_s` while fewer than `fuel` steps were
/// taken and the squared magnitude stays below `bound`; return the number of
/// steps taken and the final point.
pub open spec fn iterate_s(
    kind: IteratorKind,
    re: int,
    im: int,
    c_re: int,
    c_im: int,
    bound: int,
    fuel: nat,
) -> (nat, int, int)
    decreases fuel,
{
    if fuel == 0 || mag2_s(re, im) >= bound {
        (0nat, re, im)
    } else {
        let (n_re, n_im) = step_s(kind, re, im, c_re, c_im);
        let (s, f_re, f_im) = iterate_s(kind, n_re, n_im, c_re, c_im, bound, (fuel - 1) as nat);
        ((s + 1) as nat, f_re, f_im)
    }
}

/// The squared magnitude `|z|^2` of a fixed-point complex number.
pub fn mag2(re: i64, im: i64) -> (r: i64)
    ensures
        r == mag2_s(re as int, im as int),
{
    fp_add(fp_mul(re, re), fp_mul(im, im))
}

/// Iteration function `f(z, c) = z^2 + c`.
pub fn square_iterator(re: i64, im: i64, c_re: i64, c_im: i64) -> (r: (i64, i64))
    ensures
        (r.0 as int, r.1 as int) == square_step_s(re as int, im as int, c_re as int, c_im as int),
{
    let new_re = fp_add(fp_sub(fp_mul(re, re), fp_mul(im, im)), c_re);
    let m = fp_mul(re, im);
    let new_im = fp_add(fp_add(m, m), c_im);
    (new_re, new_im)
}

/// Iteration function `f(z, c) = z^3 + c`.
pub fn cube_iterator(re: i64, im: i64, c_re: i64, c_im: i64) -> (r: (i64, i64))
    ensures
        (r.0 as int, r.1 as int) == step_s(
            IteratorKind::Cube,
            re as int,
            im as int,
            c_re as int,
            c_im as int,
        ),
{
    let re3 = fp_mul(fp_mul(re, re), re);
    let re_im2 = fp_mul(fp_mul(re, im), im);
    let re2_im = fp_mul(fp_mul(re, re), im);
    let im3 = fp_mul(fp_mul(im, im), im);
    let new_re = fp_add(fp_sub(re3, fp_add(fp_add(re_im2, re_im2), re_im2)), c_re);
    let new_im = fp_add(fp_sub(fp_add(fp_add(re2_im, re2_im), re2_im), im3), c_im);
    (new_re, new_im)
}

/// Iteration function `f(z, c) = z^-2 + c`: `z` is first normalized by its
/// squared magnitude, clamped away from zero.
pub fn inverse_iterator(re: i64, im: i64, c_re: i64, c_im: i64) -> (r: (i64, i64))
    ensures
        (r.0 as int, r.1 as int) == step_s(
            IteratorKind::Inverse,
            re as int,
            im as int,
            c_re as int,
            c_im as int,
        ),
{
    let size = fp_max(mag2(re, im), 1);
    square_iterator(fp_div(re, size), fp_div(im, size), c_re, c_im)
}

/// Iteration function for the Burning Ship fractal:
/// `f((re, im), c) = (|re|, |im|)^2 + c`.
pub fn ship_iterator(re: i64, im: i64, c_re: i64, c_im: i64) -> (r: (i64, i64))
    ensures
        (r.0 as int, r.1 as int) == step_s(
            IteratorKind::Ship,
            re as int,
            im as int,
            c_re as int,
            c_im as int,
        ),
{
    square_iterator(fp_abs(re), fp_abs(im), c_re, c_im)
}

/// One application of the map selected by `kind`.
pub fn apply_iterator(kind: IteratorKind, re: i64, im: i64, c_re: i64, c_im: i64) -> (r: (i64, i64))
    ensures
        (r.0 as int, r.1 as int) == step_s(kind, re as int, im as int, c_re as int, c_im as int),
{
    match kind {
        IteratorKind::Square => square_iterator(re, im, c_re, c_im),
        IteratorKind::Cube => cube_iterator(re, im, c_re, c_im),
        IteratorKind::Inverse => inverse_iterator(re, im, c_re, c_im),
        IteratorKind::Ship => ship_iterator(re, im, c_re, c_im),
    }
}

/// Iterates `z = f(z, c)` from the starting point `z = (z_re, z_im)` until a
/// termination condition is met: `max_steps` steps taken, or the squared
/// absolute value of `z` reaching `iter_bound`.
pub fn iterate_point(
    z_re: i64,
    z_im: i64,
    c_re: i64,
    c_im: i64,
    max_steps: usize,
    iter_bound: i64,
    kind: IteratorKind,
) -> (r: FracPoint)
    ensures
        ({
            let (s, f_re, f_im) = iterate_s(
                kind,
                z_re as int,
                z_im as int,
                c_re as int,
                c_im as int,
                iter_bound as int,
                max_steps as nat,
            );
            r.0 == s && r.1 == f_re && r.2 == f_im
        }),
        r.0 <= max_steps,
{
    let mut step: usize = 0;
    let mut re = z_re;
    let mut im = z_im;
    while step < max_steps && mag2(re, im) < iter_bound
        invariant
            step <= max_steps,
            iterate_s(
                kind,
                z_re as int,
                z_im as int,
                c_re as int,
                c_im as int,
                iter_bound as int,
                max_steps as nat,
            ) == {
                let (s, f_re, f_im) = iterate_s(
                    kind,
                    re as int,
                    im as int,
                    c_re as int,
                    c_im as int,
                    iter_bound as int,
                    (max_steps - step) as nat,
                );
                ((s + step) as nat, f_re, f_im)
            },
        decreases max_steps - step,
    {
        let (new_re, new_im) = apply_iterator(kind, re, im, c_re, c_im);
        proof {
            let fuel = (max_steps - step) as nat;
            assert(iterate_s(
                kind,
                re as int,
                im as int,
                c_re as int,
                c_im as int,
                iter_bound as int,
                fuel,
            ) == {
                let (s, f_re, f_im) = iterate_s(
                    kind,
                    new_re as int,
                    new_im as int,
                    c_re as int,
                    c_im as int,
                    iter_bound as int,
                    (fuel - 1) as nat,
                );
                ((s + 1) as nat, f_re, f_im)
            });
        }
        re = new_re;
        im = new_im;
        step = step + 1;
    }
    (step, re, im)
}

/// The affine map from a pixel index to one fixed-point coordinate:
/// `center - radius + 2 * radius * idx / pixel_size`, saturated at the
/// fixed-point range.
pub open spec fn plane_coord_s(center: int, radius: int, idx: int, pixel_size: int) -> int
    recommends
        pixel_size >= 1,
{
    fp_add_s(fp_sub_s(center, radius), sat64(tdiv(2 * radius * idx, pixel_size)))
}

/// Assuming `i` and `j` are indices within `field.pixel_size`, returns the
/// fixed-point complex number that the pixel `(i, j)` represents in `field`.
/// Out-of-range indices yield an extrapolated, still-valid point.
pub fn point_to_complex(field: &Field, i: usize, j: usize) -> (r: (i64, i64))
    requires
        field.wf(),
    ensures
        r.0 == plane_coord_s(
            field.center_re as int,
            field.radius as int,
            i as int,
            field.pixel_size as int,
        ),
        r.1 == plane_coord_s(
            field.center_im as int,
            field.radius as int,
            j as int,
            field.pixel_size as int,
        ),
{
    let size: i128 = 2 * (field.radius as i128);
    proof {
        lemma_plane_offset_in_range(field.radius as int, i as int);
        lemma_plane_offset_in_range(field.radius as int, j as int);
    }
    let x_off = narrow_div(size * (i as i128), field.pixel_size as i128);
    let re = fp_add(fp_sub(field.center_re, field.radius), x_off);
    let y_off = narrow_div(size * (j as i128), field.pixel_size as i128);
    let im = fp_add(fp_sub(field.center_im, field.radius), y_off);
    (re, im)
}

/// The numerator of the pixel-to-coordinate map stays well inside the wide
/// intermediate range for any valid radius and any index.
proof fn lemma_plane_offset_in_range(radius: int, idx: int)
    requires
        1 <= radius <= 0x100_0000_0000,
        0 <= idx <= 0xFFFF_FFFF_FFFF_FFFF,
    ensures
        0 <= 2 * radius * idx < 0x4000_0000_0000_0000_0000_0000_0000_0000,
{
    assert(2 * radius * idx <= 2 * 0x100_0000_0000 * 0xFFFF_FFFF_FFFF_FFFF) by (nonlinear_arith)
        requires
            1 <= radius <= 0x100_0000_0000,
            0 <= idx <= 0xFFFF_FFFF_FFFF_FFFF,
    ;
    assert(2 * radius * idx >= 0) by (nonlinear_arith)
        requires
            radius >= 0,
            idx >= 0,
    ;
}

/// The escape sample of one starting point under the iteration style and
/// iterator kind selected by `args`: Julia style iterates from the point
/// itself with the constant from `args`; Mandelbrot style iterates from the
/// origin with the point as the constant.
pub open spec fn point_result_s(args: FracArgs, z_re: int, z_im: int) -> (nat, int, int) {
    match args.iteration_style {
        IterationStyle::Julia => iterate_s(
            args.iterator_kind,
            z_re,
            z_im,
            args.c_re as int,
            args.c_im as int,
            args.iter_bound as int,
            args.steps as nat,
        ),
        IterationStyle::Mandelbrot => iterate_s(
            args.iterator_kind,
            0,
            0,
            z_re,
            z_im,
            args.iter_bound as int,
            args.steps as nat,
        ),
    }
}

/// Calculates a Julia-style iteration: the starting point is `z` and the
/// constant is taken from `args`.
pub fn julia_iterate(z: (i64, i64), args: &FracArgs) -> (r: FracPoint)
    ensures
        ({
            let (s, f_re, f_im) = iterate_s(
                args.iterator_kind,
                z.0 as int,
                z.1 as int,
                args.c_re as int,
                args.c_im as int,
                args.iter_bound as int,
                args.steps as nat,
            );
            r.0 == s && r.1 == f_re && r.2 == f_im
        }),
        r.0 <= args.steps,
{
    iterate_point(z.0, z.1, args.c_re, args.c_im, args.steps, args.iter_bound, args.iterator_kind)
}

/// Calculates a Mandelbrot-style iteration: the starting point is the origin
/// and the constant is `z`.
pub fn mandelbrot_iterate(z: (i64, i64), args: &FracArgs) -> (r: FracPoint)
    ensures
        ({
            let (s, f_re, f_im) = iterate_s(
                args.iterator_kind,
                0,
                0,
                z.0 as int,
                z.1 as int,
                args.iter_bound as int,
                args.steps as nat,
            );
            r.0 == s && r.1 == f_re && r.2 == f_im
        }),
        r.0 <= args.steps,
{
    iterate_point(0, 0, z.0, z.1, args.steps, args.iter_bound, args.iterator_kind)
}

/// The escape sample of the pixel `(col, row)`, as a stored `FracPoint`.
pub open spec fn point_at_s(args: FracArgs, col: int, row: int) -> FracPoint {
    let z_re = plane_coord_s(
        args.field.center_re as int,
        args.field.radius as int,
        col,
        args.field.pixel_size as int,
    );
    let z_im = plane_coord_s(
        args.field.center_im as int,
        args.field.radius as int,
        row,
        args.field.pixel_size as int,
    );
    let (s, f_re, f_im) = point_result_s(args, z_re, z_im);
    (s as usize, f_re as i64, f_im as i64)
}

/// One row of the raw fractal, left to right.
pub open spec fn frac_row_s(args: FracArgs, row: int) -> Seq<FracPoint> {
    Seq::new(args.field.pixel_size as nat, |col: int| point_at_s(args, col, row))
}

/// The whole raw fractal, row-major.
pub open spec fn frac_of(args: FracArgs) -> Seq<FracPoint> {
    Seq::new(
        (args.field.pixel_size * args.field.pixel_size) as nat,
        |k: int| point_at_s(args, k % (args.field.pixel_size as int), k / (
        args.field.pixel_size as int)),
    )
}

/// Computes one matrix row of fractal points from `args`. The row number
/// selects the imaginary coordinate that the whole row shares.
pub fn compute_row(args: &FracArgs, row_num: usize) -> (r: Vec<FracPoint>)
    requires
        args.field.wf(),
    ensures
        r@ == frac_row_s(*args, row_num as int),
{
    let px = args.field.pixel_size;
    let mut row: Vec<FracPoint> = Vec::with_capacity(px);
    let mut col: usize = 0;
    while col < px
        invariant
            args.field.wf(),
            px == args.field.pixel_size,
            col <= px,
            row@.len() == col,
            forall|j: int| 0 <= j < col ==> row@[j] == point_at_s(*args, j, row_num as int),
        decreases px - col,
    {
        let z = point_to_complex(&args.field, col, row_num);
        let p = match args.iteration_style {
            IterationStyle::Julia => julia_iterate(z, args),
            IterationStyle::Mandelbrot => mandelbrot_iterate(z, args),
        };
        row.push(p);
        col = col + 1;
    }
    proof {
        assert(row@ =~= frac_row_s(*args, row_num as int));
    }
    row
}

/// Computes all matrix rows concurrently, one task per row.
///
/// Relies on rayon's `into_par_iter`/`map`/`collect` over a range: the
/// collected vector has one entry per index, in index order, each holding
/// the closure's result for that index; the closure itself only calls the
/// verified `compute_row`.
#[verifier::external_body]
fn compute_rows_parallel(args: &FracArgs) -> (r: Vec<Vec<FracPoint>>)
    requires
        args.field.wf(),
    ensures
        r@.len() == args.field.pixel_size,
        forall|i: int| 0 <= i < r@.len() ==> r@[i]@ == frac_row_s(*args, i),
{
    (0..args.field.pixel_size).into_par_iter().map(|row_num| compute_row(args, row_num)).collect()
}

/// Renders raw fractal data as specified by fractal arguments `args`. The
/// rows are calculated in parallel; the result is the row-major matrix of
/// escape samples, fully determined by `args`.
pub fn compute_fractal(args: FracArgs) -> (r: RawFrac)
    requires
        args.field.wf(),
    ensures
        r@ == frac_of(args),
        r@.len() == args.field.pixel_size * args.field.pixel_size,
{
    let px = args.field.pixel_size;
    let rows = compute_rows_parallel(&args);
    proof {
        assert(px * px <= 16384 * 16384) by (nonlinear_arith)
            requires
                0 <= px <= 16384,
        ;
    }
    let mut matrix: Vec<FracPoint> = Vec::with_capacity(px * px);
    let mut row_num: usize = 0;
    while row_num < px
        invariant
            args.field.wf(),
            px == args.field.pixel_size,
            rows@.len() == px,
            forall|i: int| 0 <= i < px ==> rows@[i]@ == frac_row_s(args, i),
            row_num <= px,
            matrix@.len() == row_num * px,
            forall|k: int|
                0 <= k < matrix@.len() ==> matrix@[k] == point_at_s(args, k % (px as int), k / (
                px as int)),
        decreases px - row_num,
    {
        proof {
            assert(row_num * px + px == (row_num + 1) * px) by (nonlinear_arith);
            assert(row_num * px <= px * px) by (nonlinear_arith)
                requires
                    0 <= row_num < px,
            ;
        }
        let row = &rows[row_num];
        let mut col: usize = 0;
        while col < px
            invariant
                args.field.wf(),
                px == args.field.pixel_size,
                row_num < px,
                col <= px,
                row@ == frac_row_s(args, row_num as int),
                matrix@.len() == row_num * px + col,
                matrix@.len() <= px * px,
                forall|k: int|
                    0 <= k < matrix@.len() ==> matrix@[k] == point_at_s(args, k % (px as int), k
                        / (px as int)),
            decreases px - col,
        {
            let p = row[col];
            proof {
                assert(row_num * px + px <= px * px) by (nonlinear_arith)
                    requires
                        0 <= row_num < px,
                ;
                let k = matrix@.len() as int;
                vstd::arithmetic::div_mod::lemma_fundamental_div_mod_converse(
                    k,
                    px as int,
                    row_num as int,
                    col as int,
                );
                assert(p == point_at_s(args, col as int, row_num as int));
            }
            matrix.push(p);
            col = col + 1;
        }
        row_num = row_num + 1;
    }
    proof {
        assert(matrix@ =~= frac_of(args));
    }
    matrix
}

/// Determinism of the fractal engine: any two raw fractals computed from the
/// same arguments are equal, element for element.
pub proof fn lemma_compute_fractal_deterministic(
    args: FracArgs,
    r1: Seq<FracPoint>,
    r2: Seq<FracPoint>,
)
    requires
        r1 == frac_of(args),
        r2 == frac_of(args),
    ensures
        r1 == r2,
{
}

/// The corner pixels of a valid viewport map to the corners of its square:
/// index zero gives `center - radius` and index `pixel_size` gives
/// `center + radius`, on both axes, exactly.
pub proof fn lemma_plane_corners(field: Field)
    requires
        field.wf(),
    ensures
        plane_coord_s(field.center_re as int, field.radius as int, 0, field.pixel_size as int)
            == field.center_re - field.radius,
        plane_coord_s(field.center_im as int, field.radius as int, 0, field.pixel_size as int)
            == field.center_im - field.radius,
        plane_coord_s(
            field.center_re as int,
            field.radius as int,
            field.pixel_size as int,
            field.pixel_size as int,
        ) == field.center_re + field.radius,
        plane_coord_s(
            field.center_im as int,
            field.radius as int,
            field.pixel_size as int,
            field.pixel_size as int,
        ) == field.center_im + field.radius,
{
    let px = field.pixel_size as int;
    let r = field.radius as int;
    assert(2 * r * 0 == 0);
    assert(tdiv(0, px) == 0);
    vstd::arithmetic::div_mod::lemma_div_multiples_vanish(2 * r, px);
    assert(2 * r * px == px * (2 * r)) by (nonlinear_arith);
    assert(tdiv(2 * r * px, px) == 2 * r);
}

/// With no steps allowed, iteration returns the starting point unchanged and
/// a step count of zero, for every iterator kind.
pub proof fn lemma_iterate_zero_steps(
    kind: IteratorKind,
    z_re: int,
    z_im: int,
    c_re: int,
    c_im: int,
    bound: int,
)
    ensures
        iterate_s(kind, z_re, z_im, c_re, c_im, bound, 0) == (0nat, z_re, z_im),
{
}

/// Under the square map with constant zero, the origin is a fixed point with
/// squared magnitude zero, so it never escapes: iteration always uses up all
/// its steps and ends back at the origin.
pub proof fn lemma_square_origin_never_escapes(bound: int, fuel: nat)
    requires
        bound >= 1,
    ensures
        iterate_s(IteratorKind::Square, 0, 0, 0, 0, bound, fuel) == (fuel, 0int, 0int),
    decreases fuel,
{
    assert(fp_mul_s(0, 0) == 0);
    assert(mag2_s(0, 0) == 0);
    assert(step_s(IteratorKind::Square, 0, 0, 0, 0) == (0int, 0int));
    if fuel > 0 {
        lemma_square_origin_never_escapes(bound, (fuel - 1) as nat);
    }
}

} // verus!
