use vstd::prelude::*;
use crate::raster::{RasterU8, RasterI16, in_grid};
use crate::utils::fast_gradients::{
    compute_gradients, horizontal_scharr_kernel, vertical_scharr_kernel, conv_at, interior,
};
use crate::fbits::{
    add_bits, sub_bits, mul_bits, div_bits, gt_bits, ge_bits, f32_of_u32, f32_of_i32,
    floor_bits, f_add, f_sub, f_mul, f_div, f_gt, f_ge, f_from_u32, f_from_i32, f_floor_i32,
    f_abs, F32_ZERO_BITS, F32_ONE_BITS, F32_TWO_BITS, F32_32_BITS,
};

verus! {

/// The bit pattern of single-precision 4.0.
pub const F32_FOUR_BITS: u32 = 0x4080_0000;

/// The convergence threshold: single-precision 0.001.
pub const LK_EPSILON_BITS: u32 = 0x3A83_126F;

/// The near-singular cutoff of the solver: single-precision 0.000001.
pub const LK_SOLVE_TOL_BITS: u32 = 0x3586_37BD;

/// The horizontal Scharr weights as a value sequence.
pub open spec fn scharr_h_vals() -> Seq<i32> {
    seq![-3i32, 0i32, 3i32, -10i32, 0i32, 10i32, -3i32, 0i32, 3i32]
}

/// The vertical Scharr weights as a value sequence.
pub open spec fn scharr_v_vals() -> Seq<i32> {
    seq![-3i32, -10i32, -3i32, 0i32, 0i32, 0i32, 3i32, 10i32, 3i32]
}

/// The pair (gx, gy) is the Scharr gradient field of `img`: every
/// strictly interior sample is the kernel convolution, the border is
/// zero, and the dimensions agree.
pub open spec fn grads_match(img: RasterU8, gx: RasterI16, gy: RasterI16) -> bool {
    &&& gx.wf()
    &&& gy.wf()
    &&& gx.width == img.width && gx.height == img.height
    &&& gy.width == img.width && gy.height == img.height
    &&& forall|x: int, y: int|
        interior(x, y, img.width as int, img.height as int)
            ==> #[trigger] gx.px(x, y) == conv_at(img, scharr_h_vals(), x, y)
    &&& forall|x: int, y: int|
        interior(x, y, img.width as int, img.height as int)
            ==> #[trigger] gy.px(x, y) == conv_at(img, scharr_v_vals(), x, y)
    &&& forall|x: int, y: int|
        in_grid(x, y, img.width as int, img.height as int)
            && !interior(x, y, img.width as int, img.height as int)
            ==> #[trigger] gx.px(x, y) == 0 && #[trigger] gy.px(x, y) == 0
}

/// The scale of a pyramid level: two to the level's power, built by
/// repeated doubling.
pub open spec fn scale_of(level: int) -> u32
    decreases level,
{
    if level <= 0 {
        F32_ONE_BITS
    } else {
        mul_bits(scale_of(level - 1), F32_TWO_BITS)
    }
}

/// Whether the window of the given radius around (x, y) lies entirely
/// inside the raster.
pub open spec fn in_bounds_spec(img: RasterU8, x: u32, y: u32, radius: u32) -> bool {
    &&& ge_bits(x, f32_of_u32(radius))
    &&& gt_bits(sub_bits(f32_of_u32(img.width), f32_of_u32(radius)), x)
    &&& ge_bits(y, f32_of_u32(radius))
    &&& gt_bits(sub_bits(f32_of_u32(img.height), f32_of_u32(radius)), y)
}

/// Bilinear interpolation of an intensity raster at a fractional
/// position: the four enclosing samples (0 outside the raster),
/// weighted by the fractional offsets and accumulated from 0.0.
pub open spec fn lerp_u8(img: RasterU8, xb: u32, yb: u32) -> u32 {
    let x0 = floor_bits(xb);
    let y0 = floor_bits(yb);
    let dx = sub_bits(xb, f32_of_i32(x0));
    let dy = sub_bits(yb, f32_of_i32(y0));
    let wx0 = sub_bits(F32_ONE_BITS, dx);
    let wy0 = sub_bits(F32_ONE_BITS, dy);
    let p00 = f32_of_u32(img.px_or_zero(x0 as int, y0 as int) as u32);
    let p01 = f32_of_u32(img.px_or_zero(x0 as int, y0 as int + 1) as u32);
    let p10 = f32_of_u32(img.px_or_zero(x0 as int + 1, y0 as int) as u32);
    let p11 = f32_of_u32(img.px_or_zero(x0 as int + 1, y0 as int + 1) as u32);
    add_bits(
        add_bits(
            add_bits(
                add_bits(F32_ZERO_BITS, mul_bits(mul_bits(p00, wx0), wy0)),
                mul_bits(mul_bits(p01, wx0), dy),
            ),
            mul_bits(mul_bits(p10, dx), wy0),
        ),
        mul_bits(mul_bits(p11, dx), dy),
    )
}

/// Bilinear interpolation of a signed 16-bit raster at a fractional
/// position.
pub open spec fn lerp_i16(img: RasterI16, xb: u32, yb: u32) -> u32 {
    let x0 = floor_bits(xb);
    let y0 = floor_bits(yb);
    let dx = sub_bits(xb, f32_of_i32(x0));
    let dy = sub_bits(yb, f32_of_i32(y0));
    let wx0 = sub_bits(F32_ONE_BITS, dx);
    let wy0 = sub_bits(F32_ONE_BITS, dy);
    let p00 = f32_of_i32(img.px_or_zero(x0 as int, y0 as int) as i32);
    let p01 = f32_of_i32(img.px_or_zero(x0 as int, y0 as int + 1) as i32);
    let p10 = f32_of_i32(img.px_or_zero(x0 as int + 1, y0 as int) as i32);
    let p11 = f32_of_i32(img.px_or_zero(x0 as int + 1, y0 as int + 1) as i32);
    add_bits(
        add_bits(
            add_bits(
                add_bits(F32_ZERO_BITS, mul_bits(mul_bits(p00, wx0), wy0)),
                mul_bits(mul_bits(p01, wx0), dy),
            ),
            mul_bits(mul_bits(p10, dx), wy0),
        ),
        mul_bits(mul_bits(p11, dx), dy),
    )
}

/// The normal-equation accumulators over the first `k` window samples,
/// scanned row-major over the window: the three entries of the 2x2
/// system matrix and the two entries of its right-hand side.
pub open spec fn win_acc(
    prev: RasterU8,
    curr: RasterU8,
    gx: RasterI16,
    gy: RasterI16,
    x: u32,
    y: u32,
    cx: u32,
    cy: u32,
    radius: int,
    ws: int,
    k: int,
) -> (u32, u32, u32, u32, u32)
    decreases k,
{
    if k <= 0 {
        (F32_ZERO_BITS, F32_ZERO_BITS, F32_ZERO_BITS, F32_ZERO_BITS, F32_ZERO_BITS)
    } else {
        let p = win_acc(prev, curr, gx, gy, x, y, cx, cy, radius, ws, k - 1);
        let i = (k - 1) % ws - radius;
        let j = (k - 1) / ws - radius;
        let fi = f32_of_i32(i as i32);
        let fj = f32_of_i32(j as i32);
        let px_prev = lerp_u8(prev, add_bits(x, fi), add_bits(y, fj));
        let px_curr = lerp_u8(curr, add_bits(cx, fi), add_bits(cy, fj));
        let ix = div_bits(lerp_i16(gx, add_bits(x, fi), add_bits(y, fj)), F32_32_BITS);
        let iy = div_bits(lerp_i16(gy, add_bits(x, fi), add_bits(y, fj)), F32_32_BITS);
        let b = sub_bits(px_prev, px_curr);
        (
            add_bits(p.0, mul_bits(ix, ix)),
            add_bits(p.1, mul_bits(ix, iy)),
            add_bits(p.2, mul_bits(iy, iy)),
            add_bits(p.3, mul_bits(ix, b)),
            add_bits(p.4, mul_bits(iy, b)),
        )
    }
}

/// The closed-form solution of the symmetric 2x2 normal equations,
/// refused when the matrix's smaller eigenvalue falls below the
/// near-singular cutoff (the eigenvalue test squares both sides to
/// avoid a square root).
pub open spec fn solve2(a11: u32, a12: u32, a22: u32, b1: u32, b2: u32) -> Option<(u32, u32)> {
    let tr = add_bits(a11, a22);
    let t2 = mul_bits(F32_TWO_BITS, LK_SOLVE_TOL_BITS);
    let diff = sub_bits(tr, t2);
    let lhs = mul_bits(diff, diff);
    let rhs = add_bits(
        mul_bits(sub_bits(a11, a22), sub_bits(a11, a22)),
        mul_bits(F32_FOUR_BITS, mul_bits(a12, a12)),
    );
    if gt_bits(t2, tr) || gt_bits(rhs, lhs) {
        None
    } else {
        let det = sub_bits(mul_bits(a11, a22), mul_bits(a12, a12));
        Some((
            div_bits(sub_bits(mul_bits(a22, b1), mul_bits(a12, b2)), det),
            div_bits(sub_bits(mul_bits(a11, b2), mul_bits(a12, b1)), det),
        ))
    }
}

/// The displacement after up to `iters` refinement steps at one level:
/// each step accumulates the window system at the predicted position,
/// solves it, adds the correction, and stops early when the window
/// leaves the current frame, the system is near singular, or both
/// correction components fall below the convergence threshold.
pub open spec fn refine_spec(
    prev: RasterU8,
    curr: RasterU8,
    gx: RasterI16,
    gy: RasterI16,
    x: u32,
    y: u32,
    radius: u32,
    ws: int,
    dx: u32,
    dy: u32,
    iters: int,
) -> (u32, u32)
    decreases iters,
{
    if iters <= 0 {
        (dx, dy)
    } else {
        let cx = add_bits(x, dx);
        let cy = add_bits(y, dy);
        if !in_bounds_spec(curr, cx, cy, radius) {
            (dx, dy)
        } else {
            let acc = win_acc(prev, curr, gx, gy, x, y, cx, cy, radius as int, ws, ws * ws);
            match solve2(acc.0, acc.1, acc.2, acc.3, acc.4) {
                Option::None => (dx, dy),
                Option::Some(corr) => {
                    let ndx = add_bits(dx, corr.0);
                    let ndy = add_bits(dy, corr.1);
                    if gt_bits(LK_EPSILON_BITS, corr.0 & 0x7FFF_FFFFu32)
                        && gt_bits(LK_EPSILON_BITS, corr.1 & 0x7FFF_FFFFu32) {
                        (ndx, ndy)
                    } else {
                        refine_spec(prev, curr, gx, gy, x, y, radius, ws, ndx, ndy, iters - 1)
                    }
                },
            }
        }
    }
}

/// The accumulated full-resolution displacement of one point after
/// processing the pyramid from `level` down to the finest level: the
/// point and inherited displacement are projected into each level's
/// frame, refined there if the window fits the previous frame, and the
/// result is scaled back up.
pub open spec fn track_from(
    prev_pyr: Seq<RasterU8>,
    curr_pyr: Seq<RasterU8>,
    gxs: Seq<RasterI16>,
    gys: Seq<RasterI16>,
    px: u32,
    py: u32,
    radius: u32,
    ws: int,
    max_it: int,
    level: int,
    dx: u32,
    dy: u32,
) -> (u32, u32)
    decreases level + 1,
{
    if level < 0 {
        (dx, dy)
    } else {
        let scale = scale_of(level);
        let x = div_bits(px, scale);
        let y = div_bits(py, scale);
        let dxl = div_bits(dx, scale);
        let dyl = div_bits(dy, scale);
        if !in_bounds_spec(prev_pyr[level], x, y, radius) {
            track_from(prev_pyr, curr_pyr, gxs, gys, px, py, radius, ws, max_it, level - 1, dx, dy)
        } else {
            let refined = refine_spec(
                prev_pyr[level], curr_pyr[level], gxs[level], gys[level],
                x, y, radius, ws, dxl, dyl, max_it);
            track_from(
                prev_pyr, curr_pyr, gxs, gys, px, py, radius, ws, max_it, level - 1,
                mul_bits(refined.0, scale), mul_bits(refined.1, scale))
        }
    }
}

/// The tracked position of one point: its seed position plus its
/// final displacement, both as single-precision bits.
pub open spec fn tracked_point(
    prev_pyr: Seq<RasterU8>,
    curr_pyr: Seq<RasterU8>,
    gxs: Seq<RasterI16>,
    gys: Seq<RasterI16>,
    p: (u32, u32),
    radius: u32,
    ws: int,
    max_it: int,
) -> (u32, u32) {
    let d = track_from(
        prev_pyr, curr_pyr, gxs, gys, p.0, p.1, radius, ws, max_it,
        prev_pyr.len() as int - 1, F32_ZERO_BITS, F32_ZERO_BITS);
    (add_bits(p.0, d.0), add_bits(p.1, d.1))
}

/// Whether the window of the given radius around a position lies
/// entirely inside the raster.
fn in_bounds(img: &RasterU8, x: u32, y: u32, radius: u32) -> (r: bool)
    ensures
        r == in_bounds_spec(*img, x, y, radius),
{
    let fr = f_from_u32(radius);
    let fw = f_from_u32(img.width);
    let fh = f_from_u32(img.height);
    f_ge(x, fr) && f_gt(f_sub(fw, fr), x) && f_ge(y, fr) && f_gt(f_sub(fh, fr), y)
}

/// Bilinear interpolation of an intensity raster.
fn interpolate(img: &RasterU8, xb: u32, yb: u32) -> (r: u32)
    requires
        img.wf(),
    ensures
        r == lerp_u8(*img, xb, yb),
{
    let x0: i32 = f_floor_i32(xb);
    let y0: i32 = f_floor_i32(yb);
    let dx = f_sub(xb, f_from_i32(x0));
    let dy = f_sub(yb, f_from_i32(y0));
    let wx0 = f_sub(F32_ONE_BITS, dx);
    let wy0 = f_sub(F32_ONE_BITS, dy);
    let p00 = f_from_u32(img.get_or_zero(x0 as i64, y0 as i64) as u32);
    let p01 = f_from_u32(img.get_or_zero(x0 as i64, y0 as i64 + 1) as u32);
    let p10 = f_from_u32(img.get_or_zero(x0 as i64 + 1, y0 as i64) as u32);
    let p11 = f_from_u32(img.get_or_zero(x0 as i64 + 1, y0 as i64 + 1) as u32);
    let mut sum: u32 = F32_ZERO_BITS;
    sum = f_add(sum, f_mul(f_mul(p00, wx0), wy0));
    sum = f_add(sum, f_mul(f_mul(p01, wx0), dy));
    sum = f_add(sum, f_mul(f_mul(p10, dx), wy0));
    sum = f_add(sum, f_mul(f_mul(p11, dx), dy));
    sum
}

/// Bilinear interpolation of a signed 16-bit raster.
fn interpolate_alt(img: &RasterI16, xb: u32, yb: u32) -> (r: u32)
    requires
        img.wf(),
    ensures
        r == lerp_i16(*img, xb, yb),
{
    let x0: i32 = f_floor_i32(xb);
    let y0: i32 = f_floor_i32(yb);
    let dx = f_sub(xb, f_from_i32(x0));
    let dy = f_sub(yb, f_from_i32(y0));
    let wx0 = f_sub(F32_ONE_BITS, dx);
    let wy0 = f_sub(F32_ONE_BITS, dy);
    let p00 = f_from_i32(img.get_or_zero(x0 as i64, y0 as i64) as i32);
    let p01 = f_from_i32(img.get_or_zero(x0 as i64, y0 as i64 + 1) as i32);
    let p10 = f_from_i32(img.get_or_zero(x0 as i64 + 1, y0 as i64) as i32);
    let p11 = f_from_i32(img.get_or_zero(x0 as i64 + 1, y0 as i64 + 1) as i32);
    let mut sum: u32 = F32_ZERO_BITS;
    sum = f_add(sum, f_mul(f_mul(p00, wx0), wy0));
    sum = f_add(sum, f_mul(f_mul(p01, wx0), dy));
    sum = f_add(sum, f_mul(f_mul(p10, dx), wy0));
    sum = f_add(sum, f_mul(f_mul(p11, dx), dy));
    sum
}

/// The scale of a pyramid level.
fn scale_for(level: usize) -> (r: u32)
    ensures
        r == scale_of(level as int),
{
    let mut s: u32 = F32_ONE_BITS;
    let mut l: usize = 0;
    while l < level
        invariant
            l <= level,
            s == scale_of(l as int),
        decreases level - l,
    {
        s = f_mul(s, F32_TWO_BITS);
        l = l + 1;
    }
    s
}

/// Accumulates the window's normal-equation system.
fn accumulate_window(
    prev: &RasterU8,
    curr: &RasterU8,
    gx: &RasterI16,
    gy: &RasterI16,
    x: u32,
    y: u32,
    cx: u32,
    cy: u32,
    radius: u32,
    ws: usize,
) -> (r: (u32, u32, u32, u32, u32))
    requires
        prev.wf(),
        curr.wf(),
        gx.wf(),
        gy.wf(),
        ws == 2 * radius + 1,
        ws <= 0xFFFF,
    ensures
        r == win_acc(*prev, *curr, *gx, *gy, x, y, cx, cy, radius as int, ws as int,
            ws as int * ws as int),
{
    proof {
        assert(ws as int * ws as int <= 0xFFFE_0001) by (nonlinear_arith)
            requires
                ws as int <= 0xFFFF,
        ;
    }
    let n: usize = ws * ws;
    let mut a11: u32 = F32_ZERO_BITS;
    let mut a12: u32 = F32_ZERO_BITS;
    let mut a22: u32 = F32_ZERO_BITS;
    let mut b1: u32 = F32_ZERO_BITS;
    let mut b2: u32 = F32_ZERO_BITS;
    let mut k: usize = 0;
    while k < n
        invariant
            prev.wf() && curr.wf() && gx.wf() && gy.wf(),
            ws == 2 * radius + 1,
            ws <= 0xFFFF,
            n == ws * ws,
            k <= n,
            (a11, a12, a22, b1, b2) == win_acc(
                *prev, *curr, *gx, *gy, x, y, cx, cy, radius as int, ws as int, k as int),
        decreases n - k,
    {
        proof {
            vstd::arithmetic::div_mod::lemma_mod_bound(k as int, ws as int);
            vstd::arithmetic::div_mod::lemma_div_pos_is_pos(k as int, ws as int);
            vstd::arithmetic::div_mod::lemma_multiply_divide_lt(k as int, ws as int, ws as int);
        }
        let i: i32 = (k % ws) as i32 - radius as i32;
        let j: i32 = (k / ws) as i32 - radius as i32;
        let fi = f_from_i32(i);
        let fj = f_from_i32(j);
        let sx = f_add(x, fi);
        let sy = f_add(y, fj);
        let px_prev = interpolate(prev, sx, sy);
        let px_curr = interpolate(curr, f_add(cx, fi), f_add(cy, fj));
        let ix = f_div(interpolate_alt(gx, sx, sy), F32_32_BITS);
        let iy = f_div(interpolate_alt(gy, sx, sy), F32_32_BITS);
        let b = f_sub(px_prev, px_curr);
        a11 = f_add(a11, f_mul(ix, ix));
        a12 = f_add(a12, f_mul(ix, iy));
        a22 = f_add(a22, f_mul(iy, iy));
        b1 = f_add(b1, f_mul(ix, b));
        b2 = f_add(b2, f_mul(iy, b));
        k = k + 1;
    }
    (a11, a12, a22, b1, b2)
}

/// Solves the 2x2 normal equations, refusing near-singular systems.
fn solve_normal(a11: u32, a12: u32, a22: u32, b1: u32, b2: u32) -> (r: Option<(u32, u32)>)
    ensures
        r == solve2(a11, a12, a22, b1, b2),
{
    let tr = f_add(a11, a22);
    let t2 = f_mul(F32_TWO_BITS, LK_SOLVE_TOL_BITS);
    let diff = f_sub(tr, t2);
    let lhs = f_mul(diff, diff);
    let d1 = f_sub(a11, a22);
    let rhs = f_add(f_mul(d1, d1), f_mul(F32_FOUR_BITS, f_mul(a12, a12)));
    if f_gt(t2, tr) || f_gt(rhs, lhs) {
        None
    } else {
        let det = f_sub(f_mul(a11, a22), f_mul(a12, a12));
        Some((
            f_div(f_sub(f_mul(a22, b1), f_mul(a12, b2)), det),
            f_div(f_sub(f_mul(a11, b2), f_mul(a12, b1)), det),
        ))
    }
}

/// Iteratively refines one point's displacement at one pyramid level.
fn refine_point(
    prev: &RasterU8,
    curr: &RasterU8,
    gx: &RasterI16,
    gy: &RasterI16,
    x: u32,
    y: u32,
    radius: u32,
    ws: usize,
    dx0: u32,
    dy0: u32,
    max_iterations: usize,
) -> (r: (u32, u32))
    requires
        prev.wf(),
        curr.wf(),
        gx.wf(),
        gy.wf(),
        ws == 2 * radius + 1,
        ws <= 0xFFFF,
    ensures
        r == refine_spec(*prev, *curr, *gx, *gy, x, y, radius, ws as int, dx0, dy0,
            max_iterations as int),
{
    let mut dx: u32 = dx0;
    let mut dy: u32 = dy0;
    let mut it: usize = 0;
    let mut stopped: bool = false;
    while !stopped && it < max_iterations
        invariant
            prev.wf() && curr.wf() && gx.wf() && gy.wf(),
            ws == 2 * radius + 1,
            ws <= 0xFFFF,
            it <= max_iterations,
            !stopped ==> refine_spec(*prev, *curr, *gx, *gy, x, y, radius, ws as int,
                dx, dy, max_iterations as int - it as int)
                == refine_spec(*prev, *curr, *gx, *gy, x, y, radius, ws as int,
                    dx0, dy0, max_iterations as int),
            stopped ==> (dx, dy) == refine_spec(*prev, *curr, *gx, *gy, x, y, radius,
                ws as int, dx0, dy0, max_iterations as int),
        decreases max_iterations - it, (if stopped { 0int } else { 1int }),
    {
        let cx = f_add(x, dx);
        let cy = f_add(y, dy);
        if !in_bounds(curr, cx, cy, radius) {
            stopped = true;
        } else {
            let acc = accumulate_window(prev, curr, gx, gy, x, y, cx, cy, radius, ws);
            match solve_normal(acc.0, acc.1, acc.2, acc.3, acc.4) {
                None => {
                    stopped = true;
                },
                Some(corr) => {
                    let ndx = f_add(dx, corr.0);
                    let ndy = f_add(dy, corr.1);
                    dx = ndx;
                    dy = ndy;
                    if f_gt(LK_EPSILON_BITS, f_abs(corr.0)) && f_gt(LK_EPSILON_BITS, f_abs(corr.1)) {
                        stopped = true;
                    }
                },
            }
        }
        it = it + 1;
    }
    (dx, dy)
}

/// Tracks seed points from the previous frame's pyramid into the
/// current frame's pyramid by pyramidal Lucas-Kanade refinement.
///
/// Positions and displacements are single-precision bit patterns. One
/// position is returned per seed point, in order: the seed position
/// plus the displacement accumulated from the coarsest level to the
/// finest, with refinement silently skipped wherever the window leaves
/// a raster or the system is near singular.
pub fn calc_optical_flow(
    prev_pyramid: &Vec<RasterU8>,
    curr_pyramid: &Vec<RasterU8>,
    prev_points: &Vec<(u32, u32)>,
    window_size: usize,
    max_iterations: usize,
) -> (r: Vec<(u32, u32)>)
    requires
        prev_pyramid@.len() == curr_pyramid@.len(),
        window_size % 2 == 1,
        window_size <= 0xFFFF,
        forall|l: int| 0 <= l < prev_pyramid@.len() ==> (#[trigger] prev_pyramid@[l]).wf(),
        forall|l: int| 0 <= l < curr_pyramid@.len() ==> (#[trigger] curr_pyramid@[l]).wf(),
    ensures
        r@.len() == prev_points@.len(),
        exists|gxs: Seq<RasterI16>, gys: Seq<RasterI16>| {
            &&& #[trigger] gxs.len() == prev_pyramid@.len()
            &&& #[trigger] gys.len() == prev_pyramid@.len()
            &&& forall|l: int| 0 <= l < prev_pyramid@.len()
                ==> grads_match(#[trigger] prev_pyramid@[l], gxs[l], gys[l])
            &&& forall|p: int| 0 <= p < prev_points@.len()
                ==> #[trigger] r@[p] == tracked_point(
                    prev_pyramid@, curr_pyramid@, gxs, gys, prev_points@[p],
                    (window_size / 2) as u32, window_size as int, max_iterations as int)
        },
{
    let n_levels: usize = prev_pyramid.len();
    let radius: u32 = (window_size / 2) as u32;
    let kernel_x = horizontal_scharr_kernel();
    let kernel_y = vertical_scharr_kernel();

    let mut grads: Vec<(RasterI16, RasterI16)> = Vec::new();
    let mut l: usize = 0;
    while l < n_levels
        invariant
            n_levels == prev_pyramid@.len(),
            forall|ll: int| 0 <= ll < n_levels ==> (#[trigger] prev_pyramid@[ll]).wf(),
            kernel_x@.len() == 9,
            kernel_y@.len() == 9,
            forall|i: int| 0 <= i < 9
                ==> #[trigger] kernel_x@[i] as int == crate::utils::fast_gradients::scharr_h_at(i),
            forall|i: int| 0 <= i < 9
                ==> #[trigger] kernel_y@[i] as int == crate::utils::fast_gradients::scharr_v_at(i),
            crate::utils::fast_gradients::kpos(kernel_x@) == 16,
            crate::utils::fast_gradients::kneg(kernel_x@) == -16,
            crate::utils::fast_gradients::kpos(kernel_y@) == 16,
            crate::utils::fast_gradients::kneg(kernel_y@) == -16,
            l <= n_levels,
            grads@.len() == l as int,
            forall|ll: int| 0 <= ll < l as int
                ==> grads_match(prev_pyramid@[ll], (#[trigger] grads@[ll]).0, grads@[ll].1),
        decreases n_levels - l,
    {
        let g = compute_gradients(&prev_pyramid[l], &kernel_x, &kernel_y);
        proof {
            assert(kernel_x@ =~= scharr_h_vals());
            assert(kernel_y@ =~= scharr_v_vals());
        }
        grads.push(g);
        l = l + 1;
    }
    let ghost gxs = Seq::new(prev_pyramid@.len(), |i: int| grads@[i].0);
    let ghost gys = Seq::new(prev_pyramid@.len(), |i: int| grads@[i].1);

    let n_points: usize = prev_points.len();
    let mut displacements: Vec<(u32, u32)> = Vec::new();
    let mut p: usize = 0;
    while p < n_points
        invariant
            p <= n_points,
            displacements@.len() == p as int,
            forall|q: int| 0 <= q < p as int
                ==> #[trigger] displacements@[q] == (F32_ZERO_BITS, F32_ZERO_BITS),
        decreases n_points - p,
    {
        displacements.push((F32_ZERO_BITS, F32_ZERO_BITS));
        p = p + 1;
    }

    let ws: usize = window_size;
    let mut level: usize = n_levels;
    while level > 0
        invariant
            n_levels == prev_pyramid@.len(),
            prev_pyramid@.len() == curr_pyramid@.len(),
            forall|ll: int| 0 <= ll < n_levels ==> (#[trigger] prev_pyramid@[ll]).wf(),
            forall|ll: int| 0 <= ll < n_levels ==> (#[trigger] curr_pyramid@[ll]).wf(),
            grads@.len() == n_levels,
            forall|ll: int| 0 <= ll < n_levels
                ==> grads_match(prev_pyramid@[ll], (#[trigger] grads@[ll]).0, grads@[ll].1),
            gxs == Seq::new(prev_pyramid@.len(), |i: int| grads@[i].0),
            gys == Seq::new(prev_pyramid@.len(), |i: int| grads@[i].1),
            ws == window_size,
            ws % 2 == 1,
            ws <= 0xFFFF,
            radius == (ws / 2) as u32,
            ws == 2 * radius + 1,
            n_points == prev_points@.len(),
            displacements@.len() == n_points,
            level <= n_levels,
            forall|q: int| 0 <= q < n_points ==> track_from(
                prev_pyramid@, curr_pyramid@, gxs, gys,
                prev_points@[q].0, prev_points@[q].1, radius, ws as int,
                max_iterations as int, level as int - 1,
                (#[trigger] displacements@[q]).0, displacements@[q].1)
                == track_from(
                    prev_pyramid@, curr_pyramid@, gxs, gys,
                    prev_points@[q].0, prev_points@[q].1, radius, ws as int,
                    max_iterations as int, n_levels as int - 1,
                    F32_ZERO_BITS, F32_ZERO_BITS),
        decreases level,
    {
        let lv: usize = level - 1;
        let scale: u32 = scale_for(lv);
        let mut q: usize = 0;
        while q < n_points
            invariant
                n_levels == prev_pyramid@.len(),
                prev_pyramid@.len() == curr_pyramid@.len(),
                forall|ll: int| 0 <= ll < n_levels ==> (#[trigger] prev_pyramid@[ll]).wf(),
                forall|ll: int| 0 <= ll < n_levels ==> (#[trigger] curr_pyramid@[ll]).wf(),
                grads@.len() == n_levels,
                forall|ll: int| 0 <= ll < n_levels
                    ==> grads_match(prev_pyramid@[ll], (#[trigger] grads@[ll]).0, grads@[ll].1),
                gxs == Seq::new(prev_pyramid@.len(), |i: int| grads@[i].0),
                gys == Seq::new(prev_pyramid@.len(), |i: int| grads@[i].1),
                ws == window_size,
                ws % 2 == 1,
                ws <= 0xFFFF,
                radius == (ws / 2) as u32,
                ws == 2 * radius + 1,
                n_points == prev_points@.len(),
                displacements@.len() == n_points,
                1 <= level <= n_levels,
                lv == level - 1,
                scale == scale_of(lv as int),
                q <= n_points,
                forall|qq: int| q as int <= qq < n_points ==> track_from(
                    prev_pyramid@, curr_pyramid@, gxs, gys,
                    prev_points@[qq].0, prev_points@[qq].1, radius, ws as int,
                    max_iterations as int, level as int - 1,
                    (#[trigger] displacements@[qq]).0, displacements@[qq].1)
                    == track_from(
                        prev_pyramid@, curr_pyramid@, gxs, gys,
                        prev_points@[qq].0, prev_points@[qq].1, radius, ws as int,
                        max_iterations as int, n_levels as int - 1,
                        F32_ZERO_BITS, F32_ZERO_BITS),
                forall|qq: int| 0 <= qq < q as int ==> track_from(
                    prev_pyramid@, curr_pyramid@, gxs, gys,
                    prev_points@[qq].0, prev_points@[qq].1, radius, ws as int,
                    max_iterations as int, level as int - 2,
                    (#[trigger] displacements@[qq]).0, displacements@[qq].1)
                    == track_from(
                        prev_pyramid@, curr_pyramid@, gxs, gys,
                        prev_points@[qq].0, prev_points@[qq].1, radius, ws as int,
                        max_iterations as int, n_levels as int - 1,
                        F32_ZERO_BITS, F32_ZERO_BITS),
            decreases n_points - q,
        {
            let pt = prev_points[q];
            let disp = displacements[q];
            let x = f_div(pt.0, scale);
            let y = f_div(pt.1, scale);
            let dxl = f_div(disp.0, scale);
            let dyl = f_div(disp.1, scale);
            if in_bounds(&prev_pyramid[lv], x, y, radius) {
                let refined = refine_point(
                    &prev_pyramid[lv], &curr_pyramid[lv], &grads[lv].0, &grads[lv].1,
                    x, y, radius, ws, dxl, dyl, max_iterations);
                let nd = (f_mul(refined.0, scale), f_mul(refined.1, scale));
                displacements.set(q, nd);
                proof {
                    assert(gxs[lv as int] == grads@[lv as int].0);
                    assert(gys[lv as int] == grads@[lv as int].1);
                }
            }
            q = q + 1;
        }
        level = lv;
    }

    let mut result: Vec<(u32, u32)> = Vec::new();
    let mut t: usize = 0;
    while t < n_points
        invariant
            n_points == prev_points@.len(),
            displacements@.len() == n_points,
            t <= n_points,
            result@.len() == t as int,
            n_levels == prev_pyramid@.len(),
            forall|q2: int| 0 <= q2 < n_points ==> track_from(
                prev_pyramid@, curr_pyramid@, gxs, gys,
                prev_points@[q2].0, prev_points@[q2].1, radius, ws as int,
                max_iterations as int, -1,
                (#[trigger] displacements@[q2]).0, displacements@[q2].1)
                == track_from(
                    prev_pyramid@, curr_pyramid@, gxs, gys,
                    prev_points@[q2].0, prev_points@[q2].1, radius, ws as int,
                    max_iterations as int, n_levels as int - 1,
                    F32_ZERO_BITS, F32_ZERO_BITS),
            ws == window_size,
            radius == (window_size / 2) as u32,
            forall|i2: int| 0 <= i2 < t as int
                ==> #[trigger] result@[i2] == tracked_point(
                    prev_pyramid@, curr_pyramid@, gxs, gys, prev_points@[i2],
                    radius, ws as int, max_iterations as int),
        decreases n_points - t,
    {
        let pt = prev_points[t];
        let disp = displacements[t];
        result.push((f_add(pt.0, disp.0), f_add(pt.1, disp.1)));
        t = t + 1;
    }
    proof {
        assert(gxs.len() == prev_pyramid@.len());
        assert(gys.len() == prev_pyramid@.len());
        assert(forall|l2: int| 0 <= l2 < prev_pyramid@.len()
            ==> grads_match(#[trigger] prev_pyramid@[l2], gxs[l2], gys[l2]));
        assert(forall|p2: int| 0 <= p2 < prev_points@.len()
            ==> #[trigger] result@[p2] == tracked_point(
                prev_pyramid@, curr_pyramid@, gxs, gys, prev_points@[p2],
                (window_size / 2) as u32, window_size as int, max_iterations as int));
    }
    result
}

/// Tracks points only when the shapes are valid: the pyramids must be
/// equally long and the window size odd (and small enough for its
/// samples to be counted); invalid shapes yield nothing.
pub fn calc_optical_flow_checked(
    prev_pyramid: &Vec<RasterU8>,
    curr_pyramid: &Vec<RasterU8>,
    prev_points: &Vec<(u32, u32)>,
    window_size: usize,
    max_iterations: usize,
) -> (r: Option<Vec<(u32, u32)>>)
    requires
        forall|l: int| 0 <= l < prev_pyramid@.len() ==> (#[trigger] prev_pyramid@[l]).wf(),
        forall|l: int| 0 <= l < curr_pyramid@.len() ==> (#[trigger] curr_pyramid@[l]).wf(),
    ensures
        r.is_some() <==> (prev_pyramid@.len() == curr_pyramid@.len()
            && window_size % 2 == 1 && window_size <= 0xFFFF),
        r.is_some() ==> r.unwrap()@.len() == prev_points@.len(),
{
    if prev_pyramid.len() == curr_pyramid.len() && window_size % 2 == 1 && window_size <= 0xFFFF {
        Some(calc_optical_flow(prev_pyramid, curr_pyramid, prev_points, window_size,
            max_iterations))
    } else {
        None
    }
}

} // verus!
