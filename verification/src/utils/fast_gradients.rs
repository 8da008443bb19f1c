use vstd::prelude::*;
use crate::raster::{RasterU8, RasterI16, in_grid};

verus! {

/// The positive part of a weight.
pub open spec fn max0(v: int) -> int {
    if v > 0 { v } else { 0 }
}

/// The negative part of a weight.
pub open spec fn min0(v: int) -> int {
    if v < 0 { v } else { 0 }
}

/// Sum of the positive parts of a 3x3 kernel's weights.
pub open spec fn kpos(k: Seq<i32>) -> int {
    max0(k[0] as int) + max0(k[1] as int) + max0(k[2] as int)
        + max0(k[3] as int) + max0(k[4] as int) + max0(k[5] as int)
        + max0(k[6] as int) + max0(k[7] as int) + max0(k[8] as int)
}

/// Sum of the negative parts of a 3x3 kernel's weights.
pub open spec fn kneg(k: Seq<i32>) -> int {
    min0(k[0] as int) + min0(k[1] as int) + min0(k[2] as int)
        + min0(k[3] as int) + min0(k[4] as int) + min0(k[5] as int)
        + min0(k[6] as int) + min0(k[7] as int) + min0(k[8] as int)
}

/// The weighted sum of the 3x3 neighbourhood of (x, y) against a
/// row-major 3x3 kernel.
pub open spec fn conv_at(img: RasterU8, k: Seq<i32>, x: int, y: int) -> int {
    img.px(x - 1, y - 1) * (k[0] as int) + img.px(x, y - 1) * (k[1] as int)
        + img.px(x + 1, y - 1) * (k[2] as int)
        + img.px(x - 1, y) * (k[3] as int) + img.px(x, y) * (k[4] as int)
        + img.px(x + 1, y) * (k[5] as int)
        + img.px(x - 1, y + 1) * (k[6] as int) + img.px(x, y + 1) * (k[7] as int)
        + img.px(x + 1, y + 1) * (k[8] as int)
}

/// (x, y) lies strictly inside the one-pixel border of a `w` by `h` grid.
pub open spec fn interior(x: int, y: int, w: int, h: int) -> bool {
    1 <= x < w - 1 && 1 <= y < h - 1
}

/// The weights of the horizontal Scharr derivative kernel, row-major.
pub open spec fn scharr_h_at(i: int) -> int {
    seq![-3int, 0int, 3int, -10int, 0int, 10int, -3int, 0int, 3int][i]
}

/// The weights of the vertical Scharr derivative kernel, row-major.
pub open spec fn scharr_v_at(i: int) -> int {
    seq![-3int, -10int, -3int, 0int, 0int, 0int, 3int, 10int, 3int][i]
}

/// Relies on imageproc's horizontal Scharr kernel constant: reading its
/// weight at (x, y) gives the row-major Scharr derivative weights.
#[verifier::external_body]
fn scharr_horizontal_weight(x: u32, y: u32) -> (r: i32)
    requires
        x < 3,
        y < 3,
    ensures
        r as int == scharr_h_at(y as int * 3 + x as int),
{
    imageproc::kernel::SCHARR_HORIZONTAL_3X3.get(x, y)
}

/// Relies on imageproc's vertical Scharr kernel constant: reading its
/// weight at (x, y) gives the row-major Scharr derivative weights.
#[verifier::external_body]
fn scharr_vertical_weight(x: u32, y: u32) -> (r: i32)
    requires
        x < 3,
        y < 3,
    ensures
        r as int == scharr_v_at(y as int * 3 + x as int),
{
    imageproc::kernel::SCHARR_VERTICAL_3X3.get(x, y)
}

/// The horizontal Scharr kernel as a flat weight vector.
pub fn horizontal_scharr_kernel() -> (r: Vec<i32>)
    ensures
        r@.len() == 9,
        forall|i: int| 0 <= i < 9 ==> #[trigger] r@[i] as int == scharr_h_at(i),
        kpos(r@) == 16,
        kneg(r@) == -16,
{
    let mut v: Vec<i32> = Vec::new();
    let mut y: u32 = 0;
    while y < 3
        invariant
            y <= 3,
            v@.len() == 3 * y,
            forall|i: int| 0 <= i < v@.len() ==> #[trigger] v@[i] as int == scharr_h_at(i),
        decreases 3 - y,
    {
        let mut x: u32 = 0;
        while x < 3
            invariant
                y < 3,
                x <= 3,
                v@.len() == 3 * y + x,
                forall|i: int| 0 <= i < v@.len() ==> #[trigger] v@[i] as int == scharr_h_at(i),
            decreases 3 - x,
        {
            v.push(scharr_horizontal_weight(x, y));
            x = x + 1;
        }
        y = y + 1;
    }
    v
}

/// The vertical Scharr kernel as a flat weight vector.
pub fn vertical_scharr_kernel() -> (r: Vec<i32>)
    ensures
        r@.len() == 9,
        forall|i: int| 0 <= i < 9 ==> #[trigger] r@[i] as int == scharr_v_at(i),
        kpos(r@) == 16,
        kneg(r@) == -16,
{
    let mut v: Vec<i32> = Vec::new();
    let mut y: u32 = 0;
    while y < 3
        invariant
            y <= 3,
            v@.len() == 3 * y,
            forall|i: int| 0 <= i < v@.len() ==> #[trigger] v@[i] as int == scharr_v_at(i),
        decreases 3 - y,
    {
        let mut x: u32 = 0;
        while x < 3
            invariant
                y < 3,
                x <= 3,
                v@.len() == 3 * y + x,
                forall|i: int| 0 <= i < v@.len() ==> #[trigger] v@[i] as int == scharr_v_at(i),
            decreases 3 - x,
        {
            v.push(scharr_vertical_weight(x, y));
            x = x + 1;
        }
        y = y + 1;
    }
    v
}

/// An intensity sample times a kernel weight lies between 255 times the
/// weight's negative part and 255 times its positive part.
proof fn lemma_term_bound(p: int, k: int)
    requires
        0 <= p <= 255,
    ensures
        255 * min0(k) <= p * k <= 255 * max0(k),
{
    assert(255 * min0(k) <= p * k <= 255 * max0(k)) by (nonlinear_arith)
        requires
            0 <= p <= 255,
    ;
}

/// The convolution of bounded samples is bounded by 255 times the
/// kernel's positive and negative weight sums.
proof fn lemma_conv_bound(img: RasterU8, k: Seq<i32>, x: int, y: int)
    requires
        k.len() == 9,
    ensures
        255 * kneg(k) <= conv_at(img, k, x, y) <= 255 * kpos(k),
{
    lemma_term_bound(img.px(x - 1, y - 1), k[0] as int);
    lemma_term_bound(img.px(x, y - 1), k[1] as int);
    lemma_term_bound(img.px(x + 1, y - 1), k[2] as int);
    lemma_term_bound(img.px(x - 1, y), k[3] as int);
    lemma_term_bound(img.px(x, y), k[4] as int);
    lemma_term_bound(img.px(x + 1, y), k[5] as int);
    lemma_term_bound(img.px(x - 1, y + 1), k[6] as int);
    lemma_term_bound(img.px(x, y + 1), k[7] as int);
    lemma_term_bound(img.px(x + 1, y + 1), k[8] as int);
}

/// One sample-times-weight term of the convolution.
fn mul_px_k(p: u8, k: i32) -> (r: i32)
    requires
        -128 <= k <= 128,
    ensures
        r as int == p as int * k as int,
        255 * min0(k as int) <= r as int <= 255 * max0(k as int),
{
    proof {
        lemma_term_bound(p as int, k as int);
    }
    (p as i32) * k
}

/// The convolution at one strictly interior pixel.
fn conv_px(img: &RasterU8, k: &Vec<i32>, x: u32, y: u32) -> (r: i32)
    requires
        img.wf(),
        k@.len() == 9,
        kpos(k@) <= 128,
        kneg(k@) >= -128,
        1 <= x && x + 1 < img.width,
        1 <= y && y + 1 < img.height,
    ensures
        r as int == conv_at(*img, k@, x as int, y as int),
        255 * kneg(k@) <= r as int <= 255 * kpos(k@),
{
    proof {
        assert(forall|i: int| 0 <= i < 9 ==> min0(#[trigger] k@[i] as int) >= kneg(k@));
        assert(forall|i: int| 0 <= i < 9 ==> max0(#[trigger] k@[i] as int) <= kpos(k@));
    }
    let t0 = mul_px_k(img.get(x - 1, y - 1), k[0]);
    let t1 = mul_px_k(img.get(x, y - 1), k[1]);
    let t2 = mul_px_k(img.get(x + 1, y - 1), k[2]);
    let t3 = mul_px_k(img.get(x - 1, y), k[3]);
    let t4 = mul_px_k(img.get(x, y), k[4]);
    let t5 = mul_px_k(img.get(x + 1, y), k[5]);
    let t6 = mul_px_k(img.get(x - 1, y + 1), k[6]);
    let t7 = mul_px_k(img.get(x, y + 1), k[7]);
    let t8 = mul_px_k(img.get(x + 1, y + 1), k[8]);
    t0 + t1 + t2 + t3 + t4 + t5 + t6 + t7 + t8
}

/// Convolves an intensity raster with a pair of 3x3 derivative kernels.
///
/// Every strictly interior pixel of each output holds the weighted sum
/// of its 3x3 neighbourhood against the respective kernel; the one-pixel
/// border stays zero.
pub fn compute_gradients(img: &RasterU8, kernel_x: &Vec<i32>, kernel_y: &Vec<i32>) -> (r: (
    RasterI16,
    RasterI16,
))
    requires
        img.wf(),
        kernel_x@.len() == 9,
        kernel_y@.len() == 9,
        kpos(kernel_x@) <= 128,
        kneg(kernel_x@) >= -128,
        kpos(kernel_y@) <= 128,
        kneg(kernel_y@) >= -128,
    ensures
        r.0.wf(),
        r.1.wf(),
        r.0.width == img.width,
        r.0.height == img.height,
        r.1.width == img.width,
        r.1.height == img.height,
        forall|x: int, y: int|
            interior(x, y, img.width as int, img.height as int)
                ==> #[trigger] r.0.px(x, y) == conv_at(*img, kernel_x@, x, y),
        forall|x: int, y: int|
            interior(x, y, img.width as int, img.height as int)
                ==> #[trigger] r.1.px(x, y) == conv_at(*img, kernel_y@, x, y),
        forall|x: int, y: int|
            in_grid(x, y, img.width as int, img.height as int)
                && !interior(x, y, img.width as int, img.height as int)
                ==> #[trigger] r.0.px(x, y) == 0,
        forall|x: int, y: int|
            in_grid(x, y, img.width as int, img.height as int)
                && !interior(x, y, img.width as int, img.height as int)
                ==> #[trigger] r.1.px(x, y) == 0,
        forall|x: int, y: int|
            in_grid(x, y, img.width as int, img.height as int)
                ==> 255 * kneg(kernel_x@) <= #[trigger] r.0.px(x, y) <= 255 * kpos(kernel_x@),
        forall|x: int, y: int|
            in_grid(x, y, img.width as int, img.height as int)
                ==> 255 * kneg(kernel_y@) <= #[trigger] r.1.px(x, y) <= 255 * kpos(kernel_y@),
{
    let w: u32 = img.width;
    let h: u32 = img.height;
    let n: usize = img.data.len();
    let mut grad_x = RasterI16::new(w, h);
    let mut grad_y = RasterI16::new(w, h);
    if w >= 3 && h >= 3 {
        let mut y: u32 = 1;
        while y < h - 1
            invariant
                img.wf(),
                w == img.width,
                h == img.height,
                w >= 3,
                h >= 3,
                kernel_x@.len() == 9,
                kernel_y@.len() == 9,
                kpos(kernel_x@) <= 128,
                kneg(kernel_x@) >= -128,
                kpos(kernel_y@) <= 128,
                kneg(kernel_y@) >= -128,
                1 <= y <= h - 1,
                grad_x.wf(),
                grad_x.width == w,
                grad_x.height == h,
                grad_y.wf(),
                grad_y.width == w,
                grad_y.height == h,
                forall|xx: int, yy: int|
                    interior(xx, yy, w as int, h as int) && yy < y
                        ==> #[trigger] grad_x.px(xx, yy) == conv_at(*img, kernel_x@, xx, yy),
                forall|xx: int, yy: int|
                    interior(xx, yy, w as int, h as int) && yy < y
                        ==> #[trigger] grad_y.px(xx, yy) == conv_at(*img, kernel_y@, xx, yy),
                forall|xx: int, yy: int|
                    in_grid(xx, yy, w as int, h as int)
                        && !(interior(xx, yy, w as int, h as int) && yy < y)
                        ==> #[trigger] grad_x.px(xx, yy) == 0,
                forall|xx: int, yy: int|
                    in_grid(xx, yy, w as int, h as int)
                        && !(interior(xx, yy, w as int, h as int) && yy < y)
                        ==> #[trigger] grad_y.px(xx, yy) == 0,
            decreases h - 1 - y,
        {
            let mut x: u32 = 1;
            while x < w - 1
                invariant
                    img.wf(),
                    w == img.width,
                    h == img.height,
                    w >= 3,
                    h >= 3,
                    kernel_x@.len() == 9,
                    kernel_y@.len() == 9,
                    kpos(kernel_x@) <= 128,
                    kneg(kernel_x@) >= -128,
                    kpos(kernel_y@) <= 128,
                    kneg(kernel_y@) >= -128,
                    1 <= y < h - 1,
                    1 <= x <= w - 1,
                    grad_x.wf(),
                    grad_x.width == w,
                    grad_x.height == h,
                    grad_y.wf(),
                    grad_y.width == w,
                    grad_y.height == h,
                    forall|xx: int, yy: int|
                        interior(xx, yy, w as int, h as int)
                            && (yy < y || (yy == y && xx < x))
                            ==> #[trigger] grad_x.px(xx, yy) == conv_at(*img, kernel_x@, xx, yy),
                    forall|xx: int, yy: int|
                        interior(xx, yy, w as int, h as int)
                            && (yy < y || (yy == y && xx < x))
                            ==> #[trigger] grad_y.px(xx, yy) == conv_at(*img, kernel_y@, xx, yy),
                    forall|xx: int, yy: int|
                        in_grid(xx, yy, w as int, h as int)
                            && !(interior(xx, yy, w as int, h as int)
                                && (yy < y || (yy == y && xx < x)))
                            ==> #[trigger] grad_x.px(xx, yy) == 0,
                    forall|xx: int, yy: int|
                        in_grid(xx, yy, w as int, h as int)
                            && !(interior(xx, yy, w as int, h as int)
                                && (yy < y || (yy == y && xx < x)))
                            ==> #[trigger] grad_y.px(xx, yy) == 0,
                decreases w - 1 - x,
            {
                let gx = conv_px(img, kernel_x, x, y);
                let gy = conv_px(img, kernel_y, x, y);
                grad_x.set(x, y, gx as i16);
                grad_y.set(x, y, gy as i16);
                x = x + 1;
            }
            y = y + 1;
        }
    }
    proof {
        assert forall|x: int, y: int| in_grid(x, y, img.width as int, img.height as int)
            implies 255 * kneg(kernel_x@) <= #[trigger] grad_x.px(x, y) <= 255 * kpos(kernel_x@) by {
            if interior(x, y, img.width as int, img.height as int) && grad_x.px(x, y)
                == conv_at(*img, kernel_x@, x, y) {
                lemma_conv_bound(*img, kernel_x@, x, y);
            }
        }
        assert forall|x: int, y: int| in_grid(x, y, img.width as int, img.height as int)
            implies 255 * kneg(kernel_y@) <= #[trigger] grad_y.px(x, y) <= 255 * kpos(kernel_y@) by {
            if interior(x, y, img.width as int, img.height as int) && grad_y.px(x, y)
                == conv_at(*img, kernel_y@, x, y) {
                lemma_conv_bound(*img, kernel_y@, x, y);
            }
        }
    }
    (grad_x, grad_y)
}

} // verus!
