use vstd::prelude::*;
use crate::raster::{RasterU8, RasterI16, in_grid};
use crate::utils::fast_gradients::{
    compute_gradients, horizontal_scharr_kernel, vertical_scharr_kernel, interior,
};
use crate::utils::box_filter_3x3::{tdiv, box_filter_3x3_in_place};
use crate::fbits::{
    gt_bits, ge_bits, max_bits, mul_bits, f_gt, f_ge, f_max, f_mul, F32_ZERO_BITS,
};

verus! {

/// A detected feature: pixel column, pixel row, and the bits of its
/// single-precision quality score.
pub type Feature = (u32, u32, u32);

/// The nonnegative square root of `n`, rounded down.
pub open spec fn isqrt_of(n: int) -> int {
    choose|s: int| 0 <= s && #[trigger] (s * s) <= n && n < (s + 1) * (s + 1)
}

/// Rounded-down integer square roots are unique.
pub proof fn lemma_isqrt_unique(n: int, s1: int, s2: int)
    requires
        0 <= s1 && s1 * s1 <= n && n < (s1 + 1) * (s1 + 1),
        0 <= s2 && s2 * s2 <= n && n < (s2 + 1) * (s2 + 1),
    ensures
        s1 == s2,
{
    assert(s1 == s2) by (nonlinear_arith)
        requires
            0 <= s1 && s1 * s1 <= n && n < (s1 + 1) * (s1 + 1),
            0 <= s2 && s2 * s2 <= n && n < (s2 + 1) * (s2 + 1),
    ;
}

/// The binade of a scaled square root: the exponent of the leading bit
/// above the 2^23 fixed point.
pub open spec fn score_exp(s: int) -> int {
    if s < 0x100_0000 {
        0int
    } else if s < 0x200_0000 {
        1int
    } else if s < 0x400_0000 {
        2int
    } else if s < 0x800_0000 {
        3int
    } else if s < 0x1000_0000 {
        4int
    } else if s < 0x2000_0000 {
        5int
    } else if s < 0x4000_0000 {
        6int
    } else {
        7int
    }
}

/// Two to the power `e`, for the small exponents the score uses.
pub open spec fn pow2_small(e: int) -> int {
    if e == 0 {
        1int
    } else if e == 1 {
        2int
    } else if e == 2 {
        4int
    } else if e == 3 {
        8int
    } else if e == 4 {
        16int
    } else if e == 5 {
        32int
    } else if e == 6 {
        64int
    } else {
        128int
    }
}

/// Two to the power `48 - 2e`, for the small exponents the score uses.
pub open spec fn pow2_48_less_2e(e: int) -> int {
    if e == 0 {
        0x1_0000_0000_0000int
    } else if e == 1 {
        0x4000_0000_0000int
    } else if e == 2 {
        0x1000_0000_0000int
    } else if e == 3 {
        0x400_0000_0000int
    } else if e == 4 {
        0x100_0000_0000int
    } else if e == 5 {
        0x40_0000_0000int
    } else if e == 6 {
        0x10_0000_0000int
    } else {
        0x4_0000_0000int
    }
}

/// The bits of the single-precision value sqrt(t) / 2 for an exact
/// integer argument: the correctly rounded square root, halved by
/// decrementing the exponent, and a quiet non-number for negative `t`.
///
/// The mantissa is found from the integer square root of t * 2^46 and
/// rounded to nearest; a tie is impossible because the comparison pits
/// an even number against an odd one.
pub open spec fn score_of(t: int) -> u32 {
    if t < 0 {
        0x7FC0_0000u32
    } else if t == 0 {
        0u32
    } else {
        let s = isqrt_of(t * 0x4000_0000_0000);
        let e = score_exp(s);
        let m0 = s / pow2_small(e);
        let m = if t * pow2_48_less_2e(e) > 4 * m0 * (m0 + 1) {
            m0 + 1
        } else {
            m0
        };
        if m >= 0x100_0000 {
            (((127 + e) * 0x80_0000) as u32)
        } else {
            (((126 + e) * 0x80_0000 + (m - 0x80_0000)) as u32)
        }
    }
}

/// Two to a small nonnegative power.
pub open spec fn pow2g(e: int) -> int
    decreases e,
{
    if e <= 0 {
        1int
    } else {
        2 * pow2g(e - 1)
    }
}

/// Rounded-down integer square root by binary search over the bits.
fn isqrt64(n: u64) -> (r: u64)
    requires
        n < 0x4000_0000_0000_0000,
    ensures
        r * r <= n,
        n < (r + 1) * (r + 1),
{
    let mut s: u64 = 0;
    let mut bit: u64 = 0x8000_0000;
    let ghost mut lg: int = 31;
    let mut done: bool = false;
    proof {
        reveal_with_fuel(pow2g, 33);
        assert(pow2g(31) == 0x8000_0000);
        assert((2 * 0x8000_0000) * (2 * 0x8000_0000) > n as int) by (nonlinear_arith)
            requires
                n < 0x4000_0000_0000_0000,
        ;
    }
    while !done
        invariant
            n < 0x4000_0000_0000_0000,
            s * s <= n,
            !done ==> s + 2 * bit <= 0x1_0000_0000,
            !done ==> bit >= 1,
            !done ==> bit as int == pow2g(lg),
            !done ==> 0 <= lg <= 31,
            !done ==> n < (s + 2 * bit) * (s + 2 * bit),
            done ==> n < (s + 1) * (s + 1),
        decreases (if done { 0int } else { bit as int + 1 }),
    {
        let cand: u64 = s + bit;
        proof {
            assert(cand * cand < 0x1_0000_0000 * 0x1_0000_0000) by (nonlinear_arith)
                requires
                    cand < 0x1_0000_0000,
            ;
        }
        if cand * cand <= n {
            s = cand;
        }
        proof {
            assert(n < (s + bit) * (s + bit));
        }
        if bit == 1 {
            done = true;
        } else {
            proof {
                assert(lg >= 1) by {
                    assert(pow2g(0) == 1);
                }
                assert(bit as int == 2 * pow2g(lg - 1));
                lg = lg - 1;
            }
            bit = bit / 2;
        }
    }
    s
}

/// The score of a structure-tensor numerator: sqrt(t)/2 as
/// single-precision bits, computed without floating-point hardware.
pub fn score_from_t(t: i64) -> (r: u32)
    requires
        t <= 65535,
    ensures
        r == score_of(t as int),
{
    if t < 0 {
        return 0x7FC0_0000u32;
    }
    if t == 0 {
        return 0u32;
    }
    let n: u64 = (t as u64) * 0x4000_0000_0000;
    let s: u64 = isqrt64(n);
    proof {
        assert(s as int * s as int <= n as int && (s as int + 1) * (s as int + 1) > n as int);
        let sp = isqrt_of(n as int);
        assert(0 <= s as int && s as int * s as int <= n as int
            && (s as int + 1) * (s as int + 1) > n as int);
        lemma_isqrt_unique(n as int, sp, s as int);
        assert(sp == s as int);
        assert(0x4000_0000_0000 <= n as int);
        assert((s as int + 1) * (s as int + 1) > 0x4000_0000_0000);
        assert(s >= 0x80_0000) by (nonlinear_arith)
            requires
                (s as int + 1) * (s as int + 1) > 0x4000_0000_0000,
                s as int >= 0,
        ;
        assert(s < 0x8000_0000) by (nonlinear_arith)
            requires
                s as int * s as int <= n as int,
                n < 0x4000_0000_0000_0000,
                s as int >= 0,
        ;
    }
    let e: u32 = if s < 0x100_0000 {
        0
    } else if s < 0x200_0000 {
        1
    } else if s < 0x400_0000 {
        2
    } else if s < 0x800_0000 {
        3
    } else if s < 0x1000_0000 {
        4
    } else if s < 0x2000_0000 {
        5
    } else if s < 0x4000_0000 {
        6
    } else {
        7
    };
    let pe: u64 = if e == 0 {
        1
    } else if e == 1 {
        2
    } else if e == 2 {
        4
    } else if e == 3 {
        8
    } else if e == 4 {
        16
    } else if e == 5 {
        32
    } else if e == 6 {
        64
    } else {
        128
    };
    let pw: u64 = if e == 0 {
        0x1_0000_0000_0000
    } else if e == 1 {
        0x4000_0000_0000
    } else if e == 2 {
        0x1000_0000_0000
    } else if e == 3 {
        0x400_0000_0000
    } else if e == 4 {
        0x100_0000_0000
    } else if e == 5 {
        0x40_0000_0000
    } else if e == 6 {
        0x10_0000_0000
    } else {
        0x4_0000_0000
    };
    proof {
        assert(e as int == score_exp(s as int));
        assert(pe as int == pow2_small(e as int));
        assert(pw as int == pow2_48_less_2e(e as int));
        assert((s as int) < pe as int * 0x100_0000);
        vstd::arithmetic::div_mod::lemma_multiply_divide_lt(s as int, pe as int, 0x100_0000);
        assert(pe as int * 0x80_0000 <= s as int);
        vstd::arithmetic::div_mod::lemma_div_is_ordered(
            pe as int * 0x80_0000, s as int, pe as int);
        vstd::arithmetic::div_mod::lemma_div_multiples_vanish(0x80_0000, pe as int);
    }
    let m0: u64 = s / pe;
    proof {
        assert(0x80_0000 <= m0 && m0 < 0x100_0000);
        assert(4 * m0 * (m0 + 1) < 0x8000_0000_0000_0000) by (nonlinear_arith)
            requires
                m0 < 0x100_0000,
        ;
    }
    let m: u64 = if (t as u64) * pw > 4 * m0 * (m0 + 1) {
        m0 + 1
    } else {
        m0
    };
    if m >= 0x100_0000 {
        (127 + e) * 0x80_0000
    } else {
        (126 + e) * 0x80_0000 + (m as u32 - 0x80_0000)
    }
}

/// The structure-tensor score numerator at (x, y): the tensor's trace
/// minus its raw discriminant.
pub open spec fn eig_t(a: RasterI16, b: RasterI16, c: RasterI16, x: int, y: int) -> int {
    let av = a.px(x, y);
    let bv = b.px(x, y);
    let cv = c.px(x, y);
    (av + bv) - ((av - bv) * (av - bv) + 4 * (cv * cv))
}

/// Forms the three gradient-product rasters: each gradient sample is
/// first divided by 32 (truncating), then squared or cross-multiplied.
pub fn compute_gradient_products(gx: &RasterI16, gy: &RasterI16) -> (r: (
    RasterI16,
    RasterI16,
    RasterI16,
))
    requires
        gx.wf(),
        gy.wf(),
        gx.width == gy.width,
        gx.height == gy.height,
        forall|x: int, y: int|
            in_grid(x, y, gx.width as int, gx.height as int)
                ==> -4080 <= #[trigger] gx.px(x, y) <= 4080,
        forall|x: int, y: int|
            in_grid(x, y, gy.width as int, gy.height as int)
                ==> -4080 <= #[trigger] gy.px(x, y) <= 4080,
    ensures
        r.0.wf(),
        r.1.wf(),
        r.2.wf(),
        r.0.width == gx.width && r.0.height == gx.height,
        r.1.width == gx.width && r.1.height == gx.height,
        r.2.width == gx.width && r.2.height == gx.height,
        forall|x: int, y: int|
            in_grid(x, y, gx.width as int, gx.height as int)
                ==> #[trigger] r.0.px(x, y) == tdiv(gx.px(x, y), 32) * tdiv(gx.px(x, y), 32),
        forall|x: int, y: int|
            in_grid(x, y, gx.width as int, gx.height as int)
                ==> #[trigger] r.1.px(x, y) == tdiv(gy.px(x, y), 32) * tdiv(gy.px(x, y), 32),
        forall|x: int, y: int|
            in_grid(x, y, gx.width as int, gx.height as int)
                ==> #[trigger] r.2.px(x, y) == tdiv(gx.px(x, y), 32) * tdiv(gy.px(x, y), 32),
{
    let w: u32 = gx.width;
    let h: u32 = gx.height;
    let n: usize = gx.data.len();
    let mut ix_sq = RasterI16::new(w, h);
    let mut iy_sq = RasterI16::new(w, h);
    let mut ix_iy = RasterI16::new(w, h);
    let mut y: u32 = 0;
    while y < h
        invariant
            gx.wf(),
            gy.wf(),
            w == gx.width && h == gx.height,
            w == gy.width && h == gy.height,
            forall|xx: int, yy: int|
                in_grid(xx, yy, w as int, h as int) ==> -4080 <= #[trigger] gx.px(xx, yy) <= 4080,
            forall|xx: int, yy: int|
                in_grid(xx, yy, w as int, h as int) ==> -4080 <= #[trigger] gy.px(xx, yy) <= 4080,
            y <= h,
            ix_sq.wf() && ix_sq.width == w && ix_sq.height == h,
            iy_sq.wf() && iy_sq.width == w && iy_sq.height == h,
            ix_iy.wf() && ix_iy.width == w && ix_iy.height == h,
            forall|xx: int, yy: int|
                in_grid(xx, yy, w as int, h as int) && yy < y
                    ==> #[trigger] ix_sq.px(xx, yy) == tdiv(gx.px(xx, yy), 32) * tdiv(gx.px(xx, yy), 32),
            forall|xx: int, yy: int|
                in_grid(xx, yy, w as int, h as int) && yy < y
                    ==> #[trigger] iy_sq.px(xx, yy) == tdiv(gy.px(xx, yy), 32) * tdiv(gy.px(xx, yy), 32),
            forall|xx: int, yy: int|
                in_grid(xx, yy, w as int, h as int) && yy < y
                    ==> #[trigger] ix_iy.px(xx, yy) == tdiv(gx.px(xx, yy), 32) * tdiv(gy.px(xx, yy), 32),
        decreases h - y,
    {
        let mut x: u32 = 0;
        while x < w
            invariant
                gx.wf(),
                gy.wf(),
                w == gx.width && h == gx.height,
                w == gy.width && h == gy.height,
                forall|xx: int, yy: int|
                    in_grid(xx, yy, w as int, h as int) ==> -4080 <= #[trigger] gx.px(xx, yy) <= 4080,
                forall|xx: int, yy: int|
                    in_grid(xx, yy, w as int, h as int) ==> -4080 <= #[trigger] gy.px(xx, yy) <= 4080,
                y < h,
                x <= w,
                ix_sq.wf() && ix_sq.width == w && ix_sq.height == h,
                iy_sq.wf() && iy_sq.width == w && iy_sq.height == h,
                ix_iy.wf() && ix_iy.width == w && ix_iy.height == h,
                forall|xx: int, yy: int|
                    in_grid(xx, yy, w as int, h as int) && (yy < y || (yy == y && xx < x))
                        ==> #[trigger] ix_sq.px(xx, yy) == tdiv(gx.px(xx, yy), 32) * tdiv(gx.px(xx, yy), 32),
                forall|xx: int, yy: int|
                    in_grid(xx, yy, w as int, h as int) && (yy < y || (yy == y && xx < x))
                        ==> #[trigger] iy_sq.px(xx, yy) == tdiv(gy.px(xx, yy), 32) * tdiv(gy.px(xx, yy), 32),
                forall|xx: int, yy: int|
                    in_grid(xx, yy, w as int, h as int) && (yy < y || (yy == y && xx < x))
                        ==> #[trigger] ix_iy.px(xx, yy) == tdiv(gx.px(xx, yy), 32) * tdiv(gy.px(xx, yy), 32),
            decreases w - x,
        {
            let ix: i64 = gx.get(x, y) as i64;
            let iy: i64 = gy.get(x, y) as i64;
            let qx: i64 = if ix >= 0 { ix / 32 } else { -((-ix) / 32) };
            let qy: i64 = if iy >= 0 { iy / 32 } else { -((-iy) / 32) };
            proof {
                assert(qx as int == tdiv(ix as int, 32));
                assert(qy as int == tdiv(iy as int, 32));
                assert(-127 <= qx <= 127 && -127 <= qy <= 127);
                assert(qx * qx <= 16129 && -16129 <= qx * qx) by (nonlinear_arith)
                    requires
                        -127 <= qx <= 127,
                ;
                assert(qy * qy <= 16129 && -16129 <= qy * qy) by (nonlinear_arith)
                    requires
                        -127 <= qy <= 127,
                ;
                assert(-16129 <= qx * qy <= 16129) by (nonlinear_arith)
                    requires
                        -127 <= qx <= 127,
                        -127 <= qy <= 127,
                ;
            }
            ix_sq.set(x, y, (qx * qx) as i16);
            iy_sq.set(x, y, (qy * qy) as i16);
            ix_iy.set(x, y, (qx * qy) as i16);
            x = x + 1;
        }
        y = y + 1;
    }
    (ix_sq, iy_sq, ix_iy)
}

/// Scores every pixel of the smoothed product rasters: one feature per
/// pixel, row-major, carrying the score sqrt(trace - discriminant)/2.
pub fn compute_min_eigenvalues(a: &RasterI16, b: &RasterI16, c: &RasterI16) -> (r: Vec<Feature>)
    requires
        a.wf(),
        b.wf(),
        c.wf(),
        a.width == b.width && a.height == b.height,
        a.width == c.width && a.height == c.height,
    ensures
        r@.len() == a.width as int * a.height as int,
        forall|k: int| 0 <= k < r@.len() ==> {
            let x = k % a.width as int;
            let y = k / a.width as int;
            #[trigger] r@[k] == (x as u32, y as u32, score_of(eig_t(*a, *b, *c, x, y)))
        },
        forall|k: int| 0 <= k < r@.len()
            ==> (#[trigger] r@[k]).0 as int == k % a.width as int
                && r@[k].1 as int == k / a.width as int,
{
    let w: u32 = a.width;
    let h: u32 = a.height;
    let mut features: Vec<Feature> = Vec::new();
    let mut y: u32 = 0;
    while y < h
        invariant
            a.wf() && b.wf() && c.wf(),
            w == a.width && h == a.height,
            w == b.width && h == b.height,
            w == c.width && h == c.height,
            y <= h,
            features@.len() == y as int * w as int,
            forall|k: int| 0 <= k < features@.len() ==> {
                let x = k % w as int;
                let yy = k / w as int;
                #[trigger] features@[k] == (x as u32, yy as u32, score_of(eig_t(*a, *b, *c, x, yy)))
            },
        decreases h - y,
    {
        let mut x: u32 = 0;
        proof {
            assert(y as int * w as int + 0 == y as int * w as int);
        }
        while x < w
            invariant
                a.wf() && b.wf() && c.wf(),
                w == a.width && h == a.height,
                w == b.width && h == b.height,
                w == c.width && h == c.height,
                y < h,
                x <= w,
                features@.len() == y as int * w as int + x as int,
                forall|k: int| 0 <= k < features@.len() ==> {
                    let xx = k % w as int;
                    let yy = k / w as int;
                    #[trigger] features@[k] == (xx as u32, yy as u32, score_of(eig_t(*a, *b, *c, xx, yy)))
                },
            decreases w - x,
        {
            let av: i64 = a.get(x, y) as i64;
            let bv: i64 = b.get(x, y) as i64;
            let cv: i64 = c.get(x, y) as i64;
            let trace: i64 = av + bv;
            proof {
                assert((av - bv) * (av - bv) <= 0x2_0000_0000i64 as int
                    && 0 <= (av - bv) * (av - bv)) by (nonlinear_arith)
                    requires
                        -65536 <= av - bv <= 65536,
                ;
                assert(0 <= cv * cv <= 0x4000_0000i64 as int) by (nonlinear_arith)
                    requires
                        -32768 <= cv <= 32767,
                ;
            }
            let discriminant: i64 = (av - bv) * (av - bv) + 4 * (cv * cv);
            let t: i64 = trace - discriminant;
            let score: u32 = score_from_t(t);
            features.push((x, y, score));
            proof {
                let k = features@.len() - 1;
                assert(k == y as int * w as int + x as int);
                vstd::arithmetic::div_mod::lemma_fundamental_div_mod_converse(
                    k, w as int, y as int, x as int);
                assert(features@[k] == (x, y, score_of(eig_t(*a, *b, *c, x as int, y as int))));
            }
            x = x + 1;
        }
        proof {
            assert((y as int + 1) * w as int == y as int * w as int + w as int)
                by (nonlinear_arith);
        }
        y = y + 1;
    }
    proof {
        assert(h as int * w as int == w as int * h as int) by (nonlinear_arith);
        assert forall|k: int| 0 <= k < features@.len()
            implies (#[trigger] features@[k]).0 as int == k % w as int
                && features@[k].1 as int == k / w as int by {
            assert(w as int >= 1 && h as int >= 1) by (nonlinear_arith)
                requires
                    0 <= k,
                    k < w as int * h as int,
                    w as int >= 0,
                    h as int >= 0,
            ;
            vstd::arithmetic::div_mod::lemma_mod_bound(k, w as int);
            vstd::arithmetic::div_mod::lemma_div_pos_is_pos(k, w as int);
            vstd::arithmetic::div_mod::lemma_multiply_divide_lt(k, w as int, h as int);
        }
    }
    features
}

/// The score held at grid position (x, y) of a row-major feature list.
pub open spec fn grid_score(s: Seq<Feature>, w: int, x: int, y: int) -> u32 {
    s[y * w + x].2
}

/// A feature survives suppression when it lies strictly inside the
/// border and no neighbouring score is strictly greater than its own.
pub open spec fn nms_keep(s: Seq<Feature>, w: int, h: int, e: Feature) -> bool {
    &&& interior(e.0 as int, e.1 as int, w, h)
    &&& forall|dx: int, dy: int|
        -1 <= dx <= 1 && -1 <= dy <= 1 && !(dx == 0 && dy == 0)
            ==> !gt_bits(#[trigger] grid_score(s, w, e.0 as int + dx, e.1 as int + dy), e.2)
}

/// The first `k` features of `s`, kept in order, with every feature
/// that fails suppression dropped.
pub open spec fn nms_filtered(s: Seq<Feature>, w: int, h: int, k: int) -> Seq<Feature>
    decreases k,
{
    if k <= 0 {
        Seq::empty()
    } else if nms_keep(s, w, h, s[k - 1]) {
        nms_filtered(s, w, h, k - 1).push(s[k - 1])
    } else {
        nms_filtered(s, w, h, k - 1)
    }
}

/// Every survivor of suppression is one of the inputs and satisfies
/// the survival condition.
pub proof fn lemma_nms_filtered_props(s: Seq<Feature>, w: int, h: int, k: int)
    requires
        0 <= k <= s.len(),
    ensures
        forall|i: int| 0 <= i < nms_filtered(s, w, h, k).len()
            ==> nms_keep(s, w, h, #[trigger] nms_filtered(s, w, h, k)[i])
                && s.contains(nms_filtered(s, w, h, k)[i]),
    decreases k,
{
    if k > 0 {
        lemma_nms_filtered_props(s, w, h, k - 1);
        let f = nms_filtered(s, w, h, k);
        let fp = nms_filtered(s, w, h, k - 1);
        assert(s.contains(s[k - 1])) by {
            assert(s[k - 1] == s[k - 1]);
        }
        if nms_keep(s, w, h, s[k - 1]) {
            assert forall|i: int| 0 <= i < f.len()
                implies nms_keep(s, w, h, #[trigger] f[i]) && s.contains(f[i]) by {
                if i < fp.len() {
                    assert(f[i] == fp[i]);
                } else {
                    assert(f[i] == s[k - 1]);
                }
            }
        }
    }
}

/// Whether one of the eight neighbours of (x, y) holds a strictly
/// greater score.
fn has_greater_neighbor(features: &Vec<Feature>, w: u32, h: u32, x: u32, y: u32) -> (r: bool)
    requires
        features@.len() == w as int * h as int,
        interior(x as int, y as int, w as int, h as int),
    ensures
        !r <==> forall|dx: int, dy: int|
            -1 <= dx <= 1 && -1 <= dy <= 1 && !(dx == 0 && dy == 0)
                ==> !gt_bits(
                    #[trigger] grid_score(features@, w as int, x as int + dx, y as int + dy),
                    grid_score(features@, w as int, x as int, y as int)),
{
    let n: usize = features.len();
    proof {
        crate::raster::lemma_rm_idx_bounds(x as int, y as int, w as int, h as int);
        crate::raster::lemma_rm_idx_bounds(x as int - 1, y as int - 1, w as int, h as int);
        crate::raster::lemma_rm_idx_bounds(x as int, y as int - 1, w as int, h as int);
        crate::raster::lemma_rm_idx_bounds(x as int + 1, y as int - 1, w as int, h as int);
        crate::raster::lemma_rm_idx_bounds(x as int - 1, y as int, w as int, h as int);
        crate::raster::lemma_rm_idx_bounds(x as int + 1, y as int, w as int, h as int);
        crate::raster::lemma_rm_idx_bounds(x as int - 1, y as int + 1, w as int, h as int);
        crate::raster::lemma_rm_idx_bounds(x as int, y as int + 1, w as int, h as int);
        crate::raster::lemma_rm_idx_bounds(x as int + 1, y as int + 1, w as int, h as int);
    }
    let cur: u32 = features[(y as usize) * (w as usize) + (x as usize)].2;
    let g0 = f_gt(features[(y as usize - 1) * (w as usize) + (x as usize - 1)].2, cur);
    let g1 = f_gt(features[(y as usize - 1) * (w as usize) + (x as usize)].2, cur);
    let g2 = f_gt(features[(y as usize - 1) * (w as usize) + (x as usize + 1)].2, cur);
    let g3 = f_gt(features[(y as usize) * (w as usize) + (x as usize - 1)].2, cur);
    let g4 = f_gt(features[(y as usize) * (w as usize) + (x as usize + 1)].2, cur);
    let g5 = f_gt(features[(y as usize + 1) * (w as usize) + (x as usize - 1)].2, cur);
    let g6 = f_gt(features[(y as usize + 1) * (w as usize) + (x as usize)].2, cur);
    let g7 = f_gt(features[(y as usize + 1) * (w as usize) + (x as usize + 1)].2, cur);
    let found: bool = g0 || g1 || g2 || g3 || g4 || g5 || g6 || g7;
    proof {
        assert(cur == grid_score(features@, w as int, x as int, y as int));
        assert(g0 == gt_bits(grid_score(features@, w as int, x as int - 1, y as int - 1), cur));
        assert(g1 == gt_bits(grid_score(features@, w as int, x as int, y as int - 1), cur));
        assert(g2 == gt_bits(grid_score(features@, w as int, x as int + 1, y as int - 1), cur));
        assert(g3 == gt_bits(grid_score(features@, w as int, x as int - 1, y as int), cur));
        assert(g4 == gt_bits(grid_score(features@, w as int, x as int + 1, y as int), cur));
        assert(g5 == gt_bits(grid_score(features@, w as int, x as int - 1, y as int + 1), cur));
        assert(g6 == gt_bits(grid_score(features@, w as int, x as int, y as int + 1), cur));
        assert(g7 == gt_bits(grid_score(features@, w as int, x as int + 1, y as int + 1), cur));
        if found {
            if g0 {
                assert(gt_bits(grid_score(features@, w as int, x as int + (-1), y as int + (-1)), cur));
            } else if g1 {
                assert(gt_bits(grid_score(features@, w as int, x as int + 0, y as int + (-1)), cur));
            } else if g2 {
                assert(gt_bits(grid_score(features@, w as int, x as int + 1, y as int + (-1)), cur));
            } else if g3 {
                assert(gt_bits(grid_score(features@, w as int, x as int + (-1), y as int + 0), cur));
            } else if g4 {
                assert(gt_bits(grid_score(features@, w as int, x as int + 1, y as int + 0), cur));
            } else if g5 {
                assert(gt_bits(grid_score(features@, w as int, x as int + (-1), y as int + 1), cur));
            } else if g6 {
                assert(gt_bits(grid_score(features@, w as int, x as int + 0, y as int + 1), cur));
            } else {
                assert(gt_bits(grid_score(features@, w as int, x as int + 1, y as int + 1), cur));
            }
        }
        if !found {
            assert forall|dx: int, dy: int|
                -1 <= dx <= 1 && -1 <= dy <= 1 && !(dx == 0 && dy == 0)
                    implies !gt_bits(
                        #[trigger] grid_score(features@, w as int, x as int + dx, y as int + dy),
                        cur) by {
                if dy == -1 {
                    if dx == -1 {
                        assert(!g0);
                    } else if dx == 0 {
                        assert(!g1);
                    } else {
                        assert(!g2);
                    }
                } else if dy == 0 {
                    if dx == -1 {
                        assert(!g3);
                    } else {
                        assert(!g4);
                    }
                } else {
                    if dx == -1 {
                        assert(!g5);
                    } else if dx == 0 {
                        assert(!g6);
                    } else {
                        assert(!g7);
                    }
                }
            }
        }
    }
    found
}

/// Non-maximum suppression: keeps the strictly interior features whose
/// eight neighbours all score no higher, preserving row-major order.
pub fn non_maximum_suppression(features: &mut Vec<Feature>, width: u32, height: u32)
    requires
        old(features)@.len() == width as int * height as int,
        forall|k: int| 0 <= k < old(features)@.len()
            ==> (#[trigger] old(features)@[k]).0 as int == k % width as int
                && old(features)@[k].1 as int == k / width as int,
    ensures
        final(features)@ == nms_filtered(
            old(features)@, width as int, height as int, old(features)@.len() as int),
        forall|i: int| 0 <= i < final(features)@.len()
            ==> nms_keep(old(features)@, width as int, height as int, #[trigger] final(features)@[i])
                && old(features)@.contains(final(features)@[i]),
{
    let w: u32 = width;
    let h: u32 = height;
    let n: usize = features.len();
    let mut out: Vec<Feature> = Vec::new();
    let mut k: usize = 0;
    while k < n
        invariant
            features@ == old(features)@,
            features@.len() == w as int * h as int,
            n == features@.len(),
            w == width && h == height,
            forall|kk: int| 0 <= kk < features@.len()
                ==> (#[trigger] features@[kk]).0 as int == kk % w as int
                    && features@[kk].1 as int == kk / w as int,
            k <= n,
            out@ == nms_filtered(features@, w as int, h as int, k as int),
        decreases n - k,
    {
        let e = features[k];
        let ex: u32 = e.0;
        let ey: u32 = e.1;
        proof {
            assert(w as int >= 1 && h as int >= 1) by (nonlinear_arith)
                requires
                    0 <= k as int,
                    (k as int) < w as int * h as int,
                    w as int >= 0,
                    h as int >= 0,
            ;
            assert(features@[k as int].0 as int == k as int % w as int);
            vstd::arithmetic::div_mod::lemma_mod_bound(k as int, w as int);
            vstd::arithmetic::div_mod::lemma_div_pos_is_pos(k as int, w as int);
            vstd::arithmetic::div_mod::lemma_multiply_divide_lt(k as int, w as int, h as int);
            vstd::arithmetic::div_mod::lemma_fundamental_div_mod(k as int, w as int);
        }
        let keep: bool = if 1 <= ex && ex + 1 < w && 1 <= ey && ey + 1 < h {
            !has_greater_neighbor(features, w, h, ex, ey)
        } else {
            false
        };
        proof {
            crate::raster::lemma_rm_idx_bounds(ex as int, ey as int, w as int, h as int);
            assert(ey as int * w as int + ex as int == k as int) by (nonlinear_arith)
                requires
                    k as int == w as int * (k as int / w as int) + k as int % w as int,
                    ex as int == k as int % w as int,
                    ey as int == k as int / w as int,
            ;
            assert(grid_score(features@, w as int, ex as int, ey as int) == e.2);
            assert(keep == nms_keep(features@, w as int, h as int, e));
        }
        if keep {
            out.push(e);
        }
        k = k + 1;
    }
    proof {
        lemma_nms_filtered_props(features@, w as int, h as int, n as int);
    }
    *features = out;
}

/// The running maximum of the first `k` scores, folded from 0.0 with
/// the standard float maximum.
pub open spec fn fold_max_q(s: Seq<Feature>, k: int) -> u32
    decreases k,
{
    if k <= 0 {
        F32_ZERO_BITS
    } else {
        max_bits(fold_max_q(s, k - 1), s[k - 1].2)
    }
}

/// The first `k` features whose score is at least the threshold, in
/// order.
pub open spec fn quality_filtered(s: Seq<Feature>, thr: u32, k: int) -> Seq<Feature>
    decreases k,
{
    if k <= 0 {
        Seq::empty()
    } else if ge_bits(s[k - 1].2, thr) {
        quality_filtered(s, thr, k - 1).push(s[k - 1])
    } else {
        quality_filtered(s, thr, k - 1)
    }
}

/// Every feature that passes the quality filter is one of the inputs.
pub proof fn lemma_quality_filtered_props(s: Seq<Feature>, thr: u32, k: int)
    requires
        0 <= k <= s.len(),
    ensures
        forall|i: int| 0 <= i < quality_filtered(s, thr, k).len()
            ==> s.contains(#[trigger] quality_filtered(s, thr, k)[i]),
    decreases k,
{
    if k > 0 {
        lemma_quality_filtered_props(s, thr, k - 1);
        let f = quality_filtered(s, thr, k);
        let fp = quality_filtered(s, thr, k - 1);
        assert(s.contains(s[k - 1])) by {
            assert(s[k - 1] == s[k - 1]);
        }
        if ge_bits(s[k - 1].2, thr) {
            assert forall|i: int| 0 <= i < f.len()
                implies s.contains(#[trigger] f[i]) by {
                if i < fp.len() {
                    assert(f[i] == fp[i]);
                } else {
                    assert(f[i] == s[k - 1]);
                }
            }
        }
    }
}

/// Quality filtering: keeps the features scoring at least
/// quality_level times the maximum score.
pub fn filter_by_quality(features: &mut Vec<Feature>, quality_level: u32)
    ensures
        final(features)@ == quality_filtered(
            old(features)@,
            mul_bits(quality_level, fold_max_q(old(features)@, old(features)@.len() as int)),
            old(features)@.len() as int),
        forall|i: int| 0 <= i < final(features)@.len()
            ==> old(features)@.contains(#[trigger] final(features)@[i]),
{
    let n: usize = features.len();
    let mut max_q: u32 = F32_ZERO_BITS;
    let mut k: usize = 0;
    while k < n
        invariant
            n == features@.len(),
            k <= n,
            max_q == fold_max_q(features@, k as int),
        decreases n - k,
    {
        max_q = f_max(max_q, features[k].2);
        k = k + 1;
    }
    let threshold: u32 = f_mul(quality_level, max_q);
    let mut out: Vec<Feature> = Vec::new();
    let mut k2: usize = 0;
    while k2 < n
        invariant
            n == features@.len(),
            k2 <= n,
            threshold == mul_bits(quality_level, fold_max_q(features@, n as int)),
            out@ == quality_filtered(features@, threshold, k2 as int),
        decreases n - k2,
    {
        let e = features[k2];
        if f_ge(e.2, threshold) {
            out.push(e);
        }
        k2 = k2 + 1;
    }
    proof {
        lemma_quality_filtered_props(features@, threshold, n as int);
    }
    *features = out;
}

/// Sorts features by strictly-greater score moves: afterwards no
/// feature's score is strictly greater than its predecessor's, and
/// every feature came from the input.
pub fn sort_features(features: &mut Vec<Feature>)
    ensures
        final(features)@.len() == old(features)@.len(),
        forall|i: int| 0 <= i < final(features)@.len()
            ==> old(features)@.contains(#[trigger] final(features)@[i]),
        forall|i: int| 0 < i < final(features)@.len()
            ==> !gt_bits(#[trigger] final(features)@[i].2, final(features)@[i - 1].2),
{
    let n: usize = features.len();
    let mut i: usize = if n == 0 { 0 } else { 1 };
    while i < n
        invariant
            n == features@.len(),
            n > 0 ==> 1 <= i,
            i <= n,
            forall|k: int| 0 <= k < features@.len()
                ==> old(features)@.contains(#[trigger] features@[k]),
            forall|k: int| 0 < k < i ==> !gt_bits(#[trigger] features@[k].2, features@[k - 1].2),
        decreases n - i,
    {
        let mut j: usize = i;
        while j > 0 && f_gt(features[j].2, features[j - 1].2)
            invariant
                n == features@.len(),
                1 <= i < n,
                j <= i,
                forall|k: int| 0 <= k < features@.len()
                    ==> old(features)@.contains(#[trigger] features@[k]),
                forall|k: int| 0 < k <= i && k != j
                    ==> !gt_bits(#[trigger] features@[k].2, features@[k - 1].2),
                j + 1 <= i && j >= 1 ==> !gt_bits(features@[j as int + 1].2, features@[j as int - 1].2),
            decreases j,
        {
            let a = features[j];
            let b = features[j - 1];
            features.set(j, b);
            features.set(j - 1, a);
            j = j - 1;
        }
        i = i + 1;
    }
}

/// The cell of the occupancy grid a feature falls in.
pub open spec fn cell_of(e: Feature, d: int) -> (int, int) {
    ((e.0 as int) / d, (e.1 as int) / d)
}

/// Whether a recorded point within the 3x3 cell neighbourhood lies
/// closer than the minimum distance.
pub open spec fn too_close(
    g: Map<(int, int), (u32, u32)>,
    e: Feature,
    d: int,
    gw: int,
    gh: int,
) -> bool {
    exists|cx: int, cy: int|
        cell_of(e, d).0 - 1 <= cx <= cell_of(e, d).0 + 1
            && cell_of(e, d).1 - 1 <= cy <= cell_of(e, d).1 + 1
            && 0 <= cx < gw && 0 <= cy < gh
            && #[trigger] g.contains_key((cx, cy))
            && (e.0 as int - g[(cx, cy)].0 as int) * (e.0 as int - g[(cx, cy)].0 as int)
                + (e.1 as int - g[(cx, cy)].1 as int) * (e.1 as int - g[(cx, cy)].1 as int)
                < d * d
}

/// The greedy spatial filter after the first `k` features: the
/// accepted features in order and the occupancy grid, one recorded
/// point per cell, the later recording overwriting the earlier.
pub open spec fn dist_filtered(s: Seq<Feature>, d: int, gw: int, gh: int, k: int) -> (
    Seq<Feature>,
    Map<(int, int), (u32, u32)>,
)
    decreases k,
{
    if k <= 0 {
        (Seq::empty(), Map::empty())
    } else {
        let prev = dist_filtered(s, d, gw, gh, k - 1);
        let e = s[k - 1];
        if !too_close(prev.1, e, d, gw, gh) {
            (prev.0.push(e), prev.1.insert(cell_of(e, d), (e.0, e.1)))
        } else {
            prev
        }
    }
}

/// Every feature the spatial filter accepts is one of its inputs.
pub proof fn lemma_dist_filtered_props(s: Seq<Feature>, d: int, gw: int, gh: int, k: int)
    requires
        0 <= k <= s.len(),
    ensures
        forall|i: int| 0 <= i < dist_filtered(s, d, gw, gh, k).0.len()
            ==> s.contains(#[trigger] dist_filtered(s, d, gw, gh, k).0[i]),
    decreases k,
{
    if k > 0 {
        lemma_dist_filtered_props(s, d, gw, gh, k - 1);
        let f = dist_filtered(s, d, gw, gh, k).0;
        let fp = dist_filtered(s, d, gw, gh, k - 1).0;
        assert(s.contains(s[k - 1])) by {
            assert(s[k - 1] == s[k - 1]);
        }
        if !too_close(dist_filtered(s, d, gw, gh, k - 1).1, s[k - 1], d, gw, gh) {
            assert forall|i: int| 0 <= i < f.len()
                implies s.contains(#[trigger] f[i]) by {
                if i < fp.len() {
                    assert(f[i] == fp[i]);
                } else {
                    assert(f[i] == s[k - 1]);
                }
            }
        }
    }
}

/// The cell index of any coordinate below `w` lies below the grid side
/// `w / d`, rounded up.
proof fn lemma_cell_bound(x: int, w: int, d: int)
    requires
        0 <= x < w,
        d >= 1,
    ensures
        x / d < w / d + (if w % d != 0 { 1int } else { 0int }),
        x / d >= 0,
{
    vstd::arithmetic::div_mod::lemma_div_pos_is_pos(x, d);
    vstd::arithmetic::div_mod::lemma_div_is_ordered(x, w - 1, d);
    let q = w / d;
    let r = w % d;
    vstd::arithmetic::div_mod::lemma_fundamental_div_mod(w, d);
    if r == 0 {
        assert((q - 1) * d + (d - 1) == w - 1) by (nonlinear_arith)
            requires
                w == d * q,
                d >= 1,
        ;
        vstd::arithmetic::div_mod::lemma_fundamental_div_mod_converse(w - 1, d, q - 1, d - 1);
    } else {
        assert(q * d + (r - 1) == w - 1) by (nonlinear_arith)
            requires
                w == d * q + r,
        ;
        vstd::arithmetic::div_mod::lemma_fundamental_div_mod_converse(w - 1, d, q, r - 1);
    }
}

/// One cell probe of the occupancy grid.
fn cell_check(
    grid: &Vec<Vec<Option<(u32, u32)>>>,
    cx: i64,
    cy: i64,
    gw: u32,
    gh: u32,
    e: Feature,
    dd: i64,
    Ghost(gmap): Ghost<Map<(int, int), (u32, u32)>>,
) -> (r: bool)
    requires
        grid@.len() == gw as int,
        forall|ci: int| 0 <= ci < gw as int ==> (#[trigger] grid@[ci])@.len() == gh as int,
        forall|ci: int, cj: int| 0 <= ci < gw as int && 0 <= cj < gh as int
            ==> (#[trigger] grid@[ci]@[cj]) == (if gmap.contains_key((ci, cj)) {
                Some(gmap[(ci, cj)])
            } else {
                None::<(u32, u32)>
            }),
        e.0 <= 0x7FFF_FFFF,
        e.1 <= 0x7FFF_FFFF,
        forall|key: (int, int)| #[trigger] gmap.contains_key(key)
            ==> gmap[key].0 <= 0x7FFF_FFFF && gmap[key].1 <= 0x7FFF_FFFF,
        dd == 0x7FFF_FFFF || dd >= 0,
    ensures
        r == (0 <= cx as int && (cx as int) < gw as int && 0 <= cy as int && (cy as int) < gh as int
            && gmap.contains_key((cx as int, cy as int))
            && (e.0 as int - gmap[(cx as int, cy as int)].0 as int)
                * (e.0 as int - gmap[(cx as int, cy as int)].0 as int)
                + (e.1 as int - gmap[(cx as int, cy as int)].1 as int)
                    * (e.1 as int - gmap[(cx as int, cy as int)].1 as int) < dd as int),
{
    if 0 <= cx && cx < gw as i64 && 0 <= cy && cy < gh as i64 {
        match grid[cx as usize][cy as usize] {
            Some(p) => {
                let ddx: i64 = e.0 as i64 - p.0 as i64;
                let ddy: i64 = e.1 as i64 - p.1 as i64;
                proof {
                    assert(ddx * ddx <= 0x3FFF_FFFF_0000_0001 && 0 <= ddx * ddx)
                        by (nonlinear_arith)
                        requires
                            -0x7FFF_FFFF <= ddx <= 0x7FFF_FFFF,
                    ;
                    assert(ddy * ddy <= 0x3FFF_FFFF_0000_0001 && 0 <= ddy * ddy)
                        by (nonlinear_arith)
                        requires
                            -0x7FFF_FFFF <= ddy <= 0x7FFF_FFFF,
                    ;
                }
                ddx * ddx + ddy * ddy < dd
            },
            None => false,
        }
    } else {
        false
    }
}

/// Greedy spatial filtering over an occupancy grid of cells of side
/// `min_distance`: features are taken in the given order, rejected
/// when a recorded point in the surrounding 3x3 cells lies closer than
/// the minimum distance, and otherwise accepted and recorded in their
/// own cell.
pub fn filter_by_distance(features: &Vec<Feature>, min_distance: u32, width: u32, height: u32)
    -> (r: Vec<Feature>)
    requires
        min_distance >= 1,
        min_distance <= 0xFFFF,
        width >= 1,
        height >= 1,
        width <= 0x7FFF_FFFF,
        height <= 0x7FFF_FFFF,
        forall|i: int| 0 <= i < features@.len()
            ==> (#[trigger] features@[i]).0 < width && features@[i].1 < height,
    ensures
        r@ == dist_filtered(
            features@,
            min_distance as int,
            width as int / min_distance as int
                + (if width as int % min_distance as int != 0 { 1int } else { 0int }),
            height as int / min_distance as int
                + (if height as int % min_distance as int != 0 { 1int } else { 0int }),
            features@.len() as int).0,
        forall|i: int| 0 <= i < r@.len() ==> features@.contains(#[trigger] r@[i]),
{
    let cell_size: u32 = min_distance;
    let gw: u32 = width / cell_size + (if width % cell_size != 0 { 1 } else { 0 });
    let gh: u32 = height / cell_size + (if height % cell_size != 0 { 1 } else { 0 });
    let mut grid: Vec<Vec<Option<(u32, u32)>>> = Vec::new();
    let mut ci: u32 = 0;
    while ci < gw
        invariant
            ci <= gw,
            grid@.len() == ci as int,
            forall|a: int| 0 <= a < ci as int ==> (#[trigger] grid@[a])@.len() == gh as int,
            forall|a: int, b: int| 0 <= a < ci as int && 0 <= b < gh as int
                ==> (#[trigger] grid@[a]@[b]) == None::<(u32, u32)>,
        decreases gw - ci,
    {
        let mut col: Vec<Option<(u32, u32)>> = Vec::new();
        let mut cj: u32 = 0;
        while cj < gh
            invariant
                cj <= gh,
                col@.len() == cj as int,
                forall|b: int| 0 <= b < cj as int ==> (#[trigger] col@[b]) == None::<(u32, u32)>,
            decreases gh - cj,
        {
            col.push(None);
            cj = cj + 1;
        }
        grid.push(col);
        ci = ci + 1;
    }
    let mut result: Vec<Feature> = Vec::new();
    let ghost d = min_distance as int;
    let ghost gwi = gw as int;
    let ghost ghi = gh as int;
    proof {
        assert(min_distance as int * min_distance as int <= 0xFFFE_0001) by (nonlinear_arith)
            requires
                min_distance as int <= 0xFFFF,
        ;
    }
    let dd: i64 = (min_distance as i64) * (min_distance as i64);
    let n: usize = features.len();
    let mut k: usize = 0;
    while k < n
        invariant
            min_distance >= 1,
            cell_size == min_distance,
            width >= 1 && height >= 1,
            width <= 0x7FFF_FFFF && height <= 0x7FFF_FFFF,
            forall|i: int| 0 <= i < features@.len()
                ==> (#[trigger] features@[i]).0 < width && features@[i].1 < height,
            n == features@.len(),
            k <= n,
            d == min_distance as int,
            gwi == gw as int,
            ghi == gh as int,
            gwi == width as int / d + (if width as int % d != 0 { 1int } else { 0int }),
            ghi == height as int / d + (if height as int % d != 0 { 1int } else { 0int }),
            dd == d * d,
            0 <= dd,
            grid@.len() == gw as int,
            forall|a: int| 0 <= a < gw as int ==> (#[trigger] grid@[a])@.len() == gh as int,
            result@ == dist_filtered(features@, d, gwi, ghi, k as int).0,
            forall|a: int, b: int| 0 <= a < gw as int && 0 <= b < gh as int
                ==> (#[trigger] grid@[a]@[b])
                    == (if dist_filtered(features@, d, gwi, ghi, k as int).1.contains_key((a, b)) {
                        Some(dist_filtered(features@, d, gwi, ghi, k as int).1[(a, b)])
                    } else {
                        None::<(u32, u32)>
                    }),
            forall|key: (int, int)|
                #[trigger] dist_filtered(features@, d, gwi, ghi, k as int).1.contains_key(key)
                    ==> dist_filtered(features@, d, gwi, ghi, k as int).1[key].0 <= 0x7FFF_FFFF
                        && dist_filtered(features@, d, gwi, ghi, k as int).1[key].1 <= 0x7FFF_FFFF,
        decreases n - k,
    {
        let ghost gmap = dist_filtered(features@, d, gwi, ghi, k as int).1;
        let e = features[k];
        let cx: u32 = e.0 / cell_size;
        let cy: u32 = e.1 / cell_size;
        proof {
            lemma_cell_bound(e.0 as int, width as int, d);
            lemma_cell_bound(e.1 as int, height as int, d);
            assert(cx as int == cell_of(e, d).0);
            assert(cy as int == cell_of(e, d).1);
        }
        let c0 = cell_check(&grid, cx as i64 - 1, cy as i64 - 1, gw, gh, e, dd, Ghost(gmap));
        let c1 = cell_check(&grid, cx as i64 - 1, cy as i64, gw, gh, e, dd, Ghost(gmap));
        let c2 = cell_check(&grid, cx as i64 - 1, cy as i64 + 1, gw, gh, e, dd, Ghost(gmap));
        let c3 = cell_check(&grid, cx as i64, cy as i64 - 1, gw, gh, e, dd, Ghost(gmap));
        let c4 = cell_check(&grid, cx as i64, cy as i64, gw, gh, e, dd, Ghost(gmap));
        let c5 = cell_check(&grid, cx as i64, cy as i64 + 1, gw, gh, e, dd, Ghost(gmap));
        let c6 = cell_check(&grid, cx as i64 + 1, cy as i64 - 1, gw, gh, e, dd, Ghost(gmap));
        let c7 = cell_check(&grid, cx as i64 + 1, cy as i64, gw, gh, e, dd, Ghost(gmap));
        let c8 = cell_check(&grid, cx as i64 + 1, cy as i64 + 1, gw, gh, e, dd, Ghost(gmap));
        let tc: bool = c0 || c1 || c2 || c3 || c4 || c5 || c6 || c7 || c8;
        proof {
            if tc {
                assert(too_close(gmap, e, d, gwi, ghi));
            }
            if too_close(gmap, e, d, gwi, ghi) {
                let (wx, wy) = choose|cxx: int, cyy: int|
                    cell_of(e, d).0 - 1 <= cxx <= cell_of(e, d).0 + 1
                        && cell_of(e, d).1 - 1 <= cyy <= cell_of(e, d).1 + 1
                        && 0 <= cxx < gwi && 0 <= cyy < ghi
                        && #[trigger] gmap.contains_key((cxx, cyy))
                        && (e.0 as int - gmap[(cxx, cyy)].0 as int)
                            * (e.0 as int - gmap[(cxx, cyy)].0 as int)
                            + (e.1 as int - gmap[(cxx, cyy)].1 as int)
                                * (e.1 as int - gmap[(cxx, cyy)].1 as int) < d * d;
                assert(tc);
            }
        }
        if !tc {
            result.push(e);
            let mut col = Vec::new();
            std::mem::swap(&mut col, &mut grid[cx as usize]);
            col.set(cy as usize, Some((e.0, e.1)));
            std::mem::swap(&mut col, &mut grid[cx as usize]);
        }
        k = k + 1;
    }
    proof {
        lemma_dist_filtered_props(features@, d, gwi, ghi, n as int);
    }
    result
}

/// The row-major grid of scored features over smoothed product rasters.
pub open spec fn eig_grid(a: RasterI16, b: RasterI16, c: RasterI16) -> Seq<Feature> {
    Seq::new(
        (a.width as int * a.height as int) as nat,
        |k: int| (
            (k % a.width as int) as u32,
            (k / a.width as int) as u32,
            score_of(eig_t(a, b, c, k % a.width as int, k / a.width as int)),
        ),
    )
}

/// The detector's result, witnessed stage by stage: (gx, gy) is the
/// Scharr gradient field of the image; (pxx, pyy, pxy) are the
/// normalized gradient products; (sxx, syy, sxy) are those products
/// smoothed; the scored grid is suppressed, thresholded against the
/// maximum surviving score, rearranged into a score-sorted sequence of
/// the same features, and thinned by the greedy occupancy-grid filter.
pub open spec fn detect_pipeline(
    img: RasterU8,
    quality_level: u32,
    min_distance: u32,
    gx: RasterI16,
    gy: RasterI16,
    pxx: RasterI16,
    pyy: RasterI16,
    pxy: RasterI16,
    sxx: RasterI16,
    syy: RasterI16,
    sxy: RasterI16,
    sorted: Seq<Feature>,
    result: Seq<Feature>,
) -> bool {
    let w = img.width as int;
    let h = img.height as int;
    let grid = eig_grid(sxx, syy, sxy);
    let nmsed = nms_filtered(grid, w, h, grid.len() as int);
    let thr = mul_bits(quality_level, fold_max_q(nmsed, nmsed.len() as int));
    let filtered = quality_filtered(nmsed, thr, nmsed.len() as int);
    let d = min_distance as int;
    let gw = w / d + (if w % d != 0 { 1int } else { 0int });
    let gh = h / d + (if h % d != 0 { 1int } else { 0int });
    &&& crate::lk::grads_match(img, gx, gy)
    &&& pxx.wf() && pyy.wf() && pxy.wf()
    &&& pxx.width == img.width && pxx.height == img.height
    &&& pyy.width == img.width && pyy.height == img.height
    &&& pxy.width == img.width && pxy.height == img.height
    &&& forall|x: int, y: int| in_grid(x, y, w, h)
        ==> #[trigger] pxx.px(x, y) == tdiv(gx.px(x, y), 32) * tdiv(gx.px(x, y), 32)
    &&& forall|x: int, y: int| in_grid(x, y, w, h)
        ==> #[trigger] pyy.px(x, y) == tdiv(gy.px(x, y), 32) * tdiv(gy.px(x, y), 32)
    &&& forall|x: int, y: int| in_grid(x, y, w, h)
        ==> #[trigger] pxy.px(x, y) == tdiv(gx.px(x, y), 32) * tdiv(gy.px(x, y), 32)
    &&& sxx.wf() && syy.wf() && sxy.wf()
    &&& sxx.width == img.width && sxx.height == img.height
    &&& syy.width == img.width && syy.height == img.height
    &&& sxy.width == img.width && sxy.height == img.height
    &&& forall|x: int, y: int| in_grid(x, y, w, h)
        ==> #[trigger] sxx.px(x, y) == crate::utils::box_filter_3x3::box3_px(pxx, x, y)
    &&& forall|x: int, y: int| in_grid(x, y, w, h)
        ==> #[trigger] syy.px(x, y) == crate::utils::box_filter_3x3::box3_px(pyy, x, y)
    &&& forall|x: int, y: int| in_grid(x, y, w, h)
        ==> #[trigger] sxy.px(x, y) == crate::utils::box_filter_3x3::box3_px(pxy, x, y)
    &&& sorted.len() == filtered.len()
    &&& forall|i: int| 0 <= i < sorted.len() ==> filtered.contains(#[trigger] sorted[i])
    &&& forall|i: int| 0 < i < sorted.len()
        ==> !gt_bits(#[trigger] sorted[i].2, sorted[i - 1].2)
    &&& result == dist_filtered(sorted, d, gw, gh, sorted.len() as int).0
}

/// Finds well-separated corner features by Shi-Tomasi scoring.
///
/// Gradients are convolved with the Scharr kernels, normalized gradient
/// products are smoothed, every pixel is scored, non-maxima are
/// suppressed, low-quality features are dropped, the rest are ordered
/// by non-increasing score and thinned by the occupancy-grid spatial
/// filter. Every returned feature lies strictly inside the one-pixel
/// border.
pub fn good_features_to_track(image: &RasterU8, quality_level: u32, min_distance: u32) -> (r:
    Vec<Feature>)
    requires
        image.wf(),
        image.width >= 2,
        image.height >= 2,
        image.width <= 0x7FFF_FFFF,
        image.height <= 0x7FFF_FFFF,
        min_distance >= 1,
        min_distance <= 0xFFFF,
    ensures
        forall|i: int| 0 <= i < r@.len()
            ==> 1 <= (#[trigger] r@[i]).0 && r@[i].0 as int + 1 < image.width as int
                && 1 <= r@[i].1 && r@[i].1 as int + 1 < image.height as int,
        exists|gx: RasterI16, gy: RasterI16, pxx: RasterI16, pyy: RasterI16, pxy: RasterI16,
            sxx: RasterI16, syy: RasterI16, sxy: RasterI16, sorted: Seq<Feature>|
            #[trigger] detect_pipeline(*image, quality_level, min_distance, gx, gy, pxx, pyy,
                pxy, sxx, syy, sxy, sorted, r@),
{
    let kernel_x = horizontal_scharr_kernel();
    let kernel_y = vertical_scharr_kernel();
    let (gx, gy) = compute_gradients(image, &kernel_x, &kernel_y);
    proof {
        assert(kernel_x@ =~= crate::lk::scharr_h_vals());
        assert(kernel_y@ =~= crate::lk::scharr_v_vals());
    }
    let (mut ix_sq, mut iy_sq, mut ix_iy) = compute_gradient_products(&gx, &gy);
    let ghost p_xx = ix_sq;
    let ghost p_yy = iy_sq;
    let ghost p_xy = ix_iy;
    box_filter_3x3_in_place(&mut ix_sq);
    box_filter_3x3_in_place(&mut iy_sq);
    box_filter_3x3_in_place(&mut ix_iy);
    let ghost s_xx = ix_sq;
    let ghost s_yy = iy_sq;
    let ghost s_xy = ix_iy;
    let mut features = compute_min_eigenvalues(&ix_sq, &iy_sq, &ix_iy);
    let ghost grid_feats = features@;
    non_maximum_suppression(&mut features, image.width, image.height);
    let ghost after_nms = features@;
    filter_by_quality(&mut features, quality_level);
    let ghost after_quality = features@;
    sort_features(&mut features);
    let ghost after_sort = features@;
    proof {
        assert forall|i: int| 0 <= i < after_sort.len()
            implies 1 <= (#[trigger] after_sort[i]).0 as int
                && after_sort[i].0 as int + 1 < image.width as int
                && 1 <= after_sort[i].1 as int
                && after_sort[i].1 as int + 1 < image.height as int by {
            let e = after_sort[i];
            assert(after_quality.contains(e));
            let j2 = choose|j: int| 0 <= j < after_quality.len() && after_quality[j] == e;
            assert(after_nms.contains(after_quality[j2]));
            let j1 = choose|j: int| 0 <= j < after_nms.len() && after_nms[j] == e;
            assert(nms_keep(grid_feats, image.width as int, image.height as int, after_nms[j1]));
        }
    }
    let out = filter_by_distance(&features, min_distance, image.width, image.height);
    proof {
        assert forall|i: int| 0 <= i < out@.len()
            implies 1 <= (#[trigger] out@[i]).0 && out@[i].0 as int + 1 < image.width as int
                && 1 <= out@[i].1 && out@[i].1 as int + 1 < image.height as int by {
            let e = out@[i];
            assert(after_sort.contains(e));
            let j3 = choose|j: int| 0 <= j < after_sort.len() && after_sort[j] == e;
            assert(1 <= after_sort[j3].0 as int);
        }
        assert(eig_grid(s_xx, s_yy, s_xy) =~= grid_feats);
        assert(detect_pipeline(*image, quality_level, min_distance, gx, gy, p_xx, p_yy, p_xy,
            s_xx, s_yy, s_xy, after_sort, out@));
    }
    out
}

} // verus!
