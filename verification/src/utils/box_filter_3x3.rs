use vstd::prelude::*;
use crate::raster::{RasterI16, in_grid};

verus! {

/// Truncating integer division (rounds toward zero), the division the
/// running means of the filter use. `b` is expected positive.
pub open spec fn tdiv(a: int, b: int) -> int {
    if a >= 0 {
        a / b
    } else {
        -((-a) / b)
    }
}

/// Sample count of the sliding window at position `x` in a line of
/// length `w`: 2 or 3 at the ends of the line, 4 in its interior.
pub open spec fn bf_count(w: int, x: int) -> int
    decreases x,
{
    if x <= 0 {
        if w > 2 { 3int } else { 2int }
    } else {
        bf_count(w, x - 1)
            - (if x > 1 { 1int } else { 0int })
            + (if x + 1 < w { 1int } else { 0int })
    }
}

/// Running window sum at position `x` of the in-place pass over `row`.
///
/// The window slides over the line being overwritten, so the sample it
/// drops at `x - 2` is the already written mean, truncated to 16 bits,
/// not the original sample.
pub open spec fn bf_sum(row: Seq<int>, x: int) -> int
    decreases x,
{
    if x <= 0 {
        row[0] + row[1] + (if row.len() > 2 { row[2] } else { 0int })
    } else {
        bf_sum(row, x - 1)
            - (if x > 1 {
                (tdiv(bf_sum(row, x - 2), bf_count(row.len() as int, x - 2)) as i16) as int
            } else {
                0int
            })
            + (if x + 1 < row.len() { row[x + 1] } else { 0int })
    }
}

/// The value the pass leaves at position `x`: the truncated mean of the
/// running window, narrowed to 16 bits.
pub open spec fn bf_out(row: Seq<int>, x: int) -> int {
    (tdiv(bf_sum(row, x), bf_count(row.len() as int, x)) as i16) as int
}

/// Row `y` of a raster as a sequence of sample values.
pub open spec fn row_of(r: RasterI16, y: int) -> Seq<int> {
    Seq::new(r.width as nat, |x: int| r.px(x, y))
}

/// Column `x` of a raster as a sequence of sample values.
pub open spec fn col_of(r: RasterI16, x: int) -> Seq<int> {
    Seq::new(r.height as nat, |y: int| r.px(x, y))
}

/// The value the horizontal pass leaves at (x, y).
pub open spec fn hpass_px(r: RasterI16, x: int, y: int) -> int {
    bf_out(row_of(r, y), x)
}

/// Column `x` after the horizontal pass has run over every row.
pub open spec fn hpass_col(r: RasterI16, x: int) -> Seq<int> {
    Seq::new(r.height as nat, |y: int| hpass_px(r, x, y))
}

/// The value the whole filter (horizontal pass, then vertical pass over
/// the horizontally filtered raster) leaves at (x, y).
pub open spec fn box3_px(r: RasterI16, x: int, y: int) -> int {
    bf_out(hpass_col(r, x), y)
}

/// The window always holds between 2 and 4 samples, and at least 3
/// anywhere left of the line's last position when the line has more
/// than two samples.
pub proof fn lemma_bf_count_range(w: int, x: int)
    requires
        w >= 2,
        0 <= x < w,
    ensures
        2 <= bf_count(w, x) <= 4,
        w > 2 && x < w - 1 ==> bf_count(w, x) >= 3,
    decreases x,
{
    if x > 0 {
        lemma_bf_count_range(w, x - 1);
    }
}

/// Truncating division of an exact multiple recovers the factor.
pub proof fn lemma_tdiv_exact(v: int, c: int)
    requires
        c > 0,
    ensures
        tdiv(c * v, c) == v,
{
    if v >= 0 {
        assert(c * v >= 0) by (nonlinear_arith)
            requires
                c > 0,
                v >= 0,
        ;
        vstd::arithmetic::div_mod::lemma_div_multiples_vanish(v, c);
    } else {
        assert(c * v < 0) by (nonlinear_arith)
            requires
                c > 0,
                v < 0,
        ;
        assert(-(c * v) == c * (-v)) by (nonlinear_arith);
        vstd::arithmetic::div_mod::lemma_div_multiples_vanish(-v, c);
    }
}

/// On a uniform line every running window sum is the count times the
/// value, so every written mean is the value again.
pub proof fn lemma_bf_uniform(row: Seq<int>, v: int, x: int)
    requires
        row.len() >= 2,
        forall|i: int| 0 <= i < row.len() ==> row[i] == v,
        i16::MIN <= v <= i16::MAX,
        0 <= x < row.len(),
    ensures
        bf_sum(row, x) == bf_count(row.len() as int, x) * v,
        bf_out(row, x) == v,
    decreases x,
{
    let w = row.len() as int;
    if x == 0 {
        assert(bf_sum(row, 0) == (if w > 2 { 3 * v } else { 2 * v }));
    } else {
        lemma_bf_uniform(row, v, x - 1);
        if x > 1 {
            lemma_bf_uniform(row, v, x - 2);
            lemma_bf_count_range(w, x - 2);
            lemma_tdiv_exact(v, bf_count(w, x - 2));
        }
        assert(bf_sum(row, x) == bf_sum(row, x - 1)
            - (if x > 1 { v } else { 0int })
            + (if x + 1 < w { v } else { 0int }));
        assert(bf_count(w, x) * v == (bf_count(w, x - 1)
            - (if x > 1 { 1int } else { 0int })
            + (if x + 1 < w { 1int } else { 0int })) * v) by (nonlinear_arith)
            requires
                bf_count(w, x) == bf_count(w, x - 1)
                    - (if x > 1 { 1int } else { 0int })
                    + (if x + 1 < w { 1int } else { 0int }),
        ;
        assert((bf_count(w, x - 1)
            - (if x > 1 { 1int } else { 0int })
            + (if x + 1 < w { 1int } else { 0int })) * v
            == bf_count(w, x - 1) * v
                - (if x > 1 { 1int } else { 0int }) * v
                + (if x + 1 < w { 1int } else { 0int }) * v) by (nonlinear_arith);
    }
    lemma_bf_count_range(w, x);
    lemma_tdiv_exact(v, bf_count(w, x));
}

/// Truncating division helper over 64-bit operands.
fn tdiv_i64(a: i64, b: i64) -> (r: i64)
    requires
        b > 0,
        a > i64::MIN,
    ensures
        r as int == tdiv(a as int, b as int),
{
    if a >= 0 {
        a / b
    } else {
        -((-a) / b)
    }
}

/// Horizontal pass: a sliding mean along every row, written in place.
pub fn box_filter_horizontal_3x3_in_place(image: &mut RasterI16)
    requires
        old(image).wf(),
        old(image).width >= 2,
    ensures
        final(image).wf(),
        final(image).width == old(image).width,
        final(image).height == old(image).height,
        forall|x: int, y: int|
            in_grid(x, y, final(image).width as int, final(image).height as int)
                ==> final(image).px(x, y) == hpass_px(*old(image), x, y),
{
    let w: u32 = image.width;
    let h: u32 = image.height;
    let mut y: u32 = 0;
    while y < h
        invariant
            image.wf(),
            image.width == w,
            image.height == h,
            w == old(image).width,
            h == old(image).height,
            w >= 2,
            y <= h,
            forall|xx: int, yy: int|
                in_grid(xx, yy, w as int, h as int) && yy < y
                    ==> image.px(xx, yy) == hpass_px(*old(image), xx, yy),
            forall|xx: int, yy: int|
                in_grid(xx, yy, w as int, h as int) && yy >= y
                    ==> image.px(xx, yy) == old(image).px(xx, yy),
        decreases h - y,
    {
        let ghost orig = row_of(*old(image), y as int);
        proof {
            assert(orig.len() == w as int);
            assert forall|i: int| 0 <= i < w as int
                implies orig[i] == image.px(i, y as int)
                    && i16::MIN <= orig[i] <= i16::MAX by {}
        }
        let p0 = image.get(0, y);
        let p1 = image.get(1, y);
        let mut sum: i64 = p0 as i64 + p1 as i64;
        let mut count: i64 = 2;
        if w > 2 {
            let p2 = image.get(2, y);
            sum = sum + p2 as i64;
            count = 3;
        }
        assert(sum as int == bf_sum(orig, 0));
        assert(count as int == bf_count(w as int, 0));
        let q0 = tdiv_i64(sum, count);
        image.set(0, y, #[verifier::truncate] (q0 as i16));
        assert(image.px(0, y as int) == bf_out(orig, 0));
        let mut x: u32 = 1;
        while x < w
            invariant
                image.wf(),
                image.width == w,
                image.height == h,
                w == old(image).width,
                h == old(image).height,
                w >= 2,
                y < h,
                1 <= x <= w,
                orig == row_of(*old(image), y as int),
                orig.len() == w as int,
                forall|i: int| 0 <= i < w as int ==> i16::MIN <= #[trigger] orig[i] <= i16::MAX,
                sum as int == bf_sum(orig, x as int - 1),
                count as int == bf_count(w as int, x as int - 1),
                2 <= count <= 4,
                -(x as int + 3) * 65536 <= sum as int <= (x as int + 3) * 65536,
                forall|xx: int, yy: int|
                    in_grid(xx, yy, w as int, h as int) && yy < y
                        ==> image.px(xx, yy) == hpass_px(*old(image), xx, yy),
                forall|xx: int, yy: int|
                    in_grid(xx, yy, w as int, h as int) && yy > y
                        ==> image.px(xx, yy) == old(image).px(xx, yy),
                forall|xx: int| 0 <= xx < x ==> image.px(xx, y as int) == bf_out(orig, xx),
                forall|xx: int| x <= xx < w as int ==> image.px(xx, y as int) == orig[xx],
            decreases w - x,
        {
            if x > 1 {
                let qprev = image.get(x - 2, y);
                proof {
                    assert(image.px(x as int - 2, y as int) == bf_out(orig, x as int - 2));
                    assert(qprev as int
                        == (tdiv(bf_sum(orig, x as int - 2), bf_count(w as int, x as int - 2)) as i16) as int);
                }
                sum = sum - qprev as i64;
                count = count - 1;
            }
            if x + 1 < w {
                let p = image.get(x + 1, y);
                proof {
                    assert(p as int == orig[x as int + 1]);
                }
                sum = sum + p as i64;
                count = count + 1;
            }
            proof {
                assert(orig.len() as int == w as int);
                assert(x as int > 0);
                assert(bf_sum(orig, x as int) == bf_sum(orig, x as int - 1)
                    - (if x as int > 1 {
                        (tdiv(bf_sum(orig, x as int - 2), bf_count(w as int, x as int - 2)) as i16) as int
                    } else {
                        0int
                    })
                    + (if x as int + 1 < w as int { orig[x as int + 1] } else { 0int }));
                assert(sum as int == bf_sum(orig, x as int));
                assert(count as int == bf_count(w as int, x as int));
                lemma_bf_count_range(w as int, x as int);
            }
            let q = tdiv_i64(sum, count);
            image.set(x, y, #[verifier::truncate] (q as i16));
            assert(image.px(x as int, y as int) == bf_out(orig, x as int));
            x = x + 1;
        }
        proof {
            assert forall|xx: int| 0 <= xx < w as int
                implies image.px(xx, y as int) == hpass_px(*old(image), xx, y as int) by {}
        }
        y = y + 1;
    }
}

/// Vertical pass: a sliding mean along every column, written in place.
pub fn box_filter_vertical_3x3_in_place(image: &mut RasterI16)
    requires
        old(image).wf(),
        old(image).height >= 2,
    ensures
        final(image).wf(),
        final(image).width == old(image).width,
        final(image).height == old(image).height,
        forall|x: int, y: int|
            in_grid(x, y, final(image).width as int, final(image).height as int)
                ==> final(image).px(x, y) == bf_out(col_of(*old(image), x), y),
{
    let w: u32 = image.width;
    let h: u32 = image.height;
    let mut x: u32 = 0;
    while x < w
        invariant
            image.wf(),
            image.width == w,
            image.height == h,
            w == old(image).width,
            h == old(image).height,
            h >= 2,
            x <= w,
            forall|xx: int, yy: int|
                in_grid(xx, yy, w as int, h as int) && xx < x
                    ==> image.px(xx, yy) == bf_out(col_of(*old(image), xx), yy),
            forall|xx: int, yy: int|
                in_grid(xx, yy, w as int, h as int) && xx >= x
                    ==> image.px(xx, yy) == old(image).px(xx, yy),
        decreases w - x,
    {
        let ghost orig = col_of(*old(image), x as int);
        proof {
            assert(orig.len() == h as int);
            assert forall|i: int| 0 <= i < h as int
                implies orig[i] == image.px(x as int, i)
                    && i16::MIN <= orig[i] <= i16::MAX by {}
        }
        let p0 = image.get(x, 0);
        let p1 = image.get(x, 1);
        let mut sum: i64 = p0 as i64 + p1 as i64;
        let mut count: i64 = 2;
        if h > 2 {
            let p2 = image.get(x, 2);
            sum = sum + p2 as i64;
            count = 3;
        }
        assert(sum as int == bf_sum(orig, 0));
        assert(count as int == bf_count(h as int, 0));
        let q0 = tdiv_i64(sum, count);
        image.set(x, 0, #[verifier::truncate] (q0 as i16));
        assert(image.px(x as int, 0) == bf_out(orig, 0));
        let mut y: u32 = 1;
        while y < h
            invariant
                image.wf(),
                image.width == w,
                image.height == h,
                w == old(image).width,
                h == old(image).height,
                h >= 2,
                x < w,
                1 <= y <= h,
                orig == col_of(*old(image), x as int),
                orig.len() == h as int,
                forall|i: int| 0 <= i < h as int ==> i16::MIN <= #[trigger] orig[i] <= i16::MAX,
                sum as int == bf_sum(orig, y as int - 1),
                count as int == bf_count(h as int, y as int - 1),
                2 <= count <= 4,
                -(y as int + 3) * 65536 <= sum as int <= (y as int + 3) * 65536,
                forall|xx: int, yy: int|
                    in_grid(xx, yy, w as int, h as int) && xx < x
                        ==> image.px(xx, yy) == bf_out(col_of(*old(image), xx), yy),
                forall|xx: int, yy: int|
                    in_grid(xx, yy, w as int, h as int) && xx > x
                        ==> image.px(xx, yy) == old(image).px(xx, yy),
                forall|yy: int| 0 <= yy < y ==> image.px(x as int, yy) == bf_out(orig, yy),
                forall|yy: int| y <= yy < h as int ==> image.px(x as int, yy) == orig[yy],
            decreases h - y,
        {
            if y > 1 {
                let qprev = image.get(x, y - 2);
                proof {
                    assert(image.px(x as int, y as int - 2) == bf_out(orig, y as int - 2));
                    assert(qprev as int
                        == (tdiv(bf_sum(orig, y as int - 2), bf_count(h as int, y as int - 2)) as i16) as int);
                }
                sum = sum - qprev as i64;
                count = count - 1;
            }
            if y + 1 < h {
                let p = image.get(x, y + 1);
                proof {
                    assert(p as int == orig[y as int + 1]);
                }
                sum = sum + p as i64;
                count = count + 1;
            }
            proof {
                assert(orig.len() as int == h as int);
                assert(bf_sum(orig, y as int) == bf_sum(orig, y as int - 1)
                    - (if y as int > 1 {
                        (tdiv(bf_sum(orig, y as int - 2), bf_count(h as int, y as int - 2)) as i16) as int
                    } else {
                        0int
                    })
                    + (if y as int + 1 < h as int { orig[y as int + 1] } else { 0int }));
                assert(sum as int == bf_sum(orig, y as int));
                assert(count as int == bf_count(h as int, y as int));
                lemma_bf_count_range(h as int, y as int);
            }
            let q = tdiv_i64(sum, count);
            image.set(x, y, #[verifier::truncate] (q as i16));
            assert(image.px(x as int, y as int) == bf_out(orig, y as int));
            y = y + 1;
        }
        proof {
            assert forall|yy: int| 0 <= yy < h as int
                implies image.px(x as int, yy) == bf_out(col_of(*old(image), x as int), yy) by {}
        }
        x = x + 1;
    }
}

/// Separable 3x3 mean smoothing, in place: the horizontal pass over
/// every row, then the vertical pass over the result.
pub fn box_filter_3x3_in_place(image: &mut RasterI16)
    requires
        old(image).wf(),
        old(image).width >= 2,
        old(image).height >= 2,
    ensures
        final(image).wf(),
        final(image).width == old(image).width,
        final(image).height == old(image).height,
        forall|x: int, y: int|
            in_grid(x, y, final(image).width as int, final(image).height as int)
                ==> final(image).px(x, y) == box3_px(*old(image), x, y),
{
    box_filter_horizontal_3x3_in_place(image);
    let ghost mid = *image;
    box_filter_vertical_3x3_in_place(image);
    proof {
        assert forall|x: int, y: int|
            in_grid(x, y, image.width as int, image.height as int)
                implies image.px(x, y) == box3_px(*old(image), x, y) by {
            assert(col_of(mid, x) =~= hpass_col(*old(image), x));
        }
    }
}

/// Smoothing a uniform raster leaves every sample unchanged: both the
/// horizontal and the vertical pass reproduce the value everywhere.
pub proof fn lemma_box_filter_uniform(r: RasterI16, v: int, x: int, y: int)
    requires
        r.wf(),
        r.width >= 2,
        r.height >= 2,
        i16::MIN <= v <= i16::MAX,
        forall|xx: int, yy: int|
            in_grid(xx, yy, r.width as int, r.height as int) ==> r.px(xx, yy) == v,
        in_grid(x, y, r.width as int, r.height as int),
    ensures
        box3_px(r, x, y) == v,
{
    assert forall|yy: int| 0 <= yy < r.height as int
        implies hpass_px(r, x, yy) == v by {
        let row = row_of(r, yy);
        assert(forall|i: int| 0 <= i < row.len() ==> row[i] == v);
        lemma_bf_uniform(row, v, x);
    }
    let hc = hpass_col(r, x);
    assert(forall|i: int| 0 <= i < hc.len() ==> hc[i] == v);
    lemma_bf_uniform(hc, v, y);
}

} // verus!
