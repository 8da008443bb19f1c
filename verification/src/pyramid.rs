use vstd::prelude::*;
use crate::raster::{RasterU8, in_grid};

verus! {

/// The truncated integer mean of the 2x2 block of `prev` whose top-left
/// corner is at (2x, 2y): the value a half-resolution level holds at (x, y).
pub open spec fn block_mean(prev: RasterU8, x: int, y: int) -> int {
    (prev.px(2 * x, 2 * y) + prev.px(2 * x + 1, 2 * y)
        + prev.px(2 * x, 2 * y + 1) + prev.px(2 * x + 1, 2 * y + 1)) / 4
}

/// Every level after the first halves the previous level's dimensions and
/// holds the truncated mean of each 2x2 block of the previous level.
pub open spec fn pyramid_levels_ok(p: Seq<RasterU8>) -> bool {
    forall|i: int| 1 <= i < p.len() ==> {
        &&& (#[trigger] p[i]).wf()
        &&& p[i - 1].width >= 2
        &&& p[i - 1].height >= 2
        &&& p[i].width == p[i - 1].width / 2
        &&& p[i].height == p[i - 1].height / 2
        &&& forall|x: int, y: int|
                in_grid(x, y, p[i].width as int, p[i].height as int)
                    ==> p[i].px(x, y) == block_mean(p[i - 1], x, y)
    }
}

/// One half-resolution level: each output sample is the truncated integer
/// mean of the corresponding 2x2 block of `prev`.
fn downsample(prev: &RasterU8) -> (r: RasterU8)
    requires
        prev.wf(),
        prev.width >= 2,
        prev.height >= 2,
    ensures
        r.wf(),
        r.width == prev.width / 2,
        r.height == prev.height / 2,
        forall|x: int, y: int|
            in_grid(x, y, r.width as int, r.height as int)
                ==> r.px(x, y) == block_mean(*prev, x, y),
{
    let new_w: u32 = prev.width / 2;
    let new_h: u32 = prev.height / 2;
    let n: usize = prev.data.len();
    proof {
        assert(new_w as int * new_h as int <= prev.width as int * prev.height as int)
            by (nonlinear_arith)
            requires
                0 <= new_w as int <= prev.width as int,
                0 <= new_h as int <= prev.height as int,
        ;
    }
    let mut out = RasterU8::new(new_w, new_h);
    let mut y: u32 = 0;
    while y < new_h
        invariant
            prev.wf(),
            prev.width >= 2,
            prev.height >= 2,
            new_w == prev.width / 2,
            new_h == prev.height / 2,
            y <= new_h,
            out.wf(),
            out.width == new_w,
            out.height == new_h,
            forall|xx: int, yy: int|
                in_grid(xx, yy, new_w as int, new_h as int) && yy < y
                    ==> out.px(xx, yy) == block_mean(*prev, xx, yy),
        decreases new_h - y,
    {
        let mut x: u32 = 0;
        while x < new_w
            invariant
                prev.wf(),
                prev.width >= 2,
                prev.height >= 2,
                new_w == prev.width / 2,
                new_h == prev.height / 2,
                y < new_h,
                x <= new_w,
                out.wf(),
                out.width == new_w,
                out.height == new_h,
                forall|xx: int, yy: int|
                    in_grid(xx, yy, new_w as int, new_h as int) && yy < y
                        ==> out.px(xx, yy) == block_mean(*prev, xx, yy),
                forall|xx: int| 0 <= xx < x
                    ==> out.px(xx, y as int) == block_mean(*prev, xx, y as int),
            decreases new_w - x,
        {
            let px: u32 = 2 * x;
            let py: u32 = 2 * y;
            let p1 = prev.get(px, py) as u32;
            let p2 = prev.get(px + 1, py) as u32;
            let p3 = prev.get(px, py + 1) as u32;
            let p4 = prev.get(px + 1, py + 1) as u32;
            let average: u32 = (p1 + p2 + p3 + p4) / 4;
            out.set(x, y, average as u8);
            x = x + 1;
        }
        y = y + 1;
    }
    out
}

/// Builds a multi-resolution pyramid by repeated 2x2 block averaging.
///
/// The first level is the source raster unchanged; each further level
/// halves both dimensions (rounded down) until either dimension would
/// drop below 2 or `levels` levels exist.
pub fn build_pyramid(image: &RasterU8, levels: usize) -> (r: Vec<RasterU8>)
    requires
        image.wf(),
        levels >= 1,
    ensures
        1 <= r@.len() <= levels,
        r@[0].wf(),
        r@[0].width == image.width,
        r@[0].height == image.height,
        r@[0].data@ == image.data@,
        pyramid_levels_ok(r@),
        r@.len() < levels ==> r@[r@.len() - 1].width < 2 || r@[r@.len() - 1].height < 2,
{
    let mut pyramid: Vec<RasterU8> = Vec::new();
    pyramid.push(image.duplicate());

    loop
        invariant
            image.wf(),
            levels >= 1,
            1 <= pyramid@.len() <= levels,
            pyramid@[0].wf(),
            pyramid@[0].width == image.width,
            pyramid@[0].height == image.height,
            pyramid@[0].data@ == image.data@,
            pyramid_levels_ok(pyramid@),
        ensures
            pyramid@.len() == levels
                || pyramid@[pyramid@.len() - 1].width < 2
                || pyramid@[pyramid@.len() - 1].height < 2,
        decreases levels - pyramid@.len(),
    {
        if pyramid.len() >= levels {
            break;
        }
        let last = pyramid.len() - 1;
        let width = pyramid[last].width;
        let height = pyramid[last].height;
        if width < 2 || height < 2 {
            break;
        }
        let next = downsample(&pyramid[last]);
        pyramid.push(next);
    }
    pyramid
}

} // verus!
