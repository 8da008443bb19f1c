use vstd::prelude::*;

verus! {

/// Row-major rectangular grid of 8-bit intensity samples.
///
/// This is the raster handed to the core by whatever decodes images:
/// a fixed width and height and a flat buffer of exactly
/// `width * height` samples.
pub struct RasterU8 {
    pub width: u32,
    pub height: u32,
    pub data: Vec<u8>,
}

/// Row-major rectangular grid of signed 16-bit samples, used for
/// gradients and structure-tensor intermediates.
pub struct RasterI16 {
    pub width: u32,
    pub height: u32,
    pub data: Vec<i16>,
}

/// Row-major flat index of column `x`, row `y` in a grid `w` wide.
pub open spec fn rm_idx(x: int, y: int, w: int) -> int {
    y * w + x
}

/// A coordinate pair lies inside a `w` by `h` grid.
pub open spec fn in_grid(x: int, y: int, w: int, h: int) -> bool {
    0 <= x < w && 0 <= y < h
}

/// Row-major indices of in-grid coordinates stay inside the buffer.
pub proof fn lemma_rm_idx_bounds(x: int, y: int, w: int, h: int)
    requires
        in_grid(x, y, w, h),
    ensures
        0 <= rm_idx(x, y, w) < w * h,
{
    assert(0 <= y * w + x < w * h) by (nonlinear_arith)
        requires
            0 <= x < w,
            0 <= y < h,
    ;
}

/// Distinct in-grid coordinates have distinct row-major indices.
pub proof fn lemma_rm_idx_injective(x1: int, y1: int, x2: int, y2: int, w: int, h: int)
    requires
        in_grid(x1, y1, w, h),
        in_grid(x2, y2, w, h),
        rm_idx(x1, y1, w) == rm_idx(x2, y2, w),
    ensures
        x1 == x2 && y1 == y2,
{
    assert(x1 == x2 && y1 == y2) by (nonlinear_arith)
        requires
            0 <= x1 < w,
            0 <= y1 < h,
            0 <= x2 < w,
            0 <= y2 < h,
            y1 * w + x1 == y2 * w + x2,
    ;
}

impl RasterU8 {
    /// The flat buffer holds exactly `width * height` samples.
    pub open spec fn wf(self) -> bool {
        self.data@.len() == self.width as int * self.height as int
    }

    /// The sample at column `x`, row `y`, as a mathematical integer.
    pub open spec fn px(self, x: int, y: int) -> int {
        self.data@[rm_idx(x, y, self.width as int)] as int
    }

    /// Bounds-checked mathematical read: 0 outside the raster.
    pub open spec fn px_or_zero(self, x: int, y: int) -> int {
        if in_grid(x, y, self.width as int, self.height as int) {
            self.px(x, y)
        } else {
            0
        }
    }

    /// A raster of the given dimensions with every sample zero.
    pub fn new(width: u32, height: u32) -> (r: RasterU8)
        requires
            width as int * height as int <= usize::MAX as int,
        ensures
            r.wf(),
            r.width == width,
            r.height == height,
            forall|x: int, y: int|
                in_grid(x, y, width as int, height as int) ==> r.px(x, y) == 0,
    {
        proof {
            assert(width as int * height as int == (width as usize) as int * (height as usize) as int);
        }
        let n: usize = (width as usize) * (height as usize);
        let mut data: Vec<u8> = Vec::new();
        let mut i: usize = 0;
        while i < n
            invariant
                i <= n,
                data@.len() == i,
                forall|j: int| 0 <= j < i ==> data@[j] == 0u8,
            decreases n - i,
        {
            data.push(0u8);
            i = i + 1;
        }
        let r = RasterU8 { width, height, data };
        proof {
            assert forall|x: int, y: int|
                in_grid(x, y, width as int, height as int) implies r.px(x, y) == 0 by {
                lemma_rm_idx_bounds(x, y, width as int, height as int);
            }
        }
        r
    }

    /// Wraps an existing buffer of exactly `width * height` samples.
    pub fn from_vec(width: u32, height: u32, data: Vec<u8>) -> (r: RasterU8)
        requires
            data@.len() == width as int * height as int,
        ensures
            r.wf(),
            r.width == width,
            r.height == height,
            r.data@ == data@,
    {
        RasterU8 { width, height, data }
    }

    /// In-bounds read.
    pub fn get(&self, x: u32, y: u32) -> (r: u8)
        requires
            self.wf(),
            x < self.width,
            y < self.height,
        ensures
            r as int == self.px(x as int, y as int),
    {
        let n: usize = self.data.len();
        proof {
            lemma_rm_idx_bounds(x as int, y as int, self.width as int, self.height as int);
        }
        self.data[(y as usize) * (self.width as usize) + (x as usize)]
    }

    /// Bounds-checked read over signed coordinates: 0 outside the raster.
    pub fn get_or_zero(&self, x: i64, y: i64) -> (r: u8)
        requires
            self.wf(),
        ensures
            r as int == self.px_or_zero(x as int, y as int),
    {
        if 0 <= x && x < self.width as i64 && 0 <= y && y < self.height as i64 {
            self.get(x as u32, y as u32)
        } else {
            0
        }
    }

    /// In-bounds write.
    pub fn set(&mut self, x: u32, y: u32, v: u8)
        requires
            old(self).wf(),
            x < old(self).width,
            y < old(self).height,
        ensures
            final(self).wf(),
            final(self).width == old(self).width,
            final(self).height == old(self).height,
            final(self).px(x as int, y as int) == v as int,
            forall|xx: int, yy: int|
                in_grid(xx, yy, final(self).width as int, final(self).height as int)
                    && !(xx == x as int && yy == y as int)
                    ==> final(self).px(xx, yy) == old(self).px(xx, yy),
    {
        let n: usize = self.data.len();
        proof {
            lemma_rm_idx_bounds(x as int, y as int, self.width as int, self.height as int);
        }
        let i: usize = (y as usize) * (self.width as usize) + (x as usize);
        self.data.set(i, v);
        proof {
            assert forall|xx: int, yy: int|
                in_grid(xx, yy, self.width as int, self.height as int)
                    && !(xx == x as int && yy == y as int)
                    implies self.px(xx, yy) == old(self).px(xx, yy) by {
                lemma_rm_idx_bounds(xx, yy, self.width as int, self.height as int);
                if rm_idx(xx, yy, self.width as int) == rm_idx(x as int, y as int, self.width as int) {
                    lemma_rm_idx_injective(xx, yy, x as int, y as int, self.width as int, self.height as int);
                }
            }
        }
    }

    /// A fresh raster with the same dimensions and samples.
    pub fn duplicate(&self) -> (r: RasterU8)
        requires
            self.wf(),
        ensures
            r.wf(),
            r.width == self.width,
            r.height == self.height,
            r.data@ == self.data@,
    {
        let mut data: Vec<u8> = Vec::new();
        let mut i: usize = 0;
        let n: usize = self.data.len();
        while i < n
            invariant
                i <= n,
                n == self.data@.len(),
                data@ == self.data@.subrange(0, i as int),
            decreases n - i,
        {
            data.push(self.data[i]);
            assert(data@ == self.data@.subrange(0, i + 1));
            i = i + 1;
        }
        assert(data@ == self.data@);
        RasterU8 { width: self.width, height: self.height, data }
    }
}

impl RasterI16 {
    /// The flat buffer holds exactly `width * height` samples.
    pub open spec fn wf(self) -> bool {
        self.data@.len() == self.width as int * self.height as int
    }

    /// The sample at column `x`, row `y`, as a mathematical integer.
    pub open spec fn px(self, x: int, y: int) -> int {
        self.data@[rm_idx(x, y, self.width as int)] as int
    }

    /// Bounds-checked mathematical read: 0 outside the raster.
    pub open spec fn px_or_zero(self, x: int, y: int) -> int {
        if in_grid(x, y, self.width as int, self.height as int) {
            self.px(x, y)
        } else {
            0
        }
    }

    /// A raster of the given dimensions with every sample zero.
    pub fn new(width: u32, height: u32) -> (r: RasterI16)
        requires
            width as int * height as int <= usize::MAX as int,
        ensures
            r.wf(),
            r.width == width,
            r.height == height,
            forall|x: int, y: int|
                in_grid(x, y, width as int, height as int) ==> r.px(x, y) == 0,
    {
        proof {
            assert(width as int * height as int == (width as usize) as int * (height as usize) as int);
        }
        let n: usize = (width as usize) * (height as usize);
        let mut data: Vec<i16> = Vec::new();
        let mut i: usize = 0;
        while i < n
            invariant
                i <= n,
                data@.len() == i,
                forall|j: int| 0 <= j < i ==> data@[j] == 0i16,
            decreases n - i,
        {
            data.push(0i16);
            i = i + 1;
        }
        let r = RasterI16 { width, height, data };
        proof {
            assert forall|x: int, y: int|
                in_grid(x, y, width as int, height as int) implies r.px(x, y) == 0 by {
                lemma_rm_idx_bounds(x, y, width as int, height as int);
            }
        }
        r
    }

    /// Wraps an existing buffer of exactly `width * height` samples.
    pub fn from_vec(width: u32, height: u32, data: Vec<i16>) -> (r: RasterI16)
        requires
            data@.len() == width as int * height as int,
        ensures
            r.wf(),
            r.width == width,
            r.height == height,
            r.data@ == data@,
    {
        RasterI16 { width, height, data }
    }

    /// In-bounds read.
    pub fn get(&self, x: u32, y: u32) -> (r: i16)
        requires
            self.wf(),
            x < self.width,
            y < self.height,
        ensures
            r as int == self.px(x as int, y as int),
    {
        let n: usize = self.data.len();
        proof {
            lemma_rm_idx_bounds(x as int, y as int, self.width as int, self.height as int);
        }
        self.data[(y as usize) * (self.width as usize) + (x as usize)]
    }

    /// Bounds-checked read over signed coordinates: 0 outside the raster.
    pub fn get_or_zero(&self, x: i64, y: i64) -> (r: i16)
        requires
            self.wf(),
        ensures
            r as int == self.px_or_zero(x as int, y as int),
    {
        if 0 <= x && x < self.width as i64 && 0 <= y && y < self.height as i64 {
            self.get(x as u32, y as u32)
        } else {
            0
        }
    }

    /// In-bounds write.
    pub fn set(&mut self, x: u32, y: u32, v: i16)
        requires
            old(self).wf(),
            x < old(self).width,
            y < old(self).height,
        ensures
            final(self).wf(),
            final(self).width == old(self).width,
            final(self).height == old(self).height,
            final(self).px(x as int, y as int) == v as int,
            forall|xx: int, yy: int|
                in_grid(xx, yy, final(self).width as int, final(self).height as int)
                    && !(xx == x as int && yy == y as int)
                    ==> final(self).px(xx, yy) == old(self).px(xx, yy),
    {
        let n: usize = self.data.len();
        proof {
            lemma_rm_idx_bounds(x as int, y as int, self.width as int, self.height as int);
        }
        let i: usize = (y as usize) * (self.width as usize) + (x as usize);
        self.data.set(i, v);
        proof {
            assert forall|xx: int, yy: int|
                in_grid(xx, yy, self.width as int, self.height as int)
                    && !(xx == x as int && yy == y as int)
                    implies self.px(xx, yy) == old(self).px(xx, yy) by {
                lemma_rm_idx_bounds(xx, yy, self.width as int, self.height as int);
                if rm_idx(xx, yy, self.width as int) == rm_idx(x as int, y as int, self.width as int) {
                    lemma_rm_idx_injective(xx, yy, x as int, y as int, self.width as int, self.height as int);
                }
            }
        }
    }
}

} // verus!
