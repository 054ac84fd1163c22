use vstd::prelude::*;

verus! {

/// A single-channel image of `height` rows and `width` columns, stored
/// row by row: the pixel at column `x` of row `y` is `data[y * width + x]`.
pub struct GrayImage {
    pub width: usize,
    pub height: usize,
    pub data: Vec<u8>,
}

/// A three-channel (R, G, B) image laid out as `GrayImage` is.
pub struct RgbImage {
    pub width: usize,
    pub height: usize,
    pub data: Vec<[u8; 3]>,
}

impl GrayImage {
    pub open spec fn wf(&self) -> bool {
        self.data@.len() == self.width * self.height
    }

    pub open spec fn in_bounds(&self, x: int, y: int) -> bool {
        0 <= x < self.width && 0 <= y < self.height
    }

    /// The pixel at column `x` of row `y`.
    pub open spec fn at(&self, x: int, y: int) -> u8 {
        self.data@[y * self.width + x]
    }

    /// An image of the given size with every pixel set to `value`.
    pub fn filled(width: usize, height: usize, value: u8) -> (img: GrayImage)
        requires
            width * height <= usize::MAX,
        ensures
            img.wf(),
            img.width == width,
            img.height == height,
            forall|i: int| 0 <= i < img.data@.len() ==> img.data@[i] == value,
    {
        let n: usize = width * height;
        GrayImage { width, height, data: vec![value; n] }
    }

    /// Sets every pixel to `value`, keeping the size.
    pub fn fill(&mut self, value: u8)
        ensures
            final(self).width == old(self).width,
            final(self).height == old(self).height,
            final(self).data@.len() == old(self).data@.len(),
            forall|i: int| 0 <= i < final(self).data@.len() ==> final(self).data@[i] == value,
    {
        let n = self.data.len();
        let mut i: usize = 0;
        while i < n
            invariant
                i <= n,
                n == self.data@.len(),
                self.width == old(self).width,
                self.height == old(self).height,
                self.data@.len() == old(self).data@.len(),
                forall|j: int| 0 <= j < i ==> self.data@[j] == value,
            decreases n - i,
        {
            self.data.set(i, value);
            i = i + 1;
        }
    }
}

impl RgbImage {
    pub open spec fn wf(&self) -> bool {
        self.data@.len() == self.width * self.height
    }
}

/// The largest number of pixels an image handed to the tracer may have;
/// it keeps coordinates in `i32` and doubled polygon areas in `i64`.
pub const MAX_PIXELS: usize = 0x1000_0000;

/// The row-major index of an in-bounds pixel lies inside the buffer.
pub proof fn lemma_index_in_bounds(x: int, y: int, width: int, height: int)
    requires
        0 <= x < width,
        0 <= y < height,
    ensures
        0 <= y * width + x < width * height,
        y * width + x + 1 <= width * height,
{
    assert(y * width + x < width * height) by (nonlinear_arith)
        requires
            0 <= x < width,
            0 <= y < height,
    ;
    assert(0 <= y * width) by (nonlinear_arith)
        requires
            0 <= y,
            0 <= width,
    ;
}

/// A row-major index splits into a column below the width and a row below
/// the height.
pub proof fn lemma_pixel_coords(k: int, width: int, height: int)
    requires
        0 <= k < width * height,
        width >= 0,
        height >= 0,
    ensures
        width > 0,
        0 <= k % width < width,
        0 <= k / width < height,
        (k / width) * width + k % width == k,
{
    assert(width > 0) by (nonlinear_arith)
        requires
            0 <= k < width * height,
            height >= 0,
            width >= 0,
    ;
    vstd::arithmetic::div_mod::lemma_fundamental_div_mod(k, width);
    assert(0 <= k / width < height) by (nonlinear_arith)
        requires
            0 <= k < width * height,
            width > 0,
            k == width * (k / width) + k % width,
            0 <= k % width < width,
    ;
    assert((k / width) * width == width * (k / width)) by (nonlinear_arith);
}

} // verus!
