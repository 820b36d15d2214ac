//! A plain RGB raster: 8-bit red, green and blue samples, row by row.

use vstd::prelude::*;

verus! {

/// One RGB pixel.
pub type Rgb = (u8, u8, u8);

/// Position of the first sample of pixel `(x, y)` in an image `w` pixels wide.
pub open spec fn offset(w: int, x: int, y: int) -> int {
    (y * w + x) * 3
}

/// The pixel at `(x, y)` read from raw samples of an image `w` pixels wide.
pub open spec fn pixel_in(data: Seq<u8>, w: int, x: int, y: int) -> Rgb {
    let o = offset(w, x, y);
    (data[o], data[o + 1], data[o + 2])
}

/// A pixel within an image `w` by `h` starts three samples or more before its end.
pub proof fn lemma_offset_in_bounds(w: int, h: int, x: int, y: int)
    requires
        0 <= x < w,
        0 <= y < h,
    ensures
        0 <= offset(w, x, y),
        offset(w, x, y) + 3 <= 3 * (w * h),
{
    assert(0 <= y * w) by (nonlinear_arith)
        requires
            0 <= y,
            0 <= w,
    ;
    assert(y * w + w <= h * w) by (nonlinear_arith)
        requires
            y + 1 <= h,
            0 <= w,
    ;
    assert(w * h == h * w) by (nonlinear_arith);
}

/// Two distinct pixels of a row width `w` have sample ranges that do not meet.
pub proof fn lemma_offsets_apart(w: int, x1: int, y1: int, x2: int, y2: int)
    requires
        0 <= x1 < w,
        0 <= x2 < w,
        0 <= y1,
        0 <= y2,
        x1 != x2 || y1 != y2,
    ensures
        offset(w, x1, y1) + 3 <= offset(w, x2, y2) || offset(w, x2, y2) + 3 <= offset(w, x1, y1),
{
    if y1 < y2 {
        assert(y1 * w + w <= y2 * w) by (nonlinear_arith)
            requires
                y1 + 1 <= y2,
                0 <= w,
        ;
    } else if y2 < y1 {
        assert(y2 * w + w <= y1 * w) by (nonlinear_arith)
            requires
                y2 + 1 <= y1,
                0 <= w,
        ;
    }
}

/// An RGB image of `width` by `height` pixels; `data` holds three samples per
/// pixel, rows top to bottom, each row left to right.
#[derive(Clone, Debug)]
pub struct Raster {
    pub width: u32,
    pub height: u32,
    pub data: Vec<u8>,
}

impl Raster {
    /// The sample buffer holds exactly three samples for every pixel.
    pub open spec fn wf(&self) -> bool {
        self.data@.len() == 3 * (self.width as int * self.height as int)
    }

    /// Whether `(x, y)` lies within the image.
    pub open spec fn contains(&self, x: int, y: int) -> bool {
        0 <= x < self.width && 0 <= y < self.height
    }

    /// The pixel at `(x, y)`.
    pub open spec fn pixel(&self, x: int, y: int) -> Rgb {
        pixel_in(self.data@, self.width as int, x, y)
    }

    /// A `width` by `height` image in which every sample is zero (black).
    pub fn new(width: u32, height: u32) -> (r: Raster)
        requires
            3 * (width as int * height as int) <= usize::MAX,
        ensures
            r.wf(),
            r.width == width,
            r.height == height,
            forall|x: int, y: int| r.contains(x, y) ==> #[trigger] r.pixel(x, y) == (0u8, 0u8, 0u8),
    {
        proof {
            assert(0 <= width as int * height as int) by (nonlinear_arith);
        }
        let n: usize = 3 * (width as usize * height as usize);
        let mut data: Vec<u8> = Vec::with_capacity(n);
        let mut i: usize = 0;
        while i < n
            invariant
                i <= n,
                data@.len() == i,
                forall|k: int| 0 <= k < i ==> data@[k] == 0u8,
            decreases n - i,
        {
            data.push(0u8);
            i = i + 1;
        }
        let r = Raster { width, height, data };
        assert forall|x: int, y: int| r.contains(x, y) implies #[trigger] r.pixel(x, y) == (0u8, 0u8, 0u8) by {
            lemma_offset_in_bounds(width as int, height as int, x, y);
        }
        r
    }

    /// Builds an image from raw samples; `None` unless there are exactly three
    /// samples for every pixel.
    pub fn from_samples(width: u32, height: u32, data: Vec<u8>) -> (r: Option<Raster>)
        ensures
            r is Some <==> data@.len() == 3 * (width as int * height as int),
            r matches Some(img) ==> img.wf() && img.width == width && img.height == height
                && img.data@ == data@,
    {
        let n = data.len() as u128;
        proof {
            assert(width as int * height as int <= 0x1_0000_0000 * 0x1_0000_0000) by (nonlinear_arith)
                requires
                    width <= 0x1_0000_0000,
                    height <= 0x1_0000_0000,
            ;
        }
        let expected: u128 = 3 * (width as u128 * height as u128);
        if n == expected {
            Some(Raster { width, height, data })
        } else {
            None
        }
    }

    /// Where the samples of pixel `(x, y)` start in `data`.
    fn sample_offset(&self, x: u32, y: u32) -> (r: usize)
        requires
            self.wf(),
            self.contains(x as int, y as int),
        ensures
            r == offset(self.width as int, x as int, y as int),
            r + 3 <= self.data@.len(),
            self.data@.len() <= usize::MAX,
    {
        let n = self.data.len();
        proof {
            lemma_offset_in_bounds(self.width as int, self.height as int, x as int, y as int);
            assert(0 <= y as int * self.width as int) by (nonlinear_arith);
        }
        (y as usize * self.width as usize + x as usize) * 3
    }

    /// A copy of this image.
    pub fn duplicate(&self) -> (r: Raster)
        ensures
            r.width == self.width,
            r.height == self.height,
            r.data@ == self.data@,
    {
        Raster { width: self.width, height: self.height, data: self.data.clone() }
    }

    /// Reads the pixel at `(x, y)`.
    pub fn get_pixel(&self, x: u32, y: u32) -> (r: Rgb)
        requires
            self.wf(),
            self.contains(x as int, y as int),
        ensures
            r == self.pixel(x as int, y as int),
    {
        let o = self.sample_offset(x, y);
        (self.data[o], self.data[o + 1], self.data[o + 2])
    }

    /// Writes `p` at `(x, y)` and leaves every other pixel as it was.
    pub fn put_pixel(&mut self, x: u32, y: u32, p: Rgb)
        requires
            old(self).wf(),
            old(self).contains(x as int, y as int),
        ensures
            final(self).wf(),
            final(self).data@.len() == old(self).data@.len(),
            final(self).width == old(self).width,
            final(self).height == old(self).height,
            final(self).pixel(x as int, y as int) == p,
            forall|i: int, j: int|
                old(self).contains(i, j) && (i != x || j != y) ==> #[trigger] final(self).pixel(i, j)
                    == old(self).pixel(i, j),
    {
        let o = self.sample_offset(x, y);
        self.data.set(o, p.0);
        self.data.set(o + 1, p.1);
        self.data.set(o + 2, p.2);
        assert forall|i: int, j: int|
            old(self).contains(i, j) && (i != x || j != y) implies #[trigger] self.pixel(i, j)
                == old(self).pixel(i, j) by {
            lemma_offset_in_bounds(self.width as int, self.height as int, i, j);
            lemma_offsets_apart(self.width as int, x as int, y as int, i, j);
        }
    }
}

} // verus!
