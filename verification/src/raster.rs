use vstd::prelude::*;

verus! {

/// A grayscale image: `width * height` 8-bit luminance samples, stored in
/// row-major order. The detection pipeline only reads it.
pub struct GrayRaster {
    pub width: usize,
    pub height: usize,
    pub pixels: Vec<u8>,
}

impl GrayRaster {
    /// The sample buffer holds exactly one byte per pixel.
    pub open spec fn wf(self) -> bool {
        self.pixels@.len() == self.width * self.height
    }

    /// The luminance sample at column `x`, row `y`.
    pub open spec fn pixel(self, x: int, y: int) -> u8 {
        self.pixels@[y * self.width + x]
    }

    /// Builds a raster from a row-major sample buffer; fails exactly when the
    /// buffer length does not match the requested dimensions.
    pub fn new(width: usize, height: usize, pixels: Vec<u8>) -> (r: Option<GrayRaster>)
        ensures
            r is Some <==> pixels@.len() == width * height,
            r is Some ==> {
                let img = r->Some_0;
                &&& img.wf()
                &&& img.width == width
                &&& img.height == height
                &&& img.pixels@ == pixels@
            },
    {
        let expected = width.checked_mul(height);
        if expected == Some(pixels.len()) {
            Some(GrayRaster { width, height, pixels })
        } else {
            None
        }
    }

    pub fn width(&self) -> (w: usize)
        ensures
            w == self.width,
    {
        self.width
    }

    pub fn height(&self) -> (h: usize)
        ensures
            h == self.height,
    {
        self.height
    }

    /// Reads one luminance sample.
    pub fn get(&self, x: usize, y: usize) -> (p: u8)
        requires
            self.wf(),
            x < self.width,
            y < self.height,
        ensures
            p == self.pixel(x as int, y as int),
    {
        let n = self.pixels.len();
        proof {
            lemma_row_major_index_in_range(
                x as int,
                y as int,
                self.width as int,
                self.height as int,
            );
        }
        self.pixels[y * self.width + x]
    }
}

/// A row-major index lies strictly inside the `width * height` buffer.
pub proof fn lemma_row_major_index_in_range(x: int, y: int, width: int, height: int)
    requires
        0 <= x < width,
        0 <= y < height,
    ensures
        0 <= y * width + x < width * height,
{
    assert(0 <= y * width + x < width * height) by (nonlinear_arith)
        requires
            0 <= x < width,
            0 <= y < height,
    ;
}

} // verus!
