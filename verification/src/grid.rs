use vstd::arithmetic::div_mod::lemma_fundamental_div_mod;
use vstd::arithmetic::mul::lemma_mul_inequality;
use vstd::prelude::*;

verus! {

/// The tile grid laid over an image: `num_cols` equal-width columns of width
/// `tile_w = width / num_cols`, and `num_rows = height / tile_h` bands of
/// fixed height `tile_h`. Remainder pixels on the right and bottom edges fall
/// outside the grid and are ignored (an explicit truncation policy).
pub struct Grid {
    pub width: usize,
    pub height: usize,
    pub num_cols: usize,
    pub tile_w: usize,
    pub num_rows: usize,
    pub tile_h: usize,
}

impl Grid {
    /// Grid geometry as `plan` derives it: at least one column and band of
    /// positive size, with the derived quantities given by integer division.
    pub open spec fn wf(self) -> bool {
        &&& 1 <= self.num_cols
        &&& 1 <= self.tile_h
        &&& 1 <= self.tile_w
        &&& self.tile_w == self.width as int / self.num_cols as int
        &&& self.num_rows == self.height as int / self.tile_h as int
    }

    /// The grid partitions this image.
    pub open spec fn fits(self, width: usize, height: usize) -> bool {
        self.width == width && self.height == height
    }

    /// Derives the grid for an image of `width` x `height` pixels. Fails
    /// exactly on the degenerate configurations: no columns, a zero band
    /// height, or more columns than image pixels per row (which would make the
    /// tiles zero pixels wide).
    pub fn plan(width: usize, height: usize, num_cols: usize, tile_h: usize) -> (g: Option<Grid>)
        ensures
            g is Some <==> 1 <= num_cols && 1 <= tile_h && num_cols <= width,
            g is Some ==> {
                let grid = g->Some_0;
                &&& grid.wf()
                &&& grid.fits(width, height)
                &&& grid.num_cols == num_cols
                &&& grid.tile_h == tile_h
                &&& grid.tile_w == width / num_cols
                &&& grid.num_rows == height / tile_h
            },
    {
        if num_cols == 0 || tile_h == 0 || num_cols > width {
            return None;
        }
        let tile_w = width / num_cols;
        let num_rows = height / tile_h;
        proof {
            vstd::arithmetic::div_mod::lemma_div_non_zero(width as int, num_cols as int);
        }
        Some(Grid { width, height, num_cols, tile_w, num_rows, tile_h })
    }
}

/// The grid never reaches past the image: the columns together cover at most
/// `width` pixels and the bands at most `height`.
pub proof fn lemma_grid_in_image(g: Grid)
    requires
        g.wf(),
    ensures
        g.num_cols * g.tile_w <= g.width,
        g.num_rows * g.tile_h <= g.height,
{
    lemma_fundamental_div_mod(g.width as int, g.num_cols as int);
    lemma_fundamental_div_mod(g.height as int, g.tile_h as int);
}

/// A whole tile in column `c` spans columns `c * tile_w .. (c + 1) * tile_w`,
/// which stay inside the covered `n * tile_w` pixels.
pub proof fn lemma_tile_span(c: int, n: int, w: int)
    requires
        0 <= c < n,
        0 <= w,
    ensures
        0 <= c * w,
        c * w + w <= n * w,
{
    assert(0 <= c * w && c * w + w <= n * w) by (nonlinear_arith)
        requires
            0 <= c < n,
            0 <= w,
    ;
}

/// Multiplication by a non-negative factor keeps the order of the operands.
pub proof fn lemma_mul_le(a: int, b: int, w: int)
    requires
        a <= b,
        0 <= w,
    ensures
        a * w <= b * w,
{
    lemma_mul_inequality(a, b, w);
}

} // verus!
