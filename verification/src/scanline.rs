use crate::grid::{lemma_grid_in_image, lemma_tile_span, Grid};
use crate::raster::GrayRaster;
use vstd::prelude::*;

verus! {

/// 1 where the sample is strictly brighter than the binarization threshold of
/// 128, else 0.
pub open spec fn binarized(p: u8) -> u8 {
    if p > 128 {
        1u8
    } else {
        0u8
    }
}

/// The binarized scanline of `w` samples starting at column `x0` of row `y`.
pub open spec fn scanline_at(img: GrayRaster, x0: int, y: int, w: int) -> Seq<u8> {
    Seq::new(w as nat, |i: int| binarized(img.pixel(x0 + i, y)))
}

/// The row a tile is judged by: the one at its vertical midpoint.
pub open spec fn mid_row(y_start: int, tile_h: int) -> int {
    y_start + tile_h / 2
}

/// Reads the `tile_w` pixels at the vertical midpoint of the tile whose
/// top-left corner is `(x_start, y_start)` and binarizes each one.
pub fn extract_scanline(
    img: &GrayRaster,
    x_start: usize,
    y_start: usize,
    tile_w: usize,
    tile_h: usize,
) -> (line: Vec<u8>)
    requires
        img.wf(),
        1 <= tile_w,
        x_start + tile_w <= img.width,
        y_start + tile_h / 2 < img.height,
    ensures
        line@ == scanline_at(*img, x_start as int, mid_row(y_start as int, tile_h as int), tile_w as int),
{
    let y = y_start + tile_h / 2;
    let mut line: Vec<u8> = Vec::new();
    for i in 0..tile_w
        invariant
            img.wf(),
            x_start + tile_w <= img.width,
            y < img.height,
            y == y_start + tile_h / 2,
            line@.len() == i,
            forall|j: int|
                0 <= j < i ==> line@[j] == binarized(img.pixel(x_start + j, y as int)),
    {
        let p = img.get(x_start + i, y);
        line.push(if p > 128 {
            1u8
        } else {
            0u8
        });
    }
    proof {
        assert(line@ =~= scanline_at(
            *img,
            x_start as int,
            mid_row(y_start as int, tile_h as int),
            tile_w as int,
        ));
    }
    line
}

/// Extracts the binarized midpoint scanline of every tile of one band, in
/// left-to-right column order.
pub fn extract_band_scanlines(img: &GrayRaster, g: &Grid, band: usize) -> (lines: Vec<Vec<u8>>)
    requires
        img.wf(),
        g.wf(),
        g.fits(img.width, img.height),
        band < g.num_rows,
    ensures
        lines@.len() == g.num_cols,
        forall|c: int|
            0 <= c < g.num_cols ==> lines@[c]@ == scanline_at(
                *img,
                c * g.tile_w,
                mid_row(band * g.tile_h, g.tile_h as int),
                g.tile_w as int,
            ),
{
    proof {
        lemma_grid_in_image(*g);
        lemma_tile_span(band as int, g.num_rows as int, g.tile_h as int);
    }
    let y_start = band * g.tile_h;
    let mut lines: Vec<Vec<u8>> = Vec::new();
    for c in 0..g.num_cols
        invariant
            img.wf(),
            g.wf(),
            g.fits(img.width, img.height),
            y_start == band * g.tile_h,
            y_start + g.tile_h <= img.height,
            lines@.len() == c,
            forall|j: int|
                0 <= j < c ==> lines@[j]@ == scanline_at(
                    *img,
                    j * g.tile_w,
                    mid_row(band * g.tile_h, g.tile_h as int),
                    g.tile_w as int,
                ),
    {
        proof {
            lemma_grid_in_image(*g);
            lemma_tile_span(c as int, g.num_cols as int, g.tile_w as int);
        }
        let x_start = c * g.tile_w;
        let line = extract_scanline(img, x_start, y_start, g.tile_w, g.tile_h);
        lines.push(line);
    }
    lines
}

} // verus!
