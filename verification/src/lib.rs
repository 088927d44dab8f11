//! Locates probable barcode regions in a grayscale image.
//!
//! The image is cut into a grid of fixed-size tiles. For every tile the single
//! pixel row at the tile's vertical midpoint is binarized; a spectral score of
//! that scanline (computed by the caller, outside this crate) decides whether
//! the tile shows the high-frequency striped texture of a barcode. Runs of
//! horizontally consecutive high-scoring tiles of a minimum length are
//! aggregated into rectangular regions.

pub mod grid;
pub mod raster;
pub mod regions;
pub mod runs;
pub mod scanline;
