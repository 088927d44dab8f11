use barcode_scan::grid::Grid;
use barcode_scan::raster::GrayRaster;
use barcode_scan::regions::{detect_regions, Region};
use barcode_scan::scanline::{extract_band_scanlines, extract_scanline};
use rustfft::num_complex::Complex;
use rustfft::FftPlanner;

const THRESHOLD: f32 = 50.0;

/// The spectral score of a binarized scanline, exactly as the scanning
/// application computes it: the sum of the magnitudes of all non-DC Fourier
/// coefficients, clamped to 0.0 when it does not exceed the threshold.
fn spectral_score(line: &[u8], threshold: f32) -> f32 {
    let mut buf: Vec<Complex<f32>> =
        line.iter().map(|&v| Complex::new(v as f32, 0.0)).collect();
    let mut planner = FftPlanner::<f32>::new();
    let fft = planner.plan_fft_forward(buf.len());
    fft.process(&mut buf);
    let raw: f32 = buf
        .iter()
        .skip(1)
        .map(|c| (c.re * c.re + c.im * c.im).sqrt())
        .sum();
    if raw > threshold {
        raw
    } else {
        0.0
    }
}

fn run_pipeline(
    img: &GrayRaster,
    num_cols: usize,
    tile_h: usize,
    threshold: f32,
    k: usize,
) -> Vec<Region> {
    let g = Grid::plan(img.width(), img.height(), num_cols, tile_h).unwrap();
    let mut rows: Vec<Vec<bool>> = Vec::new();
    for b in 0..g.num_rows {
        let lines = extract_band_scanlines(img, &g, b);
        let hot: Vec<bool> = lines
            .iter()
            .map(|line| spectral_score(line, threshold) > 0.0)
            .collect();
        rows.push(hot);
    }
    detect_regions(&g, &rows, k)
}

#[test]
fn constant_black_scanline_scores_zero() {
    let img = GrayRaster::new(64, 4, vec![0u8; 64 * 4]).unwrap();
    let line = extract_scanline(&img, 0, 0, 64, 4);
    assert_eq!(spectral_score(&line, THRESHOLD), 0.0);
}

#[test]
fn constant_white_scanline_scores_zero() {
    let img = GrayRaster::new(64, 4, vec![255u8; 64 * 4]).unwrap();
    let line = extract_scanline(&img, 0, 0, 64, 4);
    assert_eq!(spectral_score(&line, THRESHOLD), 0.0);
}

#[test]
fn nyquist_stripes_exceed_the_default_threshold() {
    let width: usize = 128;
    let pixels: Vec<u8> = (0..width * 4)
        .map(|i| if (i % width) % 2 == 0 { 255u8 } else { 0u8 })
        .collect();
    let img = GrayRaster::new(width, 4, pixels).unwrap();
    let line = extract_scanline(&img, 0, 0, width, 4);
    let score = spectral_score(&line, THRESHOLD);
    assert!(score > 0.0);
    assert!(score > THRESHOLD);
}

#[test]
fn striped_tiles_yield_one_region_per_band() {
    let width: usize = 1280;
    let height: usize = 8;
    let pixels: Vec<u8> = (0..width * height)
        .map(|i| {
            let x = i % width;
            if (256..896).contains(&x) && x % 2 == 0 {
                255u8
            } else {
                0u8
            }
        })
        .collect();
    let img = GrayRaster::new(width, height, pixels).unwrap();
    let regions = run_pipeline(&img, 10, 4, THRESHOLD, 5);
    assert_eq!(
        regions,
        vec![
            Region { x_start: 256, x_end: 896, y_start: 0, y_end: 4 },
            Region { x_start: 256, x_end: 896, y_start: 4, y_end: 8 },
        ]
    );
}

#[test]
fn rerunning_the_pipeline_is_idempotent() {
    let width: usize = 640;
    let height: usize = 8;
    let pixels: Vec<u8> = (0..width * height)
        .map(|i| {
            let x = i % width;
            if x >= 64 && x % 2 == 0 {
                200u8
            } else {
                10u8
            }
        })
        .collect();
    let img = GrayRaster::new(width, height, pixels).unwrap();
    let first = run_pipeline(&img, 5, 4, THRESHOLD, 3);
    let second = run_pipeline(&img, 5, 4, THRESHOLD, 3);
    assert_eq!(first, second);
    assert!(!first.is_empty());
}
