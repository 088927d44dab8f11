use barcode_scan::grid::Grid;
use barcode_scan::raster::GrayRaster;
use barcode_scan::regions::{aggregate_band, detect_regions, Region};
use barcode_scan::scanline::{extract_band_scanlines, extract_scanline};

fn hot_row(scores: &[f32]) -> Vec<bool> {
    scores.iter().map(|&s| s > 0.0).collect()
}

#[test]
fn grid_plan_derives_tiling_by_integer_division() {
    let g = Grid::plan(600, 350, 60, 100).unwrap();
    assert_eq!(g.tile_w, 10);
    assert_eq!(g.num_cols, 60);
    assert_eq!(g.num_rows, 3);
    assert_eq!(g.tile_h, 100);
}

#[test]
fn grid_plan_truncates_remainder_pixels() {
    let g = Grid::plan(607, 399, 60, 100).unwrap();
    assert_eq!(g.tile_w, 10);
    assert_eq!(g.num_rows, 3);
}

#[test]
fn grid_plan_rejects_degenerate_configurations() {
    assert!(Grid::plan(600, 350, 0, 100).is_none());
    assert!(Grid::plan(600, 350, 60, 0).is_none());
    assert!(Grid::plan(40, 350, 60, 100).is_none());
}

#[test]
fn raster_new_rejects_wrong_buffer_length() {
    assert!(GrayRaster::new(4, 4, vec![0u8; 15]).is_none());
    assert!(GrayRaster::new(4, 4, vec![0u8; 16]).is_some());
}

#[test]
fn scanline_binarizes_at_threshold_128_strictly() {
    let pixels: Vec<u8> = vec![
        0, 0, 0, 0, //
        0, 0, 0, 0, //
        127, 128, 129, 255, //
        0, 0, 0, 0, //
    ];
    let img = GrayRaster::new(4, 4, pixels).unwrap();
    let line = extract_scanline(&img, 0, 0, 4, 4);
    assert_eq!(line, vec![0u8, 0, 1, 1]);
}

#[test]
fn scanline_reads_the_band_midpoint_row() {
    let mut pixels: Vec<u8> = vec![0u8; 6 * 6];
    for x in 0..6 {
        pixels[3 * 6 + x] = 200;
    }
    let img = GrayRaster::new(6, 6, pixels).unwrap();
    let line = extract_scanline(&img, 0, 0, 6, 6);
    assert_eq!(line, vec![1u8; 6]);
}

#[test]
fn band_scanlines_cover_every_column() {
    let mut pixels: Vec<u8> = vec![0u8; 8 * 4];
    for x in 4..8 {
        pixels[1 * 8 + x] = 255;
    }
    let img = GrayRaster::new(8, 4, pixels).unwrap();
    let g = Grid::plan(8, 4, 2, 2).unwrap();
    let lines = extract_band_scanlines(&img, &g, 0);
    assert_eq!(lines.len(), 2);
    assert_eq!(lines[0], vec![0u8, 0, 0, 0]);
    assert_eq!(lines[1], vec![1u8, 1, 1, 1]);
}

#[test]
fn aggregator_emits_one_region_for_a_five_run() {
    let hot = hot_row(&[0.0, 0.0, 0.0, 5.0, 6.0, 7.0, 8.0, 9.0, 0.0, 0.0]);
    let regions = aggregate_band(&hot, 5, 7, 100, 200);
    assert_eq!(
        regions,
        vec![Region { x_start: 3 * 7, x_end: 8 * 7, y_start: 100, y_end: 200 }]
    );
}

#[test]
fn aggregator_keeps_separated_runs_apart() {
    let hot = hot_row(&[
        1.0, 1.0, 1.0, 1.0, 1.0, 0.0, 2.0, 2.0, 2.0, 2.0, 2.0, 0.0,
    ]);
    let regions = aggregate_band(&hot, 5, 10, 0, 100);
    assert_eq!(regions.len(), 2);
    assert_eq!(
        regions[0],
        Region { x_start: 0, x_end: 50, y_start: 0, y_end: 100 }
    );
    assert_eq!(
        regions[1],
        Region { x_start: 60, x_end: 110, y_start: 0, y_end: 100 }
    );
}

#[test]
fn aggregator_boundary_run_of_k_minus_one_is_silent() {
    let hot = hot_row(&[0.0, 3.0, 3.0, 3.0, 3.0, 0.0, 0.0]);
    let regions = aggregate_band(&hot, 5, 10, 0, 100);
    assert!(regions.is_empty());
}

#[test]
fn aggregator_boundary_run_of_exactly_k_emits_once() {
    let hot = hot_row(&[0.0, 3.0, 3.0, 3.0, 3.0, 3.0, 0.0]);
    let regions = aggregate_band(&hot, 5, 10, 0, 100);
    assert_eq!(
        regions,
        vec![Region { x_start: 10, x_end: 60, y_start: 0, y_end: 100 }]
    );
}

#[test]
fn aggregator_reemits_growing_box_while_run_extends() {
    let hot = hot_row(&[3.0, 3.0, 3.0, 3.0, 3.0, 3.0, 3.0]);
    let regions = aggregate_band(&hot, 5, 10, 0, 100);
    assert_eq!(regions.len(), 3);
    assert_eq!(
        regions[0],
        Region { x_start: 0, x_end: 50, y_start: 0, y_end: 100 }
    );
    assert_eq!(
        regions[1],
        Region { x_start: 0, x_end: 60, y_start: 0, y_end: 100 }
    );
    assert_eq!(
        regions[2],
        Region { x_start: 0, x_end: 70, y_start: 0, y_end: 100 }
    );
}

#[test]
fn detect_concatenates_bands_top_to_bottom() {
    let g = Grid::plan(60, 40, 6, 20).unwrap();
    assert_eq!(g.tile_w, 10);
    assert_eq!(g.num_rows, 2);
    let rows: Vec<Vec<bool>> = vec![
        vec![true, true, true, false, false, false],
        vec![false, false, false, true, true, true],
    ];
    let regions = detect_regions(&g, &rows, 3);
    assert_eq!(regions.len(), 2);
    assert_eq!(
        regions[0],
        Region { x_start: 0, x_end: 30, y_start: 0, y_end: 20 }
    );
    assert_eq!(
        regions[1],
        Region { x_start: 30, x_end: 60, y_start: 20, y_end: 40 }
    );
}

#[test]
fn detect_is_deterministic_on_equal_inputs() {
    let g = Grid::plan(100, 60, 10, 20).unwrap();
    let rows: Vec<Vec<bool>> = vec![
        vec![false, true, true, true, true, true, true, false, false, false],
        vec![false; 10],
        vec![true; 10],
    ];
    let first = detect_regions(&g, &rows, 5);
    let second = detect_regions(&g, &rows, 5);
    assert_eq!(first, second);
    assert!(!first.is_empty());
}
