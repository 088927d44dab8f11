use crate::grid::{lemma_grid_in_image, lemma_mul_le, lemma_tile_span, Grid};
use crate::runs::{col_spans, run_len, spans_upto};
use vstd::prelude::*;

verus! {

/// A rectangular image area flagged as likely containing a barcode, in image
/// pixel coordinates, half-open on x and on y.
#[derive(Clone, Copy, Debug, PartialEq, Eq, Structural)]
pub struct Region {
    pub x_start: usize,
    pub x_end: usize,
    pub y_start: usize,
    pub y_end: usize,
}

/// The region reported for the tile columns `s ..= l` of a band spanning the
/// rows `y0 .. y1`.
pub open spec fn region_for_span(s: int, l: int, tile_w: int, y0: int, y1: int) -> Region {
    Region {
        x_start: (s * tile_w) as usize,
        x_end: ((l + 1) * tile_w) as usize,
        y_start: y0 as usize,
        y_end: y1 as usize,
    }
}

/// The regions of a list of column spans, one region per span, in order.
pub open spec fn regions_of_spans(spans: Seq<(int, int)>, tile_w: int, y0: int, y1: int) -> Seq<
    Region,
>
    decreases spans.len(),
{
    if spans.len() == 0 {
        Seq::empty()
    } else {
        regions_of_spans(spans.drop_last(), tile_w, y0, y1).push(
            region_for_span(spans.last().0, spans.last().1, tile_w, y0, y1),
        )
    }
}

/// Each region simply renders the span of the same position.
pub proof fn lemma_regions_of_spans_index(
    spans: Seq<(int, int)>,
    tile_w: int,
    y0: int,
    y1: int,
    j: int,
)
    requires
        0 <= j < spans.len(),
    ensures
        regions_of_spans(spans, tile_w, y0, y1).len() == spans.len(),
        regions_of_spans(spans, tile_w, y0, y1)[j] == region_for_span(
            spans[j].0,
            spans[j].1,
            tile_w,
            y0,
            y1,
        ),
    decreases spans.len(),
{
    lemma_regions_of_spans_len(spans, tile_w, y0, y1);
    if j < spans.len() - 1 {
        lemma_regions_of_spans_index(spans.drop_last(), tile_w, y0, y1, j);
    }
}

/// There are exactly as many regions as spans.
pub proof fn lemma_regions_of_spans_len(spans: Seq<(int, int)>, tile_w: int, y0: int, y1: int)
    ensures
        regions_of_spans(spans, tile_w, y0, y1).len() == spans.len(),
    decreases spans.len(),
{
    if spans.len() > 0 {
        lemma_regions_of_spans_len(spans.drop_last(), tile_w, y0, y1);
    }
}

/// All regions one band contributes, in emission order: one per span of
/// consecutive hot columns that has reached the minimum run length `k`.
pub open spec fn band_regions(hot: Seq<bool>, k: int, tile_w: int, y0: int, y1: int) -> Seq<
    Region,
> {
    regions_of_spans(col_spans(hot, k), tile_w, y0, y1)
}

/// The sequences of column verdicts of a stack of score rows.
pub open spec fn row_views(rows: Seq<Vec<bool>>) -> Seq<Seq<bool>> {
    Seq::new(rows.len(), |b: int| rows[b]@)
}

/// All regions the first `b` bands contribute, band-major: band `b` spans the
/// rows `b * tile_h .. (b + 1) * tile_h`.
pub open spec fn regions_upto(
    rows: Seq<Seq<bool>>,
    k: int,
    tile_w: int,
    tile_h: int,
    b: int,
) -> Seq<Region>
    decreases b,
{
    if b <= 0 {
        Seq::empty()
    } else {
        regions_upto(rows, k, tile_w, tile_h, b - 1) + band_regions(
            rows[b - 1],
            k,
            tile_w,
            (b - 1) * tile_h,
            (b - 1) * tile_h + tile_h,
        )
    }
}

/// All regions of the whole image, every band judged independently.
pub open spec fn all_regions(rows: Seq<Seq<bool>>, k: int, tile_w: int, tile_h: int) -> Seq<
    Region,
> {
    regions_upto(rows, k, tile_w, tile_h, rows.len() as int)
}

/// Scans one score row left to right and emits a region the moment a run of
/// consecutive hot columns reaches length `k`, and again on every further
/// column that extends the same run (the growing-box re-emission policy).
pub fn aggregate_band(
    hot: &Vec<bool>,
    k: usize,
    tile_w: usize,
    y_start: usize,
    y_end: usize,
) -> (out: Vec<Region>)
    requires
        1 <= k,
        1 <= tile_w,
        hot@.len() * tile_w <= usize::MAX,
    ensures
        out@ == band_regions(hot@, k as int, tile_w as int, y_start as int, y_end as int),
{
    let n = hot.len();
    let mut out: Vec<Region> = Vec::new();
    let mut count: usize = 0;
    let mut start: usize = 0;
    for i in 0..n
        invariant
            n == hot@.len(),
            n * tile_w <= usize::MAX,
            1 <= k,
            1 <= tile_w,
            count == run_len(hot@, i as int - 1),
            count <= i,
            count > 0 ==> start == i - count,
            out@ == regions_of_spans(
                spans_upto(hot@, k as int, i as int),
                tile_w as int,
                y_start as int,
                y_end as int,
            ),
    {
        if hot[i] {
            if count == 0 {
                start = i;
            }
            count = count + 1;
            proof {
                assert(run_len(hot@, i as int) == count);
            }
            if count >= k {
                proof {
                    lemma_mul_le(start as int, n as int, tile_w as int);
                    lemma_mul_le(i as int + 1, n as int, tile_w as int);
                }
                out.push(
                    Region {
                        x_start: start * tile_w,
                        x_end: (i + 1) * tile_w,
                        y_start,
                        y_end,
                    },
                );
                proof {
                    let prev = spans_upto(hot@, k as int, i as int);
                    let next = spans_upto(hot@, k as int, i as int + 1);
                    assert(next == prev.push((i as int + 1 - count, i as int)));
                    assert(next.drop_last() =~= prev);
                    assert(out@.last() == region_for_span(
                        i as int + 1 - count,
                        i as int,
                        tile_w as int,
                        y_start as int,
                        y_end as int,
                    ));
                }
            } else {
                proof {
                    assert(spans_upto(hot@, k as int, i as int + 1) == spans_upto(
                        hot@,
                        k as int,
                        i as int,
                    ));
                }
            }
        } else {
            count = 0;
            proof {
                assert(run_len(hot@, i as int) == 0);
                assert(spans_upto(hot@, k as int, i as int + 1) == spans_upto(
                    hot@,
                    k as int,
                    i as int,
                ));
            }
        }
    }
    out
}

/// Runs the aggregator over every band of the grid, top to bottom, and
/// concatenates the regions: row `b` of `hot_rows` is the score-row verdict of
/// band `b`, and its regions carry that band's vertical extent.
pub fn detect_regions(g: &Grid, hot_rows: &Vec<Vec<bool>>, k: usize) -> (out: Vec<Region>)
    requires
        g.wf(),
        1 <= k,
        hot_rows@.len() == g.num_rows,
        forall|b: int| 0 <= b < hot_rows@.len() ==> (#[trigger] hot_rows@[b])@.len() == g.num_cols,
    ensures
        out@ == all_regions(row_views(hot_rows@), k as int, g.tile_w as int, g.tile_h as int),
{
    proof {
        lemma_grid_in_image(*g);
    }
    let num_rows = hot_rows.len();
    let mut out: Vec<Region> = Vec::new();
    for b in 0..num_rows
        invariant
            g.wf(),
            1 <= k,
            num_rows == hot_rows@.len(),
            hot_rows@.len() == g.num_rows,
            g.num_cols * g.tile_w <= g.width,
            g.num_rows * g.tile_h <= g.height,
            forall|j: int|
                0 <= j < hot_rows@.len() ==> (#[trigger] hot_rows@[j])@.len() == g.num_cols,
            out@ == regions_upto(
                row_views(hot_rows@),
                k as int,
                g.tile_w as int,
                g.tile_h as int,
                b as int,
            ),
    {
        proof {
            lemma_tile_span(b as int, g.num_rows as int, g.tile_h as int);
        }
        let y_start = b * g.tile_h;
        let y_end = y_start + g.tile_h;
        let mut band = aggregate_band(&hot_rows[b], k, g.tile_w, y_start, y_end);
        out.append(&mut band);
        proof {
            assert(out@ =~= regions_upto(
                row_views(hot_rows@),
                k as int,
                g.tile_w as int,
                g.tile_h as int,
                b as int + 1,
            ));
        }
    }
    out
}

/// Each region of a band reports exactly the pixel columns of the span of the
/// same position, and lies inside the band: `x_start < x_end`, the x extent
/// stays within the `hot.len()` tile columns, and the y extent is the band's.
pub proof fn lemma_band_region_coords(
    hot: Seq<bool>,
    k: int,
    tile_w: int,
    y0: usize,
    y1: usize,
    j: int,
)
    requires
        1 <= k,
        1 <= tile_w,
        hot.len() * tile_w <= usize::MAX,
        0 <= j < band_regions(hot, k, tile_w, y0 as int, y1 as int).len(),
    ensures
        band_regions(hot, k, tile_w, y0 as int, y1 as int).len() == col_spans(hot, k).len(),
        band_regions(hot, k, tile_w, y0 as int, y1 as int)[j].x_start == col_spans(hot, k)[j].0
            * tile_w,
        band_regions(hot, k, tile_w, y0 as int, y1 as int)[j].x_end == (col_spans(hot, k)[j].1 + 1)
            * tile_w,
        band_regions(hot, k, tile_w, y0 as int, y1 as int)[j].y_start == y0,
        band_regions(hot, k, tile_w, y0 as int, y1 as int)[j].y_end == y1,
        band_regions(hot, k, tile_w, y0 as int, y1 as int)[j].x_start < band_regions(
            hot,
            k,
            tile_w,
            y0 as int,
            y1 as int,
        )[j].x_end,
        band_regions(hot, k, tile_w, y0 as int, y1 as int)[j].x_end <= hot.len() * tile_w,
{
    lemma_regions_of_spans_len(col_spans(hot, k), tile_w, y0 as int, y1 as int);
    lemma_regions_of_spans_index(col_spans(hot, k), tile_w, y0 as int, y1 as int, j);
    crate::runs::lemma_span_in_single_run(hot, k, j);
    let s = col_spans(hot, k)[j].0;
    let l = col_spans(hot, k)[j].1;
    lemma_tile_span(s, l + 1, tile_w);
    lemma_mul_le(l + 1, hot.len() as int, tile_w);
    vstd::arithmetic::mul::lemma_mul_nonnegative(s, tile_w);
}

/// Every maximal run of at least `k` hot columns is reported: the band's
/// regions include the box over the run's first `k` tiles.
pub proof fn lemma_qualifying_run_region(
    hot: Seq<bool>,
    k: int,
    tile_w: int,
    y0: usize,
    y1: usize,
    s: int,
    len: int,
)
    requires
        1 <= k,
        1 <= tile_w,
        k <= len,
        0 <= s,
        s + len <= hot.len(),
        hot.len() * tile_w <= usize::MAX,
        forall|c: int| s <= c < s + len ==> hot[c],
        s == 0 || !hot[s - 1],
    ensures
        exists|j: int|
            0 <= j < band_regions(hot, k, tile_w, y0 as int, y1 as int).len()
                && #[trigger] band_regions(hot, k, tile_w, y0 as int, y1 as int)[j]
                == region_for_span(s, s + k - 1, tile_w, y0 as int, y1 as int),
{
    crate::runs::lemma_qualifying_run_emits(hot, k, s, len);
    let j = choose|j: int|
        0 <= j < col_spans(hot, k).len() && #[trigger] col_spans(hot, k)[j] == (s, s + k - 1);
    lemma_regions_of_spans_index(col_spans(hot, k), tile_w, y0 as int, y1 as int, j);
    assert(0 <= j < band_regions(hot, k, tile_w, y0 as int, y1 as int).len());
    assert(band_regions(hot, k, tile_w, y0 as int, y1 as int)[j] == region_for_span(
        s,
        s + k - 1,
        tile_w,
        y0 as int,
        y1 as int,
    ));
}

/// When the score row holds exactly one run of hot columns, at tile column
/// `s` with length `len`, a run shorter than `k` yields no region at all, and
/// a longer one yields one region per column at which it has reached length
/// `k`, every one starting at the run's first pixel column: a run of length
/// exactly `k - 1` yields zero regions, one of length exactly `k` yields one.
pub proof fn lemma_lone_run_regions(
    hot: Seq<bool>,
    k: int,
    tile_w: int,
    y0: usize,
    y1: usize,
    s: int,
    len: int,
)
    requires
        1 <= k,
        1 <= tile_w,
        0 <= s,
        0 <= len,
        s + len <= hot.len(),
        hot.len() * tile_w <= usize::MAX,
        forall|c: int| 0 <= c < hot.len() ==> (hot[c] <==> s <= c < s + len),
    ensures
        band_regions(hot, k, tile_w, y0 as int, y1 as int).len() == if len >= k {
            len - k + 1
        } else {
            0
        },
        forall|j: int|
            0 <= j < band_regions(hot, k, tile_w, y0 as int, y1 as int).len()
                ==> #[trigger] band_regions(hot, k, tile_w, y0 as int, y1 as int)[j]
                == region_for_span(s, s + k - 1 + j, tile_w, y0 as int, y1 as int),
{
    crate::runs::lemma_lone_run_spans(hot, k, s, len);
    lemma_regions_of_spans_len(col_spans(hot, k), tile_w, y0 as int, y1 as int);
    assert forall|j: int|
        0 <= j < band_regions(hot, k, tile_w, y0 as int, y1 as int).len()
            implies #[trigger] band_regions(hot, k, tile_w, y0 as int, y1 as int)[j]
            == region_for_span(s, s + k - 1 + j, tile_w, y0 as int, y1 as int) by {
        lemma_regions_of_spans_index(col_spans(hot, k), tile_w, y0 as int, y1 as int, j);
    }
}

/// When the score row holds exactly two runs of hot columns, separated by at
/// least one cold column, the band reports them one after the other and never
/// merges them: each run contributes exactly `len - k + 1` regions, every one
/// starting at its own run's first pixel column. Two runs of length exactly
/// `k` therefore yield exactly one region each.
pub proof fn lemma_two_runs_regions(
    hot: Seq<bool>,
    k: int,
    tile_w: int,
    y0: usize,
    y1: usize,
    s1: int,
    l1: int,
    s2: int,
    l2: int,
)
    requires
        1 <= k,
        1 <= tile_w,
        k <= l1,
        k <= l2,
        0 <= s1,
        s1 + l1 < s2,
        s2 + l2 <= hot.len(),
        hot.len() * tile_w <= usize::MAX,
        forall|c: int|
            0 <= c < hot.len() ==> (hot[c] <==> (s1 <= c < s1 + l1 || s2 <= c < s2 + l2)),
    ensures
        band_regions(hot, k, tile_w, y0 as int, y1 as int).len() == (l1 - k + 1) + (l2 - k + 1),
        forall|j: int|
            0 <= j < l1 - k + 1 ==> #[trigger] band_regions(hot, k, tile_w, y0 as int, y1 as int)[j]
                == region_for_span(s1, s1 + k - 1 + j, tile_w, y0 as int, y1 as int),
        forall|j: int|
            l1 - k + 1 <= j < band_regions(hot, k, tile_w, y0 as int, y1 as int).len()
                ==> #[trigger] band_regions(hot, k, tile_w, y0 as int, y1 as int)[j]
                == region_for_span(s2, s2 + k - 1 + (j - (l1 - k + 1)), tile_w, y0 as int, y1 as int),
{
    crate::runs::lemma_two_runs_spans(hot, k, s1, l1, s2, l2);
    lemma_regions_of_spans_len(col_spans(hot, k), tile_w, y0 as int, y1 as int);
    assert forall|j: int|
        0 <= j < band_regions(hot, k, tile_w, y0 as int, y1 as int).len()
            implies #[trigger] band_regions(hot, k, tile_w, y0 as int, y1 as int)[j]
            == region_for_span(
            col_spans(hot, k)[j].0,
            col_spans(hot, k)[j].1,
            tile_w,
            y0 as int,
            y1 as int,
        ) by {
        lemma_regions_of_spans_index(col_spans(hot, k), tile_w, y0 as int, y1 as int, j);
    }
}

/// The prefix form of `lemma_all_region_bounds`, by induction over the bands.
proof fn lemma_regions_upto_bounds(
    rows: Seq<Seq<bool>>,
    k: int,
    tile_w: int,
    tile_h: int,
    num_cols: int,
    b: int,
    j: int,
)
    requires
        1 <= k,
        1 <= tile_w,
        1 <= tile_h,
        forall|i: int| 0 <= i < rows.len() ==> (#[trigger] rows[i]).len() == num_cols,
        num_cols * tile_w <= usize::MAX,
        rows.len() * tile_h <= usize::MAX,
        0 <= b <= rows.len(),
        0 <= j < regions_upto(rows, k, tile_w, tile_h, b).len(),
    ensures
        regions_upto(rows, k, tile_w, tile_h, b)[j].x_start < regions_upto(
            rows,
            k,
            tile_w,
            tile_h,
            b,
        )[j].x_end,
        regions_upto(rows, k, tile_w, tile_h, b)[j].x_end <= num_cols * tile_w,
        regions_upto(rows, k, tile_w, tile_h, b)[j].y_end == regions_upto(
            rows,
            k,
            tile_w,
            tile_h,
            b,
        )[j].y_start + tile_h,
    decreases b,
{
    let prefix = regions_upto(rows, k, tile_w, tile_h, b - 1);
    if j < prefix.len() {
        lemma_regions_upto_bounds(rows, k, tile_w, tile_h, num_cols, b - 1, j);
    } else {
        lemma_tile_span(b - 1, rows.len() as int, tile_h);
        let y0 = (b - 1) * tile_h;
        let jb = j - prefix.len();
        lemma_band_region_coords(
            rows[b - 1],
            k,
            tile_w,
            y0 as usize,
            (y0 + tile_h) as usize,
            jb,
        );
    }
}

/// Every region of the whole scan keeps the data-model invariants: its x
/// extent is non-empty and stays within the `num_cols` covered tile columns,
/// and its y extent is exactly one band, `tile_h` rows tall.
pub proof fn lemma_all_region_bounds(
    rows: Seq<Seq<bool>>,
    k: int,
    tile_w: int,
    tile_h: int,
    num_cols: int,
    j: int,
)
    requires
        1 <= k,
        1 <= tile_w,
        1 <= tile_h,
        forall|i: int| 0 <= i < rows.len() ==> (#[trigger] rows[i]).len() == num_cols,
        num_cols * tile_w <= usize::MAX,
        rows.len() * tile_h <= usize::MAX,
        0 <= j < all_regions(rows, k, tile_w, tile_h).len(),
    ensures
        all_regions(rows, k, tile_w, tile_h)[j].x_start < all_regions(rows, k, tile_w, tile_h)[j].x_end,
        all_regions(rows, k, tile_w, tile_h)[j].x_end <= num_cols * tile_w,
        all_regions(rows, k, tile_w, tile_h)[j].y_end == all_regions(rows, k, tile_w, tile_h)[j].y_start + tile_h,
{
    lemma_regions_upto_bounds(rows, k, tile_w, tile_h, num_cols, rows.len() as int, j);
}

/// Determinism of the whole detection, and with it idempotence of re-running
/// it: any two region lists obtained from the same score-row verdicts and the
/// same configuration are equal.
pub proof fn lemma_detection_deterministic(
    r1: Seq<Region>,
    r2: Seq<Region>,
    rows: Seq<Seq<bool>>,
    k: int,
    tile_w: int,
    tile_h: int,
)
    requires
        r1 == all_regions(rows, k, tile_w, tile_h),
        r2 == all_regions(rows, k, tile_w, tile_h),
    ensures
        r1 == r2,
{
}

} // verus!
