use vstd::prelude::*;

verus! {

/// Length of the stretch of consecutive `true` entries ending at index `i`:
/// 0 when `i` is out of range or `hot[i]` is false, otherwise one more than
/// the stretch ending at `i - 1`. This is the consecutive-hit counter the
/// aggregator carries while it walks a score row left to right.
pub open spec fn run_len(hot: Seq<bool>, i: int) -> int
    decreases i + 1,
{
    if i < 0 || i >= hot.len() || !hot[i] {
        0
    } else {
        run_len(hot, i - 1) + 1
    }
}

/// The `(start, last)` column pairs emitted while scanning the first `n`
/// columns of a score row, in emission order: one pair for every column `i`
/// whose run of consecutive hot columns has reached length `k`, spanning from
/// the run's start up to `i` inclusive.
pub open spec fn spans_upto(hot: Seq<bool>, k: int, n: int) -> Seq<(int, int)>
    decreases n,
{
    if n <= 0 {
        Seq::empty()
    } else if run_len(hot, n - 1) >= k {
        spans_upto(hot, k, n - 1).push((n - run_len(hot, n - 1), n - 1))
    } else {
        spans_upto(hot, k, n - 1)
    }
}

/// All `(start, last)` column pairs the aggregator emits for one score row.
pub open spec fn col_spans(hot: Seq<bool>, k: int) -> Seq<(int, int)> {
    spans_upto(hot, k, hot.len() as int)
}

/// A run never reaches further back than the start of the row.
pub proof fn lemma_run_len_bounds(hot: Seq<bool>, i: int)
    ensures
        0 <= run_len(hot, i),
        i >= 0 ==> run_len(hot, i) <= i + 1,
        i < hot.len() ==> run_len(hot, i) <= hot.len(),
    decreases i + 1,
{
    if !(i < 0 || i >= hot.len() || !hot[i]) {
        lemma_run_len_bounds(hot, i - 1);
    }
}

/// Every column a run counts is hot, and the column just before the run (if
/// any) is not: the counter measures exactly the maximal hot stretch.
pub proof fn lemma_run_len_window(hot: Seq<bool>, i: int)
    requires
        0 <= i < hot.len(),
    ensures
        forall|c: int| i + 1 - run_len(hot, i) <= c <= i ==> hot[c],
        run_len(hot, i) >= 1 && i - run_len(hot, i) >= 0 ==> !hot[i - run_len(hot, i)],
    decreases i,
{
    reveal_with_fuel(run_len, 2);
    if hot[i] && i > 0 {
        lemma_run_len_window(hot, i - 1);
        lemma_run_len_bounds(hot, i - 2);
    }
}

/// Inside a run that starts at `s` (nothing hot just before `s`, everything
/// hot from `s` through `i`), the counter at `i` reads `i - s + 1`.
pub proof fn lemma_run_len_in_run(hot: Seq<bool>, s: int, i: int)
    requires
        0 <= s <= i < hot.len(),
        forall|c: int| s <= c <= i ==> hot[c],
        s == 0 || !hot[s - 1],
    ensures
        run_len(hot, i) == i - s + 1,
    decreases i,
{
    reveal_with_fuel(run_len, 2);
    if i > s {
        lemma_run_len_in_run(hot, s, i - 1);
    }
}

/// Scanning further only appends spans: what the first `m` columns emitted
/// stands unchanged in what the first `n >= m` columns emit.
pub proof fn lemma_spans_prefix(hot: Seq<bool>, k: int, m: int, n: int)
    requires
        0 <= m <= n,
    ensures
        spans_upto(hot, k, m).len() <= spans_upto(hot, k, n).len(),
        forall|j: int|
            0 <= j < spans_upto(hot, k, m).len() ==> spans_upto(hot, k, n)[j] == spans_upto(
                hot,
                k,
                m,
            )[j],
    decreases n - m,
{
    if m < n {
        lemma_spans_prefix(hot, k, m, n - 1);
    }
}

/// Each emitted span records a column `i` whose run had reached `k`, together
/// with that run's start.
pub proof fn lemma_span_shape(hot: Seq<bool>, k: int, n: int, j: int)
    requires
        0 <= j < spans_upto(hot, k, n).len(),
    ensures
        exists|i: int|
            0 <= i < n && #[trigger] run_len(hot, i) >= k && spans_upto(hot, k, n)[j] == (
                i + 1 - run_len(hot, i),
                i,
            ),
    decreases n,
{
    if n > 0 {
        if run_len(hot, n - 1) >= k && j == spans_upto(hot, k, n - 1).len() {
            let i = n - 1;
            assert(0 <= i < n && run_len(hot, i) >= k && spans_upto(hot, k, n)[j] == (
                i + 1 - run_len(hot, i),
                i,
            ));
        } else {
            lemma_span_shape(hot, k, n - 1, j);
        }
    }
}

/// No emitted span crosses a gap: every span starts at the start of a maximal
/// run of hot columns, covers only hot columns, and is at least `k` columns
/// long. In particular regions built from two separated runs never merge.
pub proof fn lemma_span_in_single_run(hot: Seq<bool>, k: int, j: int)
    requires
        1 <= k,
        0 <= j < col_spans(hot, k).len(),
    ensures
        0 <= col_spans(hot, k)[j].0,
        col_spans(hot, k)[j].0 <= col_spans(hot, k)[j].1 < hot.len(),
        col_spans(hot, k)[j].1 + 1 - col_spans(hot, k)[j].0 >= k,
        forall|c: int| col_spans(hot, k)[j].0 <= c <= col_spans(hot, k)[j].1 ==> hot[c],
        col_spans(hot, k)[j].0 == 0 || !hot[col_spans(hot, k)[j].0 - 1],
{
    lemma_span_shape(hot, k, hot.len() as int, j);
    let i = choose|i: int|
        0 <= i < hot.len() && #[trigger] run_len(hot, i) >= k && col_spans(hot, k)[j] == (
            i + 1 - run_len(hot, i),
            i,
        );
    lemma_run_len_bounds(hot, i);
    lemma_run_len_window(hot, i);
}

/// Every maximal run of at least `k` hot columns is reported: the span from
/// the run's start through its first `k` columns is emitted.
pub proof fn lemma_qualifying_run_emits(hot: Seq<bool>, k: int, s: int, len: int)
    requires
        1 <= k,
        k <= len,
        0 <= s,
        s + len <= hot.len(),
        forall|c: int| s <= c < s + len ==> hot[c],
        s == 0 || !hot[s - 1],
    ensures
        exists|j: int|
            0 <= j < col_spans(hot, k).len() && col_spans(hot, k)[j] == (s, s + k - 1),
{
    let i = s + k - 1;
    lemma_run_len_in_run(hot, s, i);
    let j = spans_upto(hot, k, i).len() as int;
    assert(spans_upto(hot, k, i + 1)[j] == (s, i));
    lemma_spans_prefix(hot, k, i + 1, hot.len() as int);
    assert(col_spans(hot, k)[j] == (s, s + k - 1));
}

/// When the score row holds exactly one run of hot columns, at `s` with
/// length `len`, the aggregator emits no span if the run is shorter than `k`,
/// and otherwise one span for each column at which the run has reached length
/// `k`: the spans `(s, s + k - 1)`, `(s, s + k)`, ..., `(s, s + len - 1)`, in
/// that order. A run of length exactly `k - 1` therefore yields no span and a
/// run of length exactly `k` yields exactly one.
pub proof fn lemma_lone_run_spans(hot: Seq<bool>, k: int, s: int, len: int)
    requires
        1 <= k,
        0 <= s,
        0 <= len,
        s + len <= hot.len(),
        forall|c: int| 0 <= c < hot.len() ==> (hot[c] <==> s <= c < s + len),
    ensures
        col_spans(hot, k).len() == if len >= k {
            len - k + 1
        } else {
            0
        },
        forall|j: int|
            0 <= j < col_spans(hot, k).len() ==> col_spans(hot, k)[j] == (s, s + k - 1 + j),
{
    lemma_lone_run_spans_upto(hot, k, s, len, hot.len() as int);
}

/// How many spans a maximal run at `s` of length `len` has contributed once
/// the scan has passed the first `n` columns: none until the run's first `k`
/// columns have all been seen, then one per further column up to the run's
/// end.
spec fn emitted_of_run(n: int, s: int, len: int, k: int) -> int {
    let e = if n < s + len {
        n
    } else {
        s + len
    };
    if len >= k && e >= s + k {
        e - (s + k - 1)
    } else {
        0
    }
}

/// When the score row holds exactly two runs of hot columns, separated by at
/// least one cold column, the aggregator reports them strictly one after the
/// other and never merges them: first the spans of the left run, all starting
/// at `s1`, then those of the right run, all starting at `s2`, each run
/// contributing exactly `len - k + 1` spans. Two runs of length exactly `k`
/// therefore yield exactly one span each.
pub proof fn lemma_two_runs_spans(hot: Seq<bool>, k: int, s1: int, l1: int, s2: int, l2: int)
    requires
        1 <= k,
        k <= l1,
        k <= l2,
        0 <= s1,
        s1 + l1 < s2,
        s2 + l2 <= hot.len(),
        forall|c: int|
            0 <= c < hot.len() ==> (hot[c] <==> (s1 <= c < s1 + l1 || s2 <= c < s2 + l2)),
    ensures
        col_spans(hot, k).len() == (l1 - k + 1) + (l2 - k + 1),
        forall|j: int| 0 <= j < l1 - k + 1 ==> col_spans(hot, k)[j] == (s1, s1 + k - 1 + j),
        forall|j: int|
            l1 - k + 1 <= j < col_spans(hot, k).len() ==> col_spans(hot, k)[j] == (
                s2,
                s2 + k - 1 + (j - (l1 - k + 1)),
            ),
{
    lemma_two_runs_spans_upto(hot, k, s1, l1, s2, l2, hot.len() as int);
}

/// The prefix form of `lemma_two_runs_spans`.
proof fn lemma_two_runs_spans_upto(
    hot: Seq<bool>,
    k: int,
    s1: int,
    l1: int,
    s2: int,
    l2: int,
    n: int,
)
    requires
        1 <= k,
        k <= l1,
        k <= l2,
        0 <= s1,
        s1 + l1 < s2,
        s2 + l2 <= hot.len(),
        0 <= n <= hot.len(),
        forall|c: int|
            0 <= c < hot.len() ==> (hot[c] <==> (s1 <= c < s1 + l1 || s2 <= c < s2 + l2)),
    ensures
        spans_upto(hot, k, n).len() == emitted_of_run(n, s1, l1, k) + emitted_of_run(
            n,
            s2,
            l2,
            k,
        ),
        forall|j: int|
            0 <= j < emitted_of_run(n, s1, l1, k) ==> spans_upto(hot, k, n)[j] == (
                s1,
                s1 + k - 1 + j,
            ),
        forall|j: int|
            emitted_of_run(n, s1, l1, k) <= j < spans_upto(hot, k, n).len() ==> spans_upto(
                hot,
                k,
                n,
            )[j] == (s2, s2 + k - 1 + (j - emitted_of_run(n, s1, l1, k))),
    decreases n,
{
    if n > 0 {
        lemma_two_runs_spans_upto(hot, k, s1, l1, s2, l2, n - 1);
        let i = n - 1;
        if s1 <= i < s1 + l1 {
            lemma_run_len_in_run(hot, s1, i);
            assert(run_len(hot, i) == i - s1 + 1);
        } else if s2 <= i < s2 + l2 {
            assert(!hot[s2 - 1]);
            lemma_run_len_in_run(hot, s2, i);
            assert(run_len(hot, i) == i - s2 + 1);
        } else {
            assert(!hot[i]);
            assert(run_len(hot, i) == 0);
        }
    }
}

/// The prefix form of `lemma_lone_run_spans`: what scanning the first `n`
/// columns of a lone-run row has emitted.
proof fn lemma_lone_run_spans_upto(hot: Seq<bool>, k: int, s: int, len: int, n: int)
    requires
        1 <= k,
        0 <= s,
        0 <= len,
        s + len <= hot.len(),
        0 <= n <= hot.len(),
        forall|c: int| 0 <= c < hot.len() ==> (hot[c] <==> s <= c < s + len),
    ensures
        spans_upto(hot, k, n).len() == if n > s + k - 1 && len >= k {
            (if n < s + len {
                n
            } else {
                s + len
            }) - (s + k - 1)
        } else {
            0
        },
        forall|j: int|
            0 <= j < spans_upto(hot, k, n).len() ==> spans_upto(hot, k, n)[j] == (
                s,
                s + k - 1 + j,
            ),
    decreases n,
{
    if n > 0 {
        lemma_lone_run_spans_upto(hot, k, s, len, n - 1);
        let i = n - 1;
        if s <= i < s + len {
            lemma_run_len_in_run(hot, s, i);
            assert(run_len(hot, i) == i - s + 1);
        } else {
            assert(!hot[i]);
            assert(run_len(hot, i) == 0);
        }
    }
}

} // verus!
