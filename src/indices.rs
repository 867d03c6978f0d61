//! Wireframe connectivity: the line segments that join neighbouring samples of a grid.
use vstd::prelude::*;

use crate::grid::{point_id, within_caps, INDEX_SIZE, MAX_HEIGHT, MAX_WIDTH};

verus! {

/// The ids that sample `(x, y)` contributes: the segment to the sample one row up
/// (unless `y` is the last row), then the segment to the sample on its right
/// (unless `x` is the last column).
pub open spec fn point_edges(w: int, h: int, x: int, y: int) -> Seq<int> {
    let id = point_id(w, x, y);
    (if y + 1 < h { seq![id, id + w] } else { Seq::empty() }) + (if x + 1 < w {
        seq![id, id + 1]
    } else {
        Seq::empty()
    })
}

/// The ids contributed by the first `n` samples of row `y`, columns ascending.
pub open spec fn row_edges(w: int, h: int, y: int, n: nat) -> Seq<int>
    decreases n,
{
    if n == 0 {
        Seq::empty()
    } else {
        row_edges(w, h, y, (n - 1) as nat) + point_edges(w, h, n - 1, y)
    }
}

/// The ids contributed by the first `m` rows, rows ascending.
pub open spec fn rows_edges(w: nat, h: nat, m: nat) -> Seq<int>
    decreases m,
{
    if m == 0 {
        Seq::empty()
    } else {
        rows_edges(w, h, (m - 1) as nat) + row_edges(w as int, h as int, m - 1, w)
    }
}

/// The whole index list of a grid with `w` columns and `h` rows.
pub open spec fn wireframe(w: nat, h: nat) -> Seq<int> {
    rows_edges(w, h, h)
}

/// The number of entries of the index list of a grid with `w >= 1` columns and
/// `h >= 1` rows. (A grid without columns or rows has an empty list.)
pub open spec fn index_count(w: int, h: int) -> int {
    2 * (2 * w * h - w - h)
}

proof fn lemma_row_edges_monotone(w: int, h: int, y: int, n1: nat, n2: nat)
    requires
        n1 <= n2,
    ensures
        row_edges(w, h, y, n1).len() <= row_edges(w, h, y, n2).len(),
    decreases n2,
{
    if n1 < n2 {
        lemma_row_edges_monotone(w, h, y, n1, (n2 - 1) as nat);
    }
}

proof fn lemma_rows_edges_monotone(w: nat, h: nat, m1: nat, m2: nat)
    requires
        m1 <= m2,
    ensures
        rows_edges(w, h, m1).len() <= rows_edges(w, h, m2).len(),
    decreases m2,
{
    if m1 < m2 {
        lemma_rows_edges_monotone(w, h, m1, (m2 - 1) as nat);
    }
}

proof fn lemma_id_bounds(w: int, h: int, x: int, y: int)
    requires
        0 <= x < w,
        0 <= y < h,
    ensures
        0 <= point_id(w, x, y) < w * h,
        y + 1 < h ==> point_id(w, x, y) + w < w * h,
        x + 1 < w ==> point_id(w, x, y) + 1 < w * h,
{
    assert(0 <= y * w + x && y * w + w <= w * h) by (nonlinear_arith)
        requires
            0 <= x < w,
            0 <= y < h,
    ;
    if y + 1 < h {
        assert(y * w + x + w < w * h) by (nonlinear_arith)
            requires
                0 <= x < w,
                0 <= y,
                y + 1 < h,
        ;
    }
}

proof fn lemma_row_edges_len(w: int, h: int, y: int, n: nat)
    requires
        1 <= w,
        n <= w,
    ensures
        row_edges(w, h, y, n).len() == (if y + 1 < h { 2 * n } else { 0 }) + 2 * (if n == w {
            w - 1
        } else {
            n as int
        }),
    decreases n,
{
    if n > 0 {
        lemma_row_edges_len(w, h, y, (n - 1) as nat);
    }
}

proof fn lemma_rows_edges_len(w: nat, h: nat, m: nat)
    requires
        1 <= w,
        1 <= h,
        m <= h,
    ensures
        rows_edges(w, h, m).len() == (if m == h { 2 * w * (h - 1) } else { 2 * w * m as int }) + 2 * m
            * (w - 1),
    decreases m,
{
    if m > 0 {
        let p = (m - 1) as nat;
        lemma_rows_edges_len(w, h, p);
        lemma_row_edges_len(w as int, h as int, p as int, w);
        let (wi, pi, mi) = (w as int, p as int, m as int);
        assert(2 * wi * mi == 2 * wi * pi + 2 * wi) by (nonlinear_arith)
            requires
                mi == pi + 1,
        ;
        assert(2 * mi * (wi - 1) == 2 * pi * (wi - 1) + 2 * (wi - 1)) by (nonlinear_arith)
            requires
                mi == pi + 1,
        ;
        let r = row_edges(w as int, h as int, p as int, w).len();
        assert(rows_edges(w, h, m).len() == rows_edges(w, h, p).len() + r);
        assert(rows_edges(w, h, p).len() == 2 * wi * pi + 2 * pi * (wi - 1));
        if m < h {
            assert(r == 2 * wi + 2 * (wi - 1));
        } else {
            assert(r == 2 * (wi - 1));
            assert(2 * w * (h - 1) == 2 * wi * pi);
        }
    } else {
        assert(2 * w * 0 + 2 * 0 * (w - 1) == 0) by (nonlinear_arith);
    }
}

proof fn lemma_rows_edges_ids(w: nat, h: nat, m: nat)
    requires
        m <= h,
    ensures
        forall|k: int|
            0 <= k < rows_edges(w, h, m).len() ==> 0 <= #[trigger] rows_edges(w, h, m)[k] < w * h,
    decreases m,
{
    if m > 0 {
        let p = (m - 1) as nat;
        lemma_rows_edges_ids(w, h, p);
        lemma_row_edges_ids(w as int, h as int, p as int, w);
        let (a, b) = (rows_edges(w, h, p), row_edges(w as int, h as int, p as int, w));
        assert forall|k: int| 0 <= k < (a + b).len() implies 0 <= #[trigger] (a + b)[k] < w * h by {
            if k >= a.len() {
                assert((a + b)[k] == b[k - a.len()]);
            }
        }
    }
}

proof fn lemma_row_edges_ids(w: int, h: int, y: int, n: nat)
    requires
        0 <= y < h,
        n <= w,
    ensures
        forall|k: int|
            0 <= k < row_edges(w, h, y, n).len() ==> 0 <= #[trigger] row_edges(w, h, y, n)[k] < w
                * h,
    decreases n,
{
    if n > 0 {
        lemma_row_edges_ids(w, h, y, (n - 1) as nat);
        lemma_id_bounds(w, h, n - 1, y);
        let (a, b) = (row_edges(w, h, y, (n - 1) as nat), point_edges(w, h, n - 1, y));
        assert forall|k: int| 0 <= k < (a + b).len() implies 0 <= #[trigger] (a + b)[k] < w * h by {
            if k >= a.len() {
                assert((a + b)[k] == b[k - a.len()]);
            }
        }
    }
}

/// The index list of a grid with at least one column and one row has exactly
/// `2 * (2 * w * h - w - h)` entries, and every entry is the id of a sample of
/// that grid, in `[0, w * h)`.
pub proof fn lemma_wireframe_shape(w: nat, h: nat)
    requires
        1 <= w,
        1 <= h,
    ensures
        wireframe(w, h).len() == index_count(w as int, h as int),
        forall|k: int| 0 <= k < wireframe(w, h).len() ==> 0 <= #[trigger] wireframe(w, h)[k] < w * h,
{
    lemma_rows_edges_len(w, h, h);
    lemma_rows_edges_ids(w, h, h);
    assert(2 * w * (h - 1) + 2 * h * (w - 1) == 2 * (2 * w * h - w - h)) by (nonlinear_arith);
}

proof fn lemma_rows_edges_no_columns(h: nat, m: nat)
    ensures
        rows_edges(0, h, m).len() == 0,
    decreases m,
{
    if m > 0 {
        lemma_rows_edges_no_columns(h, (m - 1) as nat);
    }
}

/// A grid without columns or without rows has an empty index list; any other
/// has `index_count(w, h)` entries.
proof fn lemma_wireframe_len(w: nat, h: nat)
    ensures
        wireframe(w, h).len() == if w >= 1 && h >= 1 { index_count(w as int, h as int) } else { 0 },
{
    if w == 0 {
        lemma_rows_edges_no_columns(h, h);
    } else if h > 0 {
        lemma_wireframe_shape(w, h);
    }
}

/// The index list of any grid within the caps fits a buffer of `INDEX_SIZE` entries.
pub proof fn lemma_index_count_fits(w: nat, h: nat)
    requires
        within_caps(w as int, h as int),
    ensures
        index_count(w as int, h as int) <= INDEX_SIZE,
{
    assert(2 * (2 * w * h - w - h) <= 1046528) by (nonlinear_arith)
        requires
            0 <= w <= 512,
            0 <= h <= 512,
    ;
}

/// What `generate_indices` leaves in a buffer that held `before`.
pub open spec fn wireframe_written(before: Seq<u32>, after: Seq<u32>, nx_pts: u32, ny_pts: u32) -> bool {
    &&& after.len() == before.len()
    &&& !within_caps(nx_pts as int, ny_pts as int) ==> after == before
    &&& within_caps(nx_pts as int, ny_pts as int) ==> {
        let e = wireframe(nx_pts as nat, ny_pts as nat);
        &&& forall|k: int| 0 <= k < e.len() ==> #[trigger] after[k] as int == e[k]
        &&& forall|k: int| e.len() <= k < before.len() ==> #[trigger] after[k] == before[k]
    }
}

/// For a grid of at least one column and one row within the caps, a buffer
/// filled by `generate_indices` holds exactly `2 * (2 * w * h - w - h)` new
/// entries, each the id of a sample of the grid, and nothing after them changed.
pub proof fn lemma_generated_indices(before: Seq<u32>, after: Seq<u32>, nx_pts: u32, ny_pts: u32)
    requires
        1 <= nx_pts <= MAX_WIDTH,
        1 <= ny_pts <= MAX_HEIGHT,
        wireframe_written(before, after, nx_pts, ny_pts),
    ensures
        forall|k: int|
            0 <= k < index_count(nx_pts as int, ny_pts as int) ==> #[trigger] after[k] < nx_pts
                * ny_pts,
        forall|k: int|
            index_count(nx_pts as int, ny_pts as int) <= k < before.len() ==> #[trigger] after[k]
                == before[k],
{
    lemma_wireframe_shape(nx_pts as nat, ny_pts as nat);
    let e = wireframe(nx_pts as nat, ny_pts as nat);
    assert forall|k: int| 0 <= k < index_count(nx_pts as int, ny_pts as int) implies #[trigger] after[k]
        < nx_pts * ny_pts by {
        assert(after[k] as int == e[k]);
    }
}

/// Writes the index list of a grid of `nx_pts` columns and `ny_pts` rows into the
/// front of `buf`, as pairs of row-major sample ids, each pair one segment.
/// A grid beyond the caps is left alone: nothing is written.
pub fn generate_indices(buf: &mut [u32], nx_pts: u32, ny_pts: u32)
    requires
        within_caps(nx_pts as int, ny_pts as int) ==> index_count(nx_pts as int, ny_pts as int)
            <= old(buf)@.len(),
    ensures
        wireframe_written(old(buf)@, final(buf)@, nx_pts, ny_pts),
{
    if nx_pts > MAX_WIDTH || ny_pts > MAX_HEIGHT {
        return;
    }
    let ghost w = nx_pts as nat;
    let ghost h = ny_pts as nat;
    proof {
        lemma_wireframe_len(w, h);
    }
    let mut index: usize = 0;
    let mut y_index: u32 = 0;
    while y_index < ny_pts
        invariant
            w == nx_pts,
            h == ny_pts,
            nx_pts <= MAX_WIDTH,
            ny_pts <= MAX_HEIGHT,
            y_index <= ny_pts,
            index == rows_edges(w, h, y_index as nat).len(),
            buf@.len() == old(buf)@.len(),
            wireframe(w, h).len() <= buf@.len(),
            forall|k: int|
                0 <= k < index ==> #[trigger] buf@[k] as int == rows_edges(w, h, y_index as nat)[k],
            forall|k: int| index <= k < buf@.len() ==> #[trigger] buf@[k] == old(buf)@[k],
        decreases ny_pts - y_index,
    {
        proof {
            lemma_rows_edges_monotone(w, h, (y_index + 1) as nat, h);
            let (wi, hi, yi) = (w as int, h as int, y_index as int);
            assert(yi * wi <= wi * hi <= MAX_WIDTH * MAX_HEIGHT) by (nonlinear_arith)
                requires
                    0 <= wi <= MAX_WIDTH,
                    0 <= yi < hi <= MAX_HEIGHT,
            ;
        }
        let ghost done = rows_edges(w, h, y_index as nat);
        let shift: u32 = y_index * nx_pts;
        let mut x_index: u32 = 0;
        while x_index < nx_pts
            invariant
                w == nx_pts,
                h == ny_pts,
                nx_pts <= MAX_WIDTH,
                ny_pts <= MAX_HEIGHT,
                y_index < ny_pts,
                x_index <= nx_pts,
                shift == y_index * nx_pts,
                nx_pts * ny_pts <= MAX_WIDTH * MAX_HEIGHT,
                done == rows_edges(w, h, y_index as nat),
                index == done.len() + row_edges(w as int, h as int, y_index as int, x_index as nat).len(),
                done.len() + row_edges(w as int, h as int, y_index as int, w).len() <= buf@.len(),
                buf@.len() == old(buf)@.len(),
                forall|k: int|
                    0 <= k < index ==> #[trigger] buf@[k] as int == (done + row_edges(
                        w as int,
                        h as int,
                        y_index as int,
                        x_index as nat,
                    ))[k],
                forall|k: int| index <= k < buf@.len() ==> #[trigger] buf@[k] == old(buf)@[k],
            decreases nx_pts - x_index,
        {
            let ghost row = row_edges(w as int, h as int, y_index as int, x_index as nat);
            let ghost pt = point_edges(w as int, h as int, x_index as int, y_index as int);
            proof {
                lemma_id_bounds(w as int, h as int, x_index as int, y_index as int);
                lemma_row_edges_monotone(
                    w as int,
                    h as int,
                    y_index as int,
                    (x_index + 1) as nat,
                    w,
                );
                assert(row_edges(w as int, h as int, y_index as int, (x_index + 1) as nat) == row
                    + pt);
            }
            let index00: u32 = shift + x_index;
            if y_index != ny_pts - 1 {
                buf[index] = index00;
                buf[index + 1] = index00 + nx_pts;
                index = index + 2;
            }
            if x_index != nx_pts - 1 {
                buf[index] = index00;
                buf[index + 1] = index00 + 1;
                index = index + 2;
            }
            proof {
                let next = done + row + pt;
                assert(done + (row + pt) =~= next);
                assert forall|k: int| 0 <= k < index implies #[trigger] buf@[k] as int == next[k] by {
                    if k >= done.len() + row.len() {
                        let j = k - done.len() - row.len();
                        assert(next[k] == pt[j]);
                    }
                }
            }
            x_index = x_index + 1;
        }
        proof {
            assert(rows_edges(w, h, (y_index + 1) as nat) == done + row_edges(
                w as int,
                h as int,
                y_index as int,
                w,
            ));
        }
        y_index = y_index + 1;
    }
}

} // verus!
