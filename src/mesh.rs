//! Vertex-buffer layout: one `(x, y, z)` triple per grid sample, row-major.
//!
//! The arithmetic on coordinates is supplied by the caller as a closure; these
//! functions decide which slots of the buffer receive which values.
use vstd::prelude::*;

use crate::grid::{point_id, within_caps, MAX_HEIGHT, MAX_WIDTH};

verus! {

/// Slots `3 * id`, `3 * id + 1`, `3 * id + 2` of `buf` hold a triple that `sample`
/// may return for the sample in column `x` and row `y` of a `w`-column grid.
pub open spec fn sample_stored<V, F: Fn(u32, u32) -> (V, V, V)>(
    buf: Seq<V>,
    w: int,
    x: u32,
    y: u32,
    sample: F,
) -> bool {
    let b = 3 * point_id(w, x as int, y as int);
    call_ensures(sample, (x, y), (buf[b], buf[b + 1], buf[b + 2]))
}

/// What `generate_mesh` leaves in a buffer that held `before`.
pub open spec fn mesh_written<V, F: Fn(u32, u32) -> (V, V, V)>(
    before: Seq<V>,
    after: Seq<V>,
    nx_pts: u32,
    ny_pts: u32,
    sample: F,
) -> bool {
    &&& after.len() == before.len()
    &&& !within_caps(nx_pts as int, ny_pts as int) ==> after == before
    &&& within_caps(nx_pts as int, ny_pts as int) ==> {
        &&& forall|x: u32, y: u32|
            x < nx_pts && y < ny_pts ==> #[trigger] sample_stored(after, nx_pts as int, x, y, sample)
        &&& forall|k: int|
            3 * nx_pts * ny_pts <= k < before.len() ==> #[trigger] after[k] == before[k]
    }
}

proof fn lemma_id_unique(w: int, x1: int, y1: int, x2: int, y2: int)
    requires
        0 <= x1 < w,
        0 <= x2 < w,
        0 <= y1,
        0 <= y2,
        point_id(w, x1, y1) == point_id(w, x2, y2),
    ensures
        x1 == x2,
        y1 == y2,
{
    if y1 < y2 {
        assert(y1 * w + x1 < y2 * w + x2) by (nonlinear_arith)
            requires
                0 <= x1 < w,
                0 <= x2,
                0 <= y1 < y2,
        ;
    } else if y2 < y1 {
        assert(y2 * w + x2 < y1 * w + x1) by (nonlinear_arith)
            requires
                0 <= x2 < w,
                0 <= x1,
                0 <= y2 < y1,
        ;
    }
}

/// Fills the front of `buf` with one triple per sample of a grid of `nx_pts`
/// columns and `ny_pts` rows, in row-major order: the triple of column `x`, row
/// `y` is `sample(x, y)` and starts at slot `3 * (y * nx_pts + x)`. Slots past
/// `3 * nx_pts * ny_pts` keep their values. A grid beyond the caps is left
/// alone: nothing is written.
pub fn generate_mesh<V: Copy, F: Fn(u32, u32) -> (V, V, V)>(
    buf: &mut [V],
    nx_pts: u32,
    ny_pts: u32,
    sample: F,
)
    requires
        within_caps(nx_pts as int, ny_pts as int) ==> 3 * nx_pts * ny_pts <= old(buf)@.len(),
        forall|x: u32, y: u32| x < nx_pts && y < ny_pts ==> call_requires(sample, (x, y)),
    ensures
        mesh_written(old(buf)@, final(buf)@, nx_pts, ny_pts, sample),
{
    if nx_pts > MAX_WIDTH || ny_pts > MAX_HEIGHT {
        return;
    }
    let ghost w = nx_pts as int;
    let ghost h = ny_pts as int;
    proof {
        assert(w * h <= MAX_WIDTH * MAX_HEIGHT) by (nonlinear_arith)
            requires
                0 <= w <= MAX_WIDTH,
                0 <= h <= MAX_HEIGHT,
        ;
        assert(3 * nx_pts * ny_pts == 3 * (w * h)) by (nonlinear_arith)
            requires
                w == nx_pts,
                h == ny_pts,
        ;
    }
    let mut index: usize = 0;
    let mut y_index: u32 = 0;
    while y_index < ny_pts
        invariant
            w == nx_pts,
            h == ny_pts,
            nx_pts <= MAX_WIDTH,
            ny_pts <= MAX_HEIGHT,
            w * h <= MAX_WIDTH * MAX_HEIGHT,
            3 * (w * h) <= buf@.len(),
            y_index <= ny_pts,
            index == 3 * (y_index * w),
            buf@.len() == old(buf)@.len(),
            forall|x: u32, y: u32|
                x < nx_pts && y < ny_pts && point_id(w, x as int, y as int) < y_index * w
                    ==> #[trigger] sample_stored(buf@, w, x, y, sample),
            forall|k: int| index <= k < buf@.len() ==> #[trigger] buf@[k] == old(buf)@[k],
            forall|x: u32, y: u32| x < nx_pts && y < ny_pts ==> call_requires(sample, (x, y)),
        decreases ny_pts - y_index,
    {
        let mut x_index: u32 = 0;
        while x_index < nx_pts
            invariant
                w == nx_pts,
                h == ny_pts,
                nx_pts <= MAX_WIDTH,
                ny_pts <= MAX_HEIGHT,
                w * h <= MAX_WIDTH * MAX_HEIGHT,
                3 * (w * h) <= buf@.len(),
                y_index < ny_pts,
                x_index <= nx_pts,
                index == 3 * (y_index * w + x_index),
                buf@.len() == old(buf)@.len(),
                forall|x: u32, y: u32|
                    x < nx_pts && y < ny_pts && point_id(w, x as int, y as int) < y_index * w
                        + x_index ==> #[trigger] sample_stored(buf@, w, x, y, sample),
                forall|k: int| index <= k < buf@.len() ==> #[trigger] buf@[k] == old(buf)@[k],
                forall|x: u32, y: u32| x < nx_pts && y < ny_pts ==> call_requires(sample, (x, y)),
            decreases nx_pts - x_index,
        {
            let ghost cur = y_index * w + x_index;
            proof {
                let (yi, xi) = (y_index as int, x_index as int);
                assert(0 <= yi * w + xi < w * h) by (nonlinear_arith)
                    requires
                        0 <= xi < w,
                        0 <= yi < h,
                ;
            }
            let (px, py, pz) = sample(x_index, y_index);
            let ghost before = buf@;
            buf[index] = px;
            buf[index + 1] = py;
            buf[index + 2] = pz;
            proof {
                assert forall|x: u32, y: u32|
                    x < nx_pts && y < ny_pts && point_id(w, x as int, y as int) < cur + 1 implies
                    #[trigger] sample_stored(buf@, w, x, y, sample) by {
                    let b = 3 * point_id(w, x as int, y as int);
                    if point_id(w, x as int, y as int) < cur {
                        assert(sample_stored(before, w, x, y, sample));
                        assert(buf@[b] == before[b] && buf@[b + 1] == before[b + 1] && buf@[b + 2]
                            == before[b + 2]);
                    } else {
                        lemma_id_unique(w, x as int, y as int, x_index as int, y_index as int);
                    }
                }
            }
            index = index + 3;
            x_index = x_index + 1;
        }
        proof {
            let (yi, wi) = (y_index as int, w);
            assert(yi * wi + wi == (yi + 1) * wi) by (nonlinear_arith);
        }
        y_index = y_index + 1;
    }
    proof {
        assert forall|x: u32, y: u32| x < nx_pts && y < ny_pts implies #[trigger] sample_stored(
            buf@,
            w,
            x,
            y,
            sample,
        ) by {
            let (xi, yi) = (x as int, y as int);
            assert(yi * w + xi < h * w) by (nonlinear_arith)
                requires
                    0 <= xi < w,
                    0 <= yi < h,
            ;
        }
    }
}

/// Sample `p` of `after` is sample `p` of `before` with its `(x, y)` pair mapped
/// through `rotate` and its `z` kept.
pub open spec fn point_rotated<V, F: Fn(V, V) -> (V, V)>(
    before: Seq<V>,
    after: Seq<V>,
    p: int,
    rotate: F,
) -> bool {
    let b = 3 * p;
    &&& call_ensures(rotate, (before[b], before[b + 1]), (after[b], after[b + 1]))
    &&& after[b + 2] == before[b + 2]
}

/// What `rotate_mesh` leaves in a buffer that held `before`.
pub open spec fn mesh_rotated<V, F: Fn(V, V) -> (V, V)>(
    before: Seq<V>,
    after: Seq<V>,
    n_pts: u32,
    rotate: F,
) -> bool {
    &&& after.len() == before.len()
    &&& forall|p: int| 0 <= p < n_pts ==> #[trigger] point_rotated(before, after, p, rotate)
    &&& forall|k: int| 3 * n_pts <= k < before.len() ==> #[trigger] after[k] == before[k]
}

/// Maps the `(x, y)` pair of each of the first `n_pts` samples of `buf` through
/// `rotate`, in place; every `z` and every slot past `3 * n_pts` keeps its value.
pub fn rotate_mesh<V: Copy, F: Fn(V, V) -> (V, V)>(buf: &mut [V], n_pts: u32, rotate: F)
    requires
        3 * n_pts <= old(buf)@.len(),
        forall|a: V, b: V| call_requires(rotate, (a, b)),
    ensures
        mesh_rotated(old(buf)@, final(buf)@, n_pts, rotate),
{
    let len: usize = buf.len();
    let mut index: u32 = 0;
    while index < n_pts
        invariant
            3 * n_pts <= len,
            index <= n_pts,
            buf@.len() == old(buf)@.len() == len,
            forall|p: int| 0 <= p < index ==> #[trigger] point_rotated(old(buf)@, buf@, p, rotate),
            forall|k: int| 3 * index <= k < buf@.len() ==> #[trigger] buf@[k] == old(buf)@[k],
            forall|a: V, b: V| call_requires(rotate, (a, b)),
        decreases n_pts - index,
    {
        let x_index: usize = 3 * index as usize;
        let y_index: usize = x_index + 1;
        let x = buf[x_index];
        let y = buf[y_index];
        let (rx, ry) = rotate(x, y);
        let ghost before = buf@;
        buf[x_index] = rx;
        buf[y_index] = ry;
        proof {
            assert forall|p: int| 0 <= p < index + 1 implies #[trigger] point_rotated(
                old(buf)@,
                buf@,
                p,
                rotate,
            ) by {
                if p < index {
                    assert(point_rotated(old(buf)@, before, p, rotate));
                }
            }
        }
        index = index + 1;
    }
}

/// Rotating with a map that returns every pair unchanged leaves the whole
/// buffer as it was.
pub proof fn lemma_rotation_identity<V, F: Fn(V, V) -> (V, V)>(
    before: Seq<V>,
    after: Seq<V>,
    n_pts: u32,
    rotate: F,
)
    requires
        3 * n_pts <= before.len(),
        mesh_rotated(before, after, n_pts, rotate),
        forall|a: V, b: V, r: (V, V)| #[trigger] call_ensures(rotate, (a, b), r) ==> r == (a, b),
    ensures
        after == before,
{
    assert forall|k: int| 0 <= k < before.len() implies #[trigger] after[k] == before[k] by {
        if k < 3 * n_pts {
            assert(point_rotated(before, after, k / 3, rotate));
        }
    }
    assert(after =~= before);
}

/// Rotating with one map and then with a map that undoes it brings the whole
/// buffer back to what it was.
pub proof fn lemma_rotation_inverse<V, F: Fn(V, V) -> (V, V), G: Fn(V, V) -> (V, V)>(
    before: Seq<V>,
    mid: Seq<V>,
    after: Seq<V>,
    n_pts: u32,
    forward: F,
    back: G,
)
    requires
        3 * n_pts <= before.len(),
        mesh_rotated(before, mid, n_pts, forward),
        mesh_rotated(mid, after, n_pts, back),
        forall|a: V, b: V, r: (V, V), s: (V, V)|
            #[trigger] call_ensures(forward, (a, b), r) && #[trigger] call_ensures(back, r, s) ==> s
                == (a, b),
    ensures
        after == before,
{
    assert forall|k: int| 0 <= k < before.len() implies #[trigger] after[k] == before[k] by {
        if k < 3 * n_pts {
            let p = k / 3;
            assert(point_rotated(before, mid, p, forward));
            assert(point_rotated(mid, after, p, back));
        }
    }
    assert(after =~= before);
}

} // verus!
