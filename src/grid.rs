//! Grid caps and the sizes of the buffers that hold a grid at its largest.
use vstd::prelude::*;

verus! {

/// Largest number of columns a grid may have.
pub const MAX_WIDTH: u32 = 512;

/// Largest number of rows a grid may have.
pub const MAX_HEIGHT: u32 = 512;

/// Number of samples in the largest grid (`MAX_WIDTH * MAX_HEIGHT`).
pub const MAX_LENGTH: u32 = 262144;

/// Capacity of the vertex buffer: three coordinates per sample of the largest grid.
pub const MESH_SIZE: usize = 786432;

/// Capacity of the index buffer: `2 * (2 * w * h - w - h)` entries for the largest grid.
pub const INDEX_SIZE: usize = 1046528;

/// A grid of `w` columns and `h` rows is within the caps.
pub open spec fn within_caps(w: int, h: int) -> bool {
    w <= MAX_WIDTH && h <= MAX_HEIGHT
}

/// Row-major linear id of the sample in column `x` and row `y`.
pub open spec fn point_id(w: int, x: int, y: int) -> int {
    y * w + x
}

} // verus!
