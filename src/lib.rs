//! Geometry for an animated elliptic-paraboloid wireframe: grid caps, wireframe
//! connectivity, vertex-buffer layout and a fixed-capacity buffer store.
use vstd::prelude::*;

pub mod grid;
pub mod indices;
pub mod mesh;
pub mod store;

pub use grid::{INDEX_SIZE, MAX_HEIGHT, MAX_LENGTH, MAX_WIDTH, MESH_SIZE};
pub use indices::generate_indices;
pub use mesh::{generate_mesh, rotate_mesh};
pub use store::{get_index_buffer, get_mesh_buffer, BufferStore};

verus! {

} // verus!
