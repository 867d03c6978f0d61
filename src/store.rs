//! A store that owns the vertex buffer and the index buffer, each at the
//! capacity of the largest grid, for the lifetime of its owner.
use vstd::prelude::*;

use crate::grid::{within_caps, INDEX_SIZE, MAX_HEIGHT, MAX_LENGTH, MAX_WIDTH, MESH_SIZE};
use crate::indices::{generate_indices, lemma_index_count_fits, wireframe_written};
use crate::mesh::{generate_mesh, mesh_rotated, mesh_written, rotate_mesh};

verus! {

/// The vertex buffer (coordinates of type `V`) and the index buffer. Neither is
/// ever resized, so a view handed out keeps its length.
#[verifier::reject_recursive_types(V)]
pub struct BufferStore<V> {
    mesh: Vec<V>,
    indices: Vec<u32>,
}

impl<V: Copy> BufferStore<V> {
    /// Contents of the vertex buffer.
    pub closed spec fn mesh_view(&self) -> Seq<V> {
        self.mesh@
    }

    /// Contents of the index buffer.
    pub closed spec fn index_view(&self) -> Seq<u32> {
        self.indices@
    }

    /// Both buffers are at their fixed capacity.
    pub open spec fn wf(&self) -> bool {
        &&& self.mesh_view().len() == MESH_SIZE
        &&& self.index_view().len() == INDEX_SIZE
    }

    /// A store whose vertex buffer holds `fill` in every slot and whose index
    /// buffer holds zeros.
    pub fn new(fill: V) -> (s: Self)
        ensures
            s.wf(),
            forall|k: int| 0 <= k < MESH_SIZE ==> #[trigger] s.mesh_view()[k] == fill,
            forall|k: int| 0 <= k < INDEX_SIZE ==> #[trigger] s.index_view()[k] == 0,
    {
        let mut mesh: Vec<V> = Vec::new();
        while mesh.len() < MESH_SIZE
            invariant
                mesh@.len() <= MESH_SIZE,
                forall|k: int| 0 <= k < mesh@.len() ==> #[trigger] mesh@[k] == fill,
            decreases MESH_SIZE - mesh@.len(),
        {
            mesh.push(fill);
        }
        let mut indices: Vec<u32> = Vec::new();
        while indices.len() < INDEX_SIZE
            invariant
                indices@.len() <= INDEX_SIZE,
                forall|k: int| 0 <= k < indices@.len() ==> #[trigger] indices@[k] == 0,
            decreases INDEX_SIZE - indices@.len(),
        {
            indices.push(0);
        }
        BufferStore { mesh, indices }
    }

    /// Writes the index list of an `nx_pts` by `ny_pts` grid into the index
    /// buffer; a grid beyond the caps leaves it alone.
    pub fn generate_indices(&mut self, nx_pts: u32, ny_pts: u32)
        requires
            old(self).wf(),
        ensures
            final(self).wf(),
            final(self).mesh_view() == old(self).mesh_view(),
            wireframe_written(old(self).index_view(), final(self).index_view(), nx_pts, ny_pts),
    {
        proof {
            if within_caps(nx_pts as int, ny_pts as int) {
                lemma_index_count_fits(nx_pts as nat, ny_pts as nat);
            }
        }
        generate_indices(self.indices.as_mut_slice(), nx_pts, ny_pts);
    }

    /// Writes `sample(x, y)` for each sample of an `nx_pts` by `ny_pts` grid into
    /// the vertex buffer; a grid beyond the caps leaves it alone.
    pub fn generate_mesh<F: Fn(u32, u32) -> (V, V, V)>(&mut self, nx_pts: u32, ny_pts: u32, sample: F)
        requires
            old(self).wf(),
            forall|x: u32, y: u32| x < nx_pts && y < ny_pts ==> call_requires(sample, (x, y)),
        ensures
            final(self).wf(),
            final(self).index_view() == old(self).index_view(),
            mesh_written(old(self).mesh_view(), final(self).mesh_view(), nx_pts, ny_pts, sample),
    {
        proof {
            let (w, h) = (nx_pts as int, ny_pts as int);
            if within_caps(w, h) {
                assert(3 * w * h <= 3 * MAX_WIDTH * MAX_HEIGHT) by (nonlinear_arith)
                    requires
                        0 <= w <= MAX_WIDTH,
                        0 <= h <= MAX_HEIGHT,
                ;
            }
        }
        generate_mesh(self.mesh.as_mut_slice(), nx_pts, ny_pts, sample);
    }

    /// Maps the `(x, y)` pair of each of the first `n_pts` samples of the vertex
    /// buffer through `rotate`, in place.
    pub fn rotate_mesh<F: Fn(V, V) -> (V, V)>(&mut self, n_pts: u32, rotate: F)
        requires
            old(self).wf(),
            n_pts <= MAX_LENGTH,
            forall|a: V, b: V| call_requires(rotate, (a, b)),
        ensures
            final(self).wf(),
            final(self).index_view() == old(self).index_view(),
            mesh_rotated(old(self).mesh_view(), final(self).mesh_view(), n_pts, rotate),
    {
        rotate_mesh(self.mesh.as_mut_slice(), n_pts, rotate);
    }
}

/// A read-only view of the store's index buffer, at its full capacity.
pub fn get_index_buffer<V: Copy>(store: &BufferStore<V>) -> (r: &[u32])
    ensures
        r@ == store.index_view(),
{
    store.indices.as_slice()
}

/// A read-only view of the store's vertex buffer, at its full capacity.
pub fn get_mesh_buffer<V: Copy>(store: &BufferStore<V>) -> (r: &[V])
    ensures
        r@ == store.mesh_view(),
{
    store.mesh.as_slice()
}

} // verus!
