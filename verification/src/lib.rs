//! Procedural triangle-mesh assembly: identity-deduplicating mesh
//! construction, distance-based spatial merging, and angle-weighted
//! per-vertex normal synthesis, over fixed-point integer coordinates.

use vstd::prelude::*;

pub mod vec3;
pub mod vertex;
pub mod mesh_builder;
pub mod merge_by_distance;
pub mod mesh;
pub mod tri;

verus! {

/// An indexed triangle mesh: a vertex buffer and a buffer of index
/// triples into it. Every index of every triangle is below the vertex
/// count (`wf`); all transforms preserve that invariant.
#[derive(Clone, Debug)]
pub struct Mesh<V: Copy> {
    verts: Vec<V>,
    tris: Vec<[usize; 3]>,
}

/// An ordered triple of vertex values: a transient geometric view of
/// one triangle, used during construction and per-face queries.
#[derive(Copy, Clone, PartialEq, Debug)]
pub struct Tri<V: Copy>(pub V, pub V, pub V);

/// An ordered pair of vertex values: one edge of a triangle.
#[derive(Copy, Clone, PartialEq, Debug)]
pub struct Seg<V: Copy>(pub V, pub V);

impl<V: Copy> Mesh<V> {
    /// The vertex buffer, as a mathematical sequence.
    pub closed spec fn vs(self) -> Seq<V> {
        self.verts@
    }

    /// The triangle buffer, as a mathematical sequence of index triples.
    pub closed spec fn ts(self) -> Seq<[usize; 3]> {
        self.tris@
    }

    /// Structural invariant: every triangle index addresses a vertex.
    pub open spec fn wf(self) -> bool {
        forall|i: int, k: int|
            0 <= i < self.ts().len() && 0 <= k < 3 ==> #[trigger] self.ts()[i]@[k] < self.vs().len()
    }

    /// The vertex buffer, for reading and export.
    pub fn verts(&self) -> (r: &Vec<V>)
        ensures
            r@ == self.vs(),
    {
        &self.verts
    }

    /// The triangle-index buffer, for reading and export.
    pub fn tris(&self) -> (r: &Vec<[usize; 3]>)
        ensures
            r@ == self.ts(),
    {
        &self.tris
    }

    /// Replaces the vertex value in one slot; the topology is untouched,
    /// so the index invariant is preserved.
    pub fn set_vert(&mut self, i: usize, v: V)
        requires
            i < old(self).vs().len(),
        ensures
            final (self).vs() == old(self).vs().update(i as int, v),
            final (self).ts() == old(self).ts(),
    {
        self.verts[i] = v;
    }

    /// Reconstructs a mesh from a vertex buffer and a triangle buffer.
    /// The importer must uphold the index invariant; an out-of-range
    /// index is a violated precondition, not a recoverable error.
    pub fn new(verts: Vec<V>, tris: Vec<[usize; 3]>) -> (out: Mesh<V>)
        requires
            forall|i: int, k: int| 0 <= i < tris@.len() && 0 <= k < 3 ==> #[trigger] tris@[i]@[k] < verts@.len(),
        ensures
            out.vs() == verts@,
            out.ts() == tris@,
            out.wf(),
    {
        Mesh { verts, tris }
    }
}

} // verus!
