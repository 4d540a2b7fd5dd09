//! Per-face geometry queries on triangles of vertex values.

use crate::vec3::{Vec3, icross, in_range, isub, ivec, izero, scale_unit};
use crate::vertex::VertexPosition;
use crate::{Seg, Tri};
use vstd::prelude::*;

verus! {

/// The (unnormalized) face cross product of a triangle's corner
/// positions: the two edge vectors from the first corner, crossed.
pub open spec fn face_cross_spec(a: Vec3, b: Vec3, c: Vec3) -> crate::vec3::IVec {
    icross(isub(ivec(b), ivec(a)), isub(ivec(c), ivec(a)))
}

impl<V: Copy> Tri<V> {
    /// Bundles three corner values into a triangle.
    pub fn new(a: V, b: V, c: V) -> (r: Tri<V>)
        ensures
            r.0 == a,
            r.1 == b,
            r.2 == c,
    {
        Tri(a, b, c)
    }

    /// Applies a function to each corner, yielding a plain array.
    pub fn map_out<U, F: Fn(V) -> U>(&self, f: F) -> (r: [U; 3])
        requires
            f.requires((self.0,)),
            f.requires((self.1,)),
            f.requires((self.2,)),
        ensures
            f.ensures((self.0,), r@[0]),
            f.ensures((self.1,), r@[1]),
            f.ensures((self.2,), r@[2]),
    {
        [f(self.0), f(self.1), f(self.2)]
    }

    /// Applies a function to each corner, yielding a triangle.
    pub fn map<U: Copy, F: Fn(V) -> U>(&self, f: F) -> (r: Tri<U>)
        requires
            f.requires((self.0,)),
            f.requires((self.1,)),
            f.requires((self.2,)),
        ensures
            f.ensures((self.0,), r.0),
            f.ensures((self.1,), r.1),
            f.ensures((self.2,), r.2),
    {
        Tri(f(self.0), f(self.1), f(self.2))
    }

    /// The triangle's three edges, in winding order.
    pub fn edges(self) -> (r: [Seg<V>; 3])
        ensures
            r@[0].0 == self.0 && r@[0].1 == self.1,
            r@[1].0 == self.1 && r@[1].1 == self.2,
            r@[2].0 == self.2 && r@[2].1 == self.0,
    {
        [Seg(self.0, self.1), Seg(self.1, self.2), Seg(self.2, self.0)]
    }
}

impl<V: VertexPosition> Tri<V> {
    /// The triangle's unit face normal, or `None` for degenerate
    /// (zero-area) geometry.
    pub fn normal(self) -> (r: Option<Vec3>)
        requires
            in_range(self.0.pos_spec()),
            in_range(self.1.pos_spec()),
            in_range(self.2.pos_spec()),
        ensures
            r is None <==> face_cross_spec(self.0.pos_spec(), self.1.pos_spec(), self.2.pos_spec())
                == izero(),
            r is Some ==> ivec(r->0) == scale_unit(
                face_cross_spec(self.0.pos_spec(), self.1.pos_spec(), self.2.pos_spec()),
            ),
    {
        let pa = self.0.pos();
        let pb = self.1.pos();
        let pc = self.2.pos();
        let face = pb.sub(pa).cross(pc.sub(pa));
        proof {
            assert(face == Vec3::zero_spec() <==> ivec(face) == izero());
        }
        face.normal()
    }
}

} // verus!
