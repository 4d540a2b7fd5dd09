//! Vertex capability traits.
//!
//! A vertex attribute bundle is an opaque copyable value; generic mesh
//! code is parameterized over the capability subset it needs: a readable
//! (and writable) position, and a readable (and writable) normal.

use crate::vec3::Vec3;
use vstd::prelude::*;

verus! {

/// Marker for vertex attribute bundles: a plain copyable value type.
pub trait VertexData: Sized + Copy {

}

/// A vertex exposing a mutable fixed-point 3D position.
pub trait VertexPosition: VertexData {
    /// The position this vertex carries.
    spec fn pos_spec(self) -> Vec3;

    fn pos(self) -> (p: Vec3)
        ensures
            p == self.pos_spec(),
    ;

    fn set_pos(&mut self, p: Vec3)
        ensures
            final (self).pos_spec() == p,
    ;
}

/// A vertex exposing a mutable fixed-point 3D normal.
pub trait VertexNormal: VertexData {
    /// The normal this vertex carries.
    spec fn normal_spec(self) -> Vec3;

    /// The value of this vertex after its normal is replaced by `n`,
    /// all other attributes unchanged.
    spec fn with_normal_spec(self, n: Vec3) -> Self;

    /// `with_normal_spec` writes exactly the normal: the new normal is
    /// `n`, and writing back a vertex's own normal changes nothing.
    proof fn lemma_with_normal(x: Self, n: Vec3)
        ensures
            x.with_normal_spec(n).normal_spec() == n,
            x.with_normal_spec(x.normal_spec()) == x,
    ;

    /// Writing a normal leaves the position untouched, for vertices that
    /// carry one.
    proof fn lemma_with_normal_pos(x: Self, n: Vec3) where Self: VertexPosition
        ensures
            x.with_normal_spec(n).pos_spec() == x.pos_spec(),
    ;

    fn normal(self) -> (n: Vec3)
        ensures
            n == self.normal_spec(),
    ;

    fn set_normal(&mut self, n: Vec3)
        ensures
            *final (self) == old(self).with_normal_spec(n),
    ;
}

/// A bare point is a vertex whose only attribute is its position.
impl VertexData for Vec3 {

}

impl VertexPosition for Vec3 {
    open spec fn pos_spec(self) -> Vec3 {
        self
    }

    fn pos(self) -> Vec3 {
        self
    }

    fn set_pos(&mut self, p: Vec3) {
        *self = p;
    }
}

/// A vertex bundle carrying a position and a shading normal.
#[derive(Copy, Clone, PartialEq, Eq, Structural, Debug)]
pub struct PosNorm {
    pub pos: Vec3,
    pub norm: Vec3,
}

impl VertexData for PosNorm {

}

impl VertexPosition for PosNorm {
    open spec fn pos_spec(self) -> Vec3 {
        self.pos
    }

    fn pos(self) -> Vec3 {
        self.pos
    }

    fn set_pos(&mut self, p: Vec3) {
        self.pos = p;
    }
}

impl VertexNormal for PosNorm {
    open spec fn normal_spec(self) -> Vec3 {
        self.norm
    }

    open spec fn with_normal_spec(self, n: Vec3) -> PosNorm {
        PosNorm { pos: self.pos, norm: n }
    }

    proof fn lemma_with_normal(x: PosNorm, n: Vec3) {
    }

    proof fn lemma_with_normal_pos(x: PosNorm, n: Vec3) {
    }

    fn normal(self) -> Vec3 {
        self.norm
    }

    fn set_normal(&mut self, n: Vec3) {
        self.norm = n;
    }
}

} // verus!
