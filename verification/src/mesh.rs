//! Mesh read/transform operations and angle-weighted normal synthesis.
//!
//! Synthesis fills unset per-vertex normals from triangle geometry: a
//! vertex whose normal is authored (non-zero) is kept byte-for-byte —
//! never accumulated into, never re-normalized; every triangle with a
//! non-degenerate face normal contributes that normal, weighted by the
//! interior corner angle, to its first and second corners only; every
//! unset vertex's accumulated sum is then safely normalized. The
//! sequential and the thread-pooled implementation are proved to produce
//! the same mesh, exactly: fixed-point accumulation is order-independent
//! here because both add per-triangle contributions in triangle order.

use crate::Mesh;
use crate::Tri;
use crate::vec3::{
    IVec, Vec3, corner_weight_spec, iadd, icross, in_range, insq, isub, ivec, izero, scale_unit,
    sdiv, unit_or_zero, vec3_of,
};
use crate::vertex::{VertexNormal, VertexPosition};
use rayon::iter::IndexedParallelIterator;
use rayon::iter::IntoParallelRefIterator;
use rayon::iter::ParallelIterator;
use vstd::prelude::*;

verus! {

/// Largest normal component the synthesis accepts in its input.
pub const NORM_LIMIT: i64 = 0x100_0000_0000;

/// Largest triangle count the synthesis accepts.
pub const TRI_LIMIT: u64 = 0x100_0000_0000;

/// Whether a vertex's normal was authored by the caller: any non-zero
/// normal is kept, never synthesized over.
pub open spec fn authored<V: VertexNormal>(v: V) -> bool {
    v.normal_spec() != Vec3::zero_spec()
}

/// The contribution of triangle `t` to the accumulator of its corner `c`
/// (`c` is 0 or 1; the third corner never receives a contribution): zero
/// when the face is degenerate or the corner's vertex is authored, else
/// the unit face normal scaled by the interior angle at the corner.
pub open spec fn corner_contrib<V: VertexPosition + VertexNormal>(
    vs: Seq<V>,
    t: [usize; 3],
    c: int,
) -> IVec {
    let pa = ivec(vs[t[0] as int].pos_spec());
    let pb = ivec(vs[t[1] as int].pos_spec());
    let pc = ivec(vs[t[2] as int].pos_spec());
    let face = icross(isub(pb, pa), isub(pc, pa));
    if face == izero() {
        izero()
    } else if authored(vs[t[c] as int]) {
        izero()
    } else {
        let q0 = if c == 0 {
            pa
        } else {
            pb
        };
        let q1 = if c == 0 {
            pb
        } else {
            pc
        };
        let q2 = if c == 0 {
            pc
        } else {
            pa
        };
        let u = scale_unit(face);
        let w = corner_weight_spec(isub(q1, q0), isub(q2, q0));
        IVec {
            x: sdiv(u.x * w, 0x1_0000),
            y: sdiv(u.y * w, 0x1_0000),
            z: sdiv(u.z * w, 0x1_0000),
        }
    }
}

/// The accumulators before any triangle contributes: each vertex's own
/// normal (zero for unset vertices).
pub open spec fn acc_init<V: VertexPosition + VertexNormal>(vs: Seq<V>) -> Seq<IVec> {
    Seq::new(vs.len(), |i: int| ivec(vs[i].normal_spec()))
}

/// The accumulators after the first `k` triangles contributed, in
/// triangle order, first corner before second.
pub open spec fn acc_after<V: VertexPosition + VertexNormal>(
    vs: Seq<V>,
    ts: Seq<[usize; 3]>,
    k: int,
) -> Seq<IVec>
    decreases k,
{
    if k <= 0 {
        acc_init(vs)
    } else {
        let p = acc_after(vs, ts, k - 1);
        let t = ts[k - 1];
        let p1 = if (t[0] as int) < p.len() {
            p.update(t[0] as int, iadd(p[t[0] as int], corner_contrib(vs, t, 0)))
        } else {
            p
        };
        if (t[1] as int) < p1.len() {
            p1.update(t[1] as int, iadd(p1[t[1] as int], corner_contrib(vs, t, 1)))
        } else {
            p1
        }
    }
}

/// The vertex buffer after synthesis: every authored vertex is kept
/// byte-for-byte; every unset vertex carries the safe normalization of
/// its accumulated sum.
pub open spec fn synthesized<V: VertexPosition + VertexNormal>(
    vs: Seq<V>,
    ts: Seq<[usize; 3]>,
) -> Seq<V> {
    Seq::new(
        vs.len(),
        |i: int| if authored(vs[i]) {
            vs[i]
        } else {
            vs[i].with_normal_spec(vec3_of(unit_or_zero(acc_after(vs, ts, ts.len() as int)[i])))
        },
    )
}

/// Accumulation preserves the accumulator count.
pub proof fn lemma_acc_len<V: VertexPosition + VertexNormal>(
    vs: Seq<V>,
    ts: Seq<[usize; 3]>,
    k: int,
)
    ensures
        acc_after(vs, ts, k).len() == vs.len(),
    decreases k,
{
    if k > 0 {
        lemma_acc_len(vs, ts, k - 1);
    }
}

impl<V: Copy> Mesh<V> {
    /// The triangle indices flattened into one buffer, corner-major.
    pub fn tris_flat(&self) -> (r: Vec<usize>)
        ensures
            r@.len() == 3 * self.ts().len(),
            forall|i: int|
                0 <= i < self.ts().len() ==> r@[3 * i] == (#[trigger] self.ts()[i])@[0] && r@[3 * i
                    + 1] == self.ts()[i]@[1] && r@[3 * i + 2] == self.ts()[i]@[2],
    {
        let nt = self.tris().len();
        let mut r: Vec<usize> = Vec::new();
        for t in 0..nt
            invariant
                nt == self.ts().len(),
                r@.len() == 3 * t,
                forall|i: int|
                    0 <= i < t ==> r@[3 * i] == (#[trigger] self.ts()[i])@[0] && r@[3 * i + 1]
                        == self.ts()[i]@[1] && r@[3 * i + 2] == self.ts()[i]@[2],
        {
            let tri = self.tris()[t];
            r.push(tri[0]);
            r.push(tri[1]);
            r.push(tri[2]);
        }
        r
    }

    /// The flattened triangle indices, each mapped through `f`.
    pub fn tris_flat_mapped<T, F: Fn(usize) -> T>(&self, f: F) -> (r: Vec<T>)
        requires
            forall|i: int, k: int|
                0 <= i < self.ts().len() && 0 <= k < 3 ==> f.requires(
                    ((#[trigger] self.ts()[i]@[k]),),
                ),
        ensures
            r@.len() == 3 * self.ts().len(),
            forall|i: int|
                0 <= i < self.ts().len() ==> f.ensures(((#[trigger] self.ts()[i])@[0],), r@[3 * i])
                    && f.ensures((self.ts()[i]@[1],), r@[3 * i + 1]) && f.ensures(
                    (self.ts()[i]@[2],),
                    r@[3 * i + 2],
                ),
    {
        let nt = self.tris().len();
        let mut r: Vec<T> = Vec::new();
        for t in 0..nt
            invariant
                nt == self.ts().len(),
                forall|i: int, k: int|
                    0 <= i < self.ts().len() && 0 <= k < 3 ==> f.requires(
                        ((#[trigger] self.ts()[i]@[k]),),
                    ),
                r@.len() == 3 * t,
                forall|i: int|
                    0 <= i < t ==> f.ensures(((#[trigger] self.ts()[i])@[0],), r@[3 * i])
                        && f.ensures((self.ts()[i]@[1],), r@[3 * i + 1]) && f.ensures(
                        (self.ts()[i]@[2],),
                        r@[3 * i + 2],
                    ),
        {
            let tri = self.tris()[t];
            r.push(f(tri[0]));
            r.push(f(tri[1]));
            r.push(f(tri[2]));
        }
        r
    }

    /// Every triangle as a triple of vertex values.
    pub fn tri_verts(&self) -> (r: Vec<Tri<V>>)
        requires
            self.wf(),
        ensures
            r@.len() == self.ts().len(),
            forall|i: int|
                0 <= i < self.ts().len() ==> (#[trigger] r@[i]).0 == self.vs()[self.ts()[i]@[0] as int]
                    && r@[i].1 == self.vs()[self.ts()[i]@[1] as int] && r@[i].2 == self.vs()[self.ts()[i]@[2] as int],
    {
        let nt = self.tris().len();
        let mut r: Vec<Tri<V>> = Vec::new();
        for t in 0..nt
            invariant
                nt == self.ts().len(),
                self.wf(),
                r@.len() == t,
                forall|i: int|
                    0 <= i < t ==> (#[trigger] r@[i]).0 == self.vs()[self.ts()[i]@[0] as int]
                        && r@[i].1 == self.vs()[self.ts()[i]@[1] as int] && r@[i].2 == self.vs()[self.ts()[i]@[2] as int],
        {
            let tri = self.tris()[t];
            r.push(Tri(self.verts()[tri[0]], self.verts()[tri[1]], self.verts()[tri[2]]));
        }
        r
    }

    /// A mesh with every vertex mapped through `f`, topology unchanged.
    pub fn map<T: Copy, F: Fn(V) -> T>(&self, f: F) -> (out: Mesh<T>)
        requires
            self.wf(),
            forall|i: int| 0 <= i < self.vs().len() ==> f.requires(((#[trigger] self.vs()[i]),)),
        ensures
            out.ts() == self.ts(),
            out.vs().len() == self.vs().len(),
            forall|i: int|
                0 <= i < self.vs().len() ==> f.ensures(((#[trigger] self.vs()[i]),), out.vs()[i]),
            out.wf(),
    {
        let n = self.verts().len();
        let mut outv: Vec<T> = Vec::new();
        for i in 0..n
            invariant
                n == self.vs().len(),
                forall|k: int|
                    0 <= k < self.vs().len() ==> f.requires(((#[trigger] self.vs()[k]),)),
                outv@.len() == i,
                forall|k: int|
                    0 <= k < i ==> f.ensures(((#[trigger] self.vs()[k]),), outv@[k]),
        {
            let v = self.verts()[i];
            outv.push(f(v));
        }
        let nt = self.tris().len();
        let mut outt: Vec<[usize; 3]> = Vec::new();
        for t in 0..nt
            invariant
                nt == self.ts().len(),
                self.wf(),
                outt@ == self.ts().take(t as int),
        {
            outt.push(self.tris()[t]);
            proof {
                assert(outt@ =~= self.ts().take(t + 1));
            }
        }
        proof {
            assert(self.ts().take(nt as int) =~= self.ts());
        }
        Mesh::new(outv, outt)
    }
}

/// Whether the caller authored this vertex's normal.
fn is_authored<V: VertexNormal>(v: &V) -> (r: bool)
    ensures
        r == authored(*v),
{
    !v.normal().is_zero()
}

/// A corner's contribution vector: the unit face normal scaled by the
/// corner weight, rescaled back to `UNIT`.
fn scale_by_weight(u: Vec3, w: i64) -> (r: Vec3)
    requires
        -0x1_0000 <= u.x <= 0x1_0000,
        -0x1_0000 <= u.y <= 0x1_0000,
        -0x1_0000 <= u.z <= 0x1_0000,
        0 <= w <= 0x4_0000,
    ensures
        r.x == sdiv(u.x * w, 0x1_0000),
        r.y == sdiv(u.y * w, 0x1_0000),
        r.z == sdiv(u.z * w, 0x1_0000),
        -0x4_0000 <= r.x <= 0x4_0000,
        -0x4_0000 <= r.y <= 0x4_0000,
        -0x4_0000 <= r.z <= 0x4_0000,
{
    proof {
        crate::vec3::lemma_mul_bound(u.x as int, w as int, 0x1_0000, 0x4_0000);
        crate::vec3::lemma_mul_bound(u.y as int, w as int, 0x1_0000, 0x4_0000);
        crate::vec3::lemma_mul_bound(u.z as int, w as int, 0x1_0000, 0x4_0000);
        crate::vec3::lemma_sdiv_le(u.x as int * w as int, 0x1_0000, 0x4_0000);
        crate::vec3::lemma_sdiv_le(u.y as int * w as int, 0x1_0000, 0x4_0000);
        crate::vec3::lemma_sdiv_le(u.z as int * w as int, 0x1_0000, 0x4_0000);
    }
    Vec3 {
        x: crate::vec3::sdiv64(u.x * w, 0x1_0000),
        y: crate::vec3::sdiv64(u.y * w, 0x1_0000),
        z: crate::vec3::sdiv64(u.z * w, 0x1_0000),
    }
}

/// The contributions of one triangle to its first and second corners.
fn tri_contribs<V: VertexPosition + VertexNormal>(
    verts: &Vec<V>,
    existing: &Vec<bool>,
    t: [usize; 3],
) -> (r: [Vec3; 2])
    requires
        forall|c: int| 0 <= c < 3 ==> (#[trigger] t@[c]) < verts@.len(),
        existing@.len() == verts@.len(),
        forall|i: int| 0 <= i < verts@.len() ==> #[trigger] existing@[i] == authored(verts@[i]),
        forall|i: int| 0 <= i < verts@.len() ==> in_range(#[trigger] verts@[i].pos_spec()),
    ensures
        ivec(r@[0]) == corner_contrib(verts@, t, 0),
        ivec(r@[1]) == corner_contrib(verts@, t, 1),
        forall|c: int|
            0 <= c < 2 ==> -0x4_0000 <= (#[trigger] r@[c]).x <= 0x4_0000 && -0x4_0000 <= r@[c].y
                <= 0x4_0000 && -0x4_0000 <= r@[c].z <= 0x4_0000,
{
    let pa = verts[t[0]].pos();
    let pb = verts[t[1]].pos();
    let pc = verts[t[2]].pos();
    let e01 = pb.sub(pa);
    let e02 = pc.sub(pa);
    let face = e01.cross(e02);
    if face.is_zero() {
        [Vec3::zero(), Vec3::zero()]
    } else {
        proof {
            if isub(ivec(pb), ivec(pa)) == izero() {
                crate::vec3::lemma_icross_zero(isub(ivec(pb), ivec(pa)), isub(ivec(pc), ivec(pa)));
            }
            if isub(ivec(pc), ivec(pa)) == izero() {
                crate::vec3::lemma_icross_zero(isub(ivec(pb), ivec(pa)), isub(ivec(pc), ivec(pa)));
            }
            if isub(ivec(pc), ivec(pb)) == izero() {
                assert(ivec(pc) == ivec(pb));
                assert(isub(ivec(pc), ivec(pa)) == isub(ivec(pb), ivec(pa)));
                crate::vec3::lemma_icross_self(isub(ivec(pb), ivec(pa)), isub(ivec(pc), ivec(pa)));
            }
            if isub(ivec(pa), ivec(pb)) == izero() {
                assert(ivec(pa) == ivec(pb));
                assert(isub(ivec(pb), ivec(pa)) == izero());
                crate::vec3::lemma_icross_zero(isub(ivec(pb), ivec(pa)), isub(ivec(pc), ivec(pa)));
            }
        }
        let u = face.normal_or_zero();
        let c0 = if existing[t[0]] {
            Vec3::zero()
        } else {
            let w = crate::vec3::corner_weight(e01, e02);
            scale_by_weight(u, w)
        };
        let c1 = if existing[t[1]] {
            Vec3::zero()
        } else {
            let e10 = pc.sub(pb);
            let e11 = pa.sub(pb);
            let w = crate::vec3::corner_weight(e10, e11);
            scale_by_weight(u, w)
        };
        [c0, c1]
    }
}

impl<V: VertexPosition + VertexNormal> Mesh<V> {
    /// Fills unset per-vertex normals from triangle geometry, in a single
    /// pass: classifies authored vertices (which pass through untouched),
    /// accumulates angle-weighted face normals into the first and second
    /// corner of every non-degenerate triangle, then safely normalizes
    /// every unset vertex's sum.
    pub fn autocomplete_normals_sync(self) -> (out: Mesh<V>)
        requires
            self.wf(),
            forall|i: int|
                0 <= i < self.vs().len() ==> in_range(#[trigger] self.vs()[i].pos_spec()),
            forall|i: int|
                0 <= i < self.vs().len() ==> {
                    let nm = (#[trigger] self.vs()[i]).normal_spec();
                    -NORM_LIMIT <= nm.x <= NORM_LIMIT && -NORM_LIMIT <= nm.y <= NORM_LIMIT
                        && -NORM_LIMIT <= nm.z <= NORM_LIMIT
                },
            self.ts().len() <= TRI_LIMIT,
        ensures
            out.vs() == synthesized(self.vs(), self.ts()),
            out.ts() == self.ts(),
            out.wf(),
    {
        let ghost vs = self.vs();
        let ghost ts = self.ts();
        let existing = self.classify();
        let mut acc = self.initial_acc();
        let nt = self.tris().len();
        for t in 0..nt
            invariant
                vs == self.vs(),
                ts == self.ts(),
                nt == ts.len(),
                self.wf(),
                nt <= TRI_LIMIT,
                forall|i: int| 0 <= i < vs.len() ==> in_range(#[trigger] vs[i].pos_spec()),
                existing@.len() == vs.len(),
                forall|i: int| 0 <= i < vs.len() ==> #[trigger] existing@[i] == authored(vs[i]),
                acc@.len() == vs.len(),
                forall|k: int|
                    0 <= k < vs.len() ==> ivec(#[trigger] acc@[k]) == acc_after(vs, ts, t as int)[k],
                forall|k: int|
                    0 <= k < vs.len() ==> -NORM_LIMIT - (t as int) * 0x8_0000 <= (
                    #[trigger] acc@[k]).x <= NORM_LIMIT + (t as int) * 0x8_0000 && -NORM_LIMIT - (
                    t as int) * 0x8_0000 <= acc@[k].y <= NORM_LIMIT + (t as int) * 0x8_0000
                        && -NORM_LIMIT - (t as int) * 0x8_0000 <= acc@[k].z <= NORM_LIMIT + (
                    t as int) * 0x8_0000,
        {
            let tri = self.tris()[t];
            let cs = tri_contribs(self.verts(), &existing, tri);
            Self::deposit(&mut acc, tri, cs, Ghost(vs), Ghost(ts), Ghost(t as int));
        }
        self.finalize(acc, Ghost(nt as int))
    }

    /// Classifies every vertex as authored or unset.
    fn classify(&self) -> (r: Vec<bool>)
        ensures
            r@.len() == self.vs().len(),
            forall|i: int| 0 <= i < self.vs().len() ==> #[trigger] r@[i] == authored(self.vs()[i]),
    {
        let n = self.verts().len();
        let mut existing: Vec<bool> = Vec::new();
        for i in 0..n
            invariant
                n == self.vs().len(),
                existing@.len() == i,
                forall|k: int| 0 <= k < i ==> #[trigger] existing@[k] == authored(self.vs()[k]),
        {
            let v = self.verts()[i];
            existing.push(is_authored(&v));
        }
        existing
    }

    /// The per-vertex accumulators before any triangle contributes.
    fn initial_acc(&self) -> (r: Vec<Vec3>)
        requires
            forall|i: int|
                0 <= i < self.vs().len() ==> {
                    let nm = (#[trigger] self.vs()[i]).normal_spec();
                    -NORM_LIMIT <= nm.x <= NORM_LIMIT && -NORM_LIMIT <= nm.y <= NORM_LIMIT
                        && -NORM_LIMIT <= nm.z <= NORM_LIMIT
                },
        ensures
            r@.len() == self.vs().len(),
            forall|k: int|
                0 <= k < self.vs().len() ==> ivec(#[trigger] r@[k]) == acc_init(self.vs())[k],
            forall|k: int|
                0 <= k < self.vs().len() ==> -NORM_LIMIT <= (#[trigger] r@[k]).x <= NORM_LIMIT
                    && -NORM_LIMIT <= r@[k].y <= NORM_LIMIT && -NORM_LIMIT <= r@[k].z
                    <= NORM_LIMIT,
    {
        let n = self.verts().len();
        let mut acc: Vec<Vec3> = Vec::new();
        for i in 0..n
            invariant
                n == self.vs().len(),
                forall|k: int|
                    0 <= k < self.vs().len() ==> {
                        let nm = (#[trigger] self.vs()[k]).normal_spec();
                        -NORM_LIMIT <= nm.x <= NORM_LIMIT && -NORM_LIMIT <= nm.y <= NORM_LIMIT
                            && -NORM_LIMIT <= nm.z <= NORM_LIMIT
                    },
                acc@.len() == i,
                forall|k: int| 0 <= k < i ==> ivec(#[trigger] acc@[k]) == acc_init(self.vs())[k],
                forall|k: int|
                    0 <= k < i ==> -NORM_LIMIT <= (#[trigger] acc@[k]).x <= NORM_LIMIT
                        && -NORM_LIMIT <= acc@[k].y <= NORM_LIMIT && -NORM_LIMIT <= acc@[k].z
                        <= NORM_LIMIT,
        {
            let v = self.verts()[i];
            acc.push(v.normal());
        }
        acc
    }

    /// Adds one triangle's two corner contributions into the
    /// accumulators, first corner before second.
    fn deposit(
        acc: &mut Vec<Vec3>,
        tri: [usize; 3],
        cs: [Vec3; 2],
        Ghost(vs): Ghost<Seq<V>>,
        Ghost(ts): Ghost<Seq<[usize; 3]>>,
        Ghost(t): Ghost<int>,
    )
        requires
            0 <= t < ts.len(),
            ts.len() <= TRI_LIMIT,
            tri == ts[t],
            forall|c: int| 0 <= c < 3 ==> (#[trigger] tri@[c]) < vs.len(),
            ivec(cs@[0]) == corner_contrib(vs, tri, 0),
            ivec(cs@[1]) == corner_contrib(vs, tri, 1),
            forall|c: int|
                0 <= c < 2 ==> -0x4_0000 <= (#[trigger] cs@[c]).x <= 0x4_0000 && -0x4_0000
                    <= cs@[c].y <= 0x4_0000 && -0x4_0000 <= cs@[c].z <= 0x4_0000,
            old(acc)@.len() == vs.len(),
            forall|k: int|
                0 <= k < vs.len() ==> ivec(#[trigger] old(acc)@[k]) == acc_after(vs, ts, t)[k],
            forall|k: int|
                0 <= k < vs.len() ==> -NORM_LIMIT - t * 0x8_0000 <= (#[trigger] old(acc)@[k]).x
                    <= NORM_LIMIT + t * 0x8_0000 && -NORM_LIMIT - t * 0x8_0000 <= old(acc)@[k].y
                    <= NORM_LIMIT + t * 0x8_0000 && -NORM_LIMIT - t * 0x8_0000 <= old(acc)@[k].z
                    <= NORM_LIMIT + t * 0x8_0000,
        ensures
            final (acc)@.len() == vs.len(),
            forall|k: int|
                0 <= k < vs.len() ==> ivec(#[trigger] final (acc)@[k]) == acc_after(
                    vs,
                    ts,
                    t + 1,
                )[k],
            forall|k: int|
                0 <= k < vs.len() ==> -NORM_LIMIT - (t + 1) * 0x8_0000 <= (
                #[trigger] final (acc)@[k]).x <= NORM_LIMIT + (t + 1) * 0x8_0000 && -NORM_LIMIT - (
                t + 1) * 0x8_0000 <= final (acc)@[k].y <= NORM_LIMIT + (t + 1) * 0x8_0000
                    && -NORM_LIMIT - (t + 1) * 0x8_0000 <= final (acc)@[k].z <= NORM_LIMIT + (t + 1)
                    * 0x8_0000,
    {
        proof {
            lemma_acc_len(vs, ts, t);
        }
        let i0 = tri[0];
        let i1 = tri[1];
        let a0 = acc[i0];
        let c0 = cs[0];
        acc[i0] = Vec3 { x: a0.x + c0.x, y: a0.y + c0.y, z: a0.z + c0.z };
        let a1 = acc[i1];
        let c1 = cs[1];
        acc[i1] = Vec3 { x: a1.x + c1.x, y: a1.y + c1.y, z: a1.z + c1.z };
        proof {
            let p = acc_after(vs, ts, t);
            let p1 = p.update(tri@[0] as int, iadd(p[tri@[0] as int], corner_contrib(vs, tri, 0)));
            let p2 = p1.update(tri@[1] as int, iadd(p1[tri@[1] as int], corner_contrib(vs, tri, 1)));
            assert(acc_after(vs, ts, t + 1) == p2);
            assert forall|k: int| 0 <= k < vs.len() implies ivec(#[trigger] acc@[k]) == acc_after(
                vs,
                ts,
                t + 1,
            )[k] by {
                assert(ivec(old(acc)@[k]) == p[k]);
                if k == tri@[1] as int {
                    assert(p2[k] == iadd(p1[k], corner_contrib(vs, tri, 1)));
                } else if k == tri@[0] as int {
                    assert(p2[k] == p1[k]);
                    assert(p1[k] == iadd(p[k], corner_contrib(vs, tri, 0)));
                } else {
                    assert(p2[k] == p1[k]);
                    assert(p1[k] == p[k]);
                    assert(acc@[k] == old(acc)@[k]);
                }
            }
        }
    }

    /// Hands authored vertices through untouched and writes the safe
    /// normalization of each unset vertex's accumulator back as its
    /// normal; the topology is kept as it is.
    fn finalize(self, acc: Vec<Vec3>, Ghost(nt): Ghost<int>) -> (out: Mesh<V>)
        requires
            self.wf(),
            nt == self.ts().len(),
            acc@.len() == self.vs().len(),
            forall|k: int|
                0 <= k < self.vs().len() ==> ivec(#[trigger] acc@[k]) == acc_after(
                    self.vs(),
                    self.ts(),
                    nt,
                )[k],
            forall|k: int|
                0 <= k < self.vs().len() ==> -0x1000_0000_0000_0000 <= (#[trigger] acc@[k]).x
                    <= 0x1000_0000_0000_0000 && -0x1000_0000_0000_0000 <= acc@[k].y
                    <= 0x1000_0000_0000_0000 && -0x1000_0000_0000_0000 <= acc@[k].z
                    <= 0x1000_0000_0000_0000,
        ensures
            out.vs() == synthesized(self.vs(), self.ts()),
            out.ts() == self.ts(),
            out.wf(),
    {
        let ghost vs = self.vs();
        let ghost ts = self.ts();
        let n = self.verts().len();
        let mut outv: Vec<V> = Vec::new();
        for i in 0..n
            invariant
                vs == self.vs(),
                ts == self.ts(),
                n == vs.len(),
                nt == ts.len(),
                acc@.len() == n,
                forall|k: int|
                    0 <= k < vs.len() ==> ivec(#[trigger] acc@[k]) == acc_after(vs, ts, nt)[k],
                forall|k: int|
                    0 <= k < vs.len() ==> -0x1000_0000_0000_0000 <= (#[trigger] acc@[k]).x
                        <= 0x1000_0000_0000_0000 && -0x1000_0000_0000_0000 <= acc@[k].y
                        <= 0x1000_0000_0000_0000 && -0x1000_0000_0000_0000 <= acc@[k].z
                        <= 0x1000_0000_0000_0000,
                outv@.len() == i,
                forall|k: int| 0 <= k < i ==> #[trigger] outv@[k] == synthesized(vs, ts)[k],
        {
            let v = self.verts()[i];
            let a = acc[i];
            let vv = finalize_vertex(v, a);
            outv.push(vv);
        }
        let nt2 = self.tris().len();
        let mut outt: Vec<[usize; 3]> = Vec::new();
        for t in 0..nt2
            invariant
                ts == self.ts(),
                nt2 == ts.len(),
                outt@ == ts.take(t as int),
        {
            outt.push(self.tris()[t]);
            proof {
                assert(outt@ =~= ts.take(t + 1));
            }
        }
        proof {
            assert(ts.take(nt2 as int) =~= ts);
            assert(outv@ =~= synthesized(vs, ts));
        }
        Mesh::new(outv, outt)
    }
}

/// Hands an authored vertex back untouched; writes the safe
/// normalization of the accumulated sum into an unset vertex.
fn finalize_vertex<V: VertexPosition + VertexNormal>(v: V, a: Vec3) -> (r: V)
    requires
        -0x1000_0000_0000_0000 <= a.x <= 0x1000_0000_0000_0000,
        -0x1000_0000_0000_0000 <= a.y <= 0x1000_0000_0000_0000,
        -0x1000_0000_0000_0000 <= a.z <= 0x1000_0000_0000_0000,
    ensures
        r == (if authored(v) {
            v
        } else {
            v.with_normal_spec(vec3_of(unit_or_zero(ivec(a))))
        }),
{
    if is_authored(&v) {
        v
    } else {
        let nrm = a.normal_or_zero();
        proof {
            assert(vec3_of(ivec(nrm)) == nrm);
        }
        let mut vv = v;
        vv.set_normal(nrm);
        vv
    }
}

/// Relies on rayon's `par_iter().map(..).collect()`: an indexed parallel
/// iterator collects its results into a vector in input order, so the
/// result holds, per vertex, what the verified `is_authored` returns.
#[verifier::external_body]
fn par_classify<V: VertexNormal + Sync>(verts: &Vec<V>) -> (r: Vec<bool>)
    ensures
        r@.len() == verts@.len(),
        forall|i: int| 0 <= i < verts@.len() ==> #[trigger] r@[i] == authored(verts@[i]),
{
    verts.par_iter().map(|v| is_authored(v)).collect()
}

/// Relies on rayon's `par_iter().map(..).collect()`: the verified
/// per-triangle kernel runs on every triangle in parallel and the
/// contributions are collected in triangle order.
#[verifier::external_body]
fn par_tri_contribs<V: VertexPosition + VertexNormal + Sync>(
    verts: &Vec<V>,
    existing: &Vec<bool>,
    tris: &Vec<[usize; 3]>,
) -> (r: Vec<[Vec3; 2]>)
    requires
        forall|i: int, c: int|
            0 <= i < tris@.len() && 0 <= c < 3 ==> (#[trigger] tris@[i]@[c]) < verts@.len(),
        existing@.len() == verts@.len(),
        forall|i: int| 0 <= i < verts@.len() ==> #[trigger] existing@[i] == authored(verts@[i]),
        forall|i: int| 0 <= i < verts@.len() ==> in_range(#[trigger] verts@[i].pos_spec()),
    ensures
        r@.len() == tris@.len(),
        forall|k: int|
            0 <= k < tris@.len() ==> ivec((#[trigger] r@[k])@[0]) == corner_contrib(
                verts@,
                tris@[k],
                0,
            ) && ivec(r@[k]@[1]) == corner_contrib(verts@, tris@[k], 1),
        forall|k: int, c: int|
            0 <= k < tris@.len() && 0 <= c < 2 ==> -0x4_0000 <= (#[trigger] r@[k]@[c]).x
                <= 0x4_0000 && -0x4_0000 <= r@[k]@[c].y <= 0x4_0000 && -0x4_0000 <= r@[k]@[c].z
                <= 0x4_0000,
{
    tris.par_iter().map(|t| tri_contribs(verts, existing, *t)).collect()
}

/// Relies on rayon's `par_iter().zip(..).map(..).collect()`: the verified
/// per-vertex finalization runs on every vertex in parallel and the
/// results are collected in vertex order.
#[verifier::external_body]
fn par_finalize<V: VertexPosition + VertexNormal + Send + Sync>(
    verts: &Vec<V>,
    acc: &Vec<Vec3>,
) -> (r: Vec<V>)
    requires
        acc@.len() == verts@.len(),
        forall|k: int|
            0 <= k < acc@.len() ==> -0x1000_0000_0000_0000 <= (#[trigger] acc@[k]).x
                <= 0x1000_0000_0000_0000 && -0x1000_0000_0000_0000 <= acc@[k].y
                <= 0x1000_0000_0000_0000 && -0x1000_0000_0000_0000 <= acc@[k].z
                <= 0x1000_0000_0000_0000,
    ensures
        r@.len() == verts@.len(),
        forall|i: int|
            0 <= i < verts@.len() ==> #[trigger] r@[i] == (if authored(verts@[i]) {
                verts@[i]
            } else {
                verts@[i].with_normal_spec(vec3_of(unit_or_zero(ivec(acc@[i]))))
            }),
{
    verts.par_iter().zip(acc.par_iter()).map(|(v, a)| finalize_vertex(*v, *a)).collect()
}

impl<V: VertexPosition + VertexNormal + Send + Sync> Mesh<V> {
    /// The thread-pooled normal synthesis: classification, per-triangle
    /// contributions and final normalization each run as a parallel map
    /// over a work-stealing pool, while the accumulation itself folds the
    /// collected contributions in triangle order. It produces exactly the
    /// same mesh as `autocomplete_normals_sync`: both meet the same
    /// `synthesized` specification, and fixed-point arithmetic leaves no
    /// summation-order slack.
    pub fn autocomplete_normals(self) -> (out: Mesh<V>)
        requires
            self.wf(),
            forall|i: int|
                0 <= i < self.vs().len() ==> in_range(#[trigger] self.vs()[i].pos_spec()),
            forall|i: int|
                0 <= i < self.vs().len() ==> {
                    let nm = (#[trigger] self.vs()[i]).normal_spec();
                    -NORM_LIMIT <= nm.x <= NORM_LIMIT && -NORM_LIMIT <= nm.y <= NORM_LIMIT
                        && -NORM_LIMIT <= nm.z <= NORM_LIMIT
                },
            self.ts().len() <= TRI_LIMIT,
        ensures
            out.vs() == synthesized(self.vs(), self.ts()),
            out.ts() == self.ts(),
            out.wf(),
    {
        let ghost vs = self.vs();
        let ghost ts = self.ts();
        let existing = par_classify(self.verts());
        let contribs = par_tri_contribs(self.verts(), &existing, self.tris());
        let mut acc = self.initial_acc();
        let nt = self.tris().len();
        for t in 0..nt
            invariant
                vs == self.vs(),
                ts == self.ts(),
                nt == ts.len(),
                self.wf(),
                nt <= TRI_LIMIT,
                contribs@.len() == ts.len(),
                forall|k: int|
                    0 <= k < ts.len() ==> ivec((#[trigger] contribs@[k])@[0]) == corner_contrib(
                        vs,
                        ts[k],
                        0,
                    ) && ivec(contribs@[k]@[1]) == corner_contrib(vs, ts[k], 1),
                forall|k: int, c: int|
                    0 <= k < ts.len() && 0 <= c < 2 ==> -0x4_0000 <= (
                    #[trigger] contribs@[k]@[c]).x <= 0x4_0000 && -0x4_0000 <= contribs@[k]@[c].y
                        <= 0x4_0000 && -0x4_0000 <= contribs@[k]@[c].z <= 0x4_0000,
                acc@.len() == vs.len(),
                forall|k: int|
                    0 <= k < vs.len() ==> ivec(#[trigger] acc@[k]) == acc_after(vs, ts, t as int)[k],
                forall|k: int|
                    0 <= k < vs.len() ==> -NORM_LIMIT - (t as int) * 0x8_0000 <= (
                    #[trigger] acc@[k]).x <= NORM_LIMIT + (t as int) * 0x8_0000 && -NORM_LIMIT - (
                    t as int) * 0x8_0000 <= acc@[k].y <= NORM_LIMIT + (t as int) * 0x8_0000
                        && -NORM_LIMIT - (t as int) * 0x8_0000 <= acc@[k].z <= NORM_LIMIT + (
                    t as int) * 0x8_0000,
        {
            let tri = self.tris()[t];
            let cs = contribs[t];
            Self::deposit(&mut acc, tri, cs, Ghost(vs), Ghost(ts), Ghost(t as int));
        }
        let outv = par_finalize(self.verts(), &acc);
        proof {
            lemma_acc_len(vs, ts, nt as int);
            assert(outv@ =~= synthesized(vs, ts));
        }
        let nt2 = self.tris().len();
        let mut outt: Vec<[usize; 3]> = Vec::new();
        for t in 0..nt2
            invariant
                ts == self.ts(),
                nt2 == ts.len(),
                outt@ == ts.take(t as int),
        {
            outt.push(self.tris()[t]);
            proof {
                assert(outt@ =~= ts.take(t + 1));
            }
        }
        proof {
            assert(ts.take(nt2 as int) =~= ts);
        }
        Mesh::new(outv, outt)
    }
}

/// Unit-length property of synthesized normals, for the unset vertices
/// that synthesis fills in (authored vertices pass through untouched): a
/// vertex whose accumulated sum vanished (no contributing triangle, or
/// cancellation) comes out with the zero normal, exactly; any other
/// comes out with a normal of squared magnitude `UNIT * UNIT` within the
/// truncation band of one integer division per component — at most
/// `6 * UNIT` short absolutely, and long by no more than the relative
/// slack of the magnitude floor `m` (stated multiplied out).
pub proof fn lemma_unit_length_normals<V: VertexPosition + VertexNormal>(
    vs: Seq<V>,
    ts: Seq<[usize; 3]>,
    i: int,
)
    requires
        0 <= i < vs.len(),
        !authored(vs[i]),
    ensures
        ({
            let a = acc_after(vs, ts, ts.len() as int)[i];
            let n = synthesized(vs, ts)[i].normal_spec();
            &&& (a == izero() ==> n == Vec3::zero_spec())
            &&& (a != izero() ==> insq(ivec(n)) >= 0xFFFA_0000)
            &&& (a != izero() ==> insq(ivec(n)) * (crate::vec3::sqrt_floor(insq(a))
                * crate::vec3::sqrt_floor(insq(a))) <= 0x1_0000_0000 * ((crate::vec3::sqrt_floor(
                insq(a),
            ) + 1) * (crate::vec3::sqrt_floor(insq(a)) + 1)))
        }),
{
    let a = acc_after(vs, ts, ts.len() as int)[i];
    let u = unit_or_zero(a);
    V::lemma_with_normal(vs[i], vec3_of(u));
    crate::vec3::lemma_unit_magnitude(a);
    if a != izero() {
        // the normalized components fit i64, so writing them back into a
        // vertex loses nothing
        let s = insq(a);
        assert(s >= 1 && a.x * a.x <= s && a.y * a.y <= s && a.z * a.z <= s) by (nonlinear_arith)
            requires
                s == a.x * a.x + a.y * a.y + a.z * a.z,
                a != izero(),
        ;
        crate::vec3::lemma_sqrt_floor(s);
        let m = crate::vec3::sqrt_floor(s);
        assert(m >= 1) by (nonlinear_arith)
            requires
                s >= 1,
                m >= 0,
                s < (m + 1) * (m + 1),
        ;
        crate::vec3::lemma_comp_le_sqrt(a.x, s, m);
        crate::vec3::lemma_comp_le_sqrt(a.y, s, m);
        crate::vec3::lemma_comp_le_sqrt(a.z, s, m);
        assert(m * 0x1_0000 == 0x1_0000 * m);
        crate::vec3::lemma_sdiv_le(a.x * 0x1_0000, m, 0x1_0000);
        crate::vec3::lemma_sdiv_le(a.y * 0x1_0000, m, 0x1_0000);
        crate::vec3::lemma_sdiv_le(a.z * 0x1_0000, m, 0x1_0000);
        assert(ivec(vec3_of(u)) == u);
    }
}

/// Normal preservation: a vertex whose normal was authored (non-zero
/// before synthesis) comes out of synthesis byte-for-byte unchanged —
/// it is never accumulated into and never re-normalized.
pub proof fn lemma_authored_preserved<V: VertexPosition + VertexNormal>(
    vs: Seq<V>,
    ts: Seq<[usize; 3]>,
    i: int,
)
    requires
        0 <= i < vs.len(),
        authored(vs[i]),
    ensures
        synthesized(vs, ts)[i] == vs[i],
{
}

/// Synthesis never moves a vertex: every synthesized vertex keeps its
/// position exactly.
pub proof fn lemma_positions_preserved<V: VertexPosition + VertexNormal>(
    vs: Seq<V>,
    ts: Seq<[usize; 3]>,
    i: int,
)
    requires
        0 <= i < vs.len(),
    ensures
        synthesized(vs, ts)[i].pos_spec() == vs[i].pos_spec(),
{
    if !authored(vs[i]) {
        let a = acc_after(vs, ts, ts.len() as int)[i];
        V::lemma_with_normal_pos(vs[i], vec3_of(unit_or_zero(a)));
    }
}

} // verus!
