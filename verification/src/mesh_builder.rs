//! Triangle accumulation with identity-based vertex deduplication.
//!
//! A builder accumulates triangles as triples of *handles*: stable
//! identities of source vertices registered once with [`MeshBuilder::vert`].
//! Two corners carrying the same handle always collapse to the same output
//! index; corners carrying distinct handles stay distinct even when their
//! values compare equal. Numeric deduplication is deferred to the spatial
//! merge pass.

use crate::Mesh;
use crate::vec3::{dist_sq, dist_sq_spec, in_range};
use crate::vertex::VertexPosition;
use vstd::prelude::*;

verus! {

/// Accumulates triangles over a staging buffer of source vertices.
pub struct MeshBuilder<V: Copy> {
    verts: Vec<V>,
    tris: Vec<[usize; 3]>,
}

/// The triangles of a fan around the first vertex of `p`:
/// `(p[0], p[i], p[i+1])` for each interior `i`.
pub open spec fn fan_tris(p: Seq<usize>) -> Seq<[usize; 3]> {
    if p.len() >= 3 {
        Seq::new((p.len() - 2) as nat, |i: int| [p[0], p[i + 1], p[i + 2]])
    } else {
        Seq::empty()
    }
}

/// The two triangles of a quad, split along its geometrically shorter
/// diagonal (compared by squared length; ties take the second diagonal).
pub open spec fn quad_tris<V: VertexPosition>(vs: Seq<V>, q: [usize; 4]) -> Seq<[usize; 3]> {
    if dist_sq_spec(vs[q[0] as int].pos_spec(), vs[q[2] as int].pos_spec()) < dist_sq_spec(
        vs[q[1] as int].pos_spec(),
        vs[q[3] as int].pos_spec(),
    ) {
        seq![[q[0], q[1], q[2]], [q[0], q[2], q[3]]]
    } else {
        seq![[q[1], q[2], q[3]], [q[1], q[3], q[0]]]
    }
}

/// The triangles of the first `k` quads bridging two parallel rails of
/// handles: quad `i` is `(l[i], r[i], r[i+1], l[i+1])`, split by
/// `quad_tris`.
pub open spec fn stitch_tris<V: VertexPosition>(
    vs: Seq<V>,
    l: Seq<usize>,
    r: Seq<usize>,
    k: int,
) -> Seq<[usize; 3]>
    decreases k,
{
    if k <= 0 {
        Seq::empty()
    } else {
        stitch_tris(vs, l, r, k - 1) + quad_tris(vs, [l[k - 1], r[k - 1], r[k], l[k]])
    }
}

/// The first `k` triangles fanning consecutive seam handles to a knot.
pub open spec fn sinch_tris(seam: Seq<usize>, knot: usize, k: int) -> Seq<[usize; 3]>
    decreases k,
{
    if k <= 0 {
        Seq::empty()
    } else {
        sinch_tris(seam, knot, k - 1).push([seam[k - 1], seam[k], knot])
    }
}

/// The fans of the first `k` polygon faces, concatenated.
pub open spec fn patch_tris(faces: Seq<Vec<usize>>, k: int) -> Seq<[usize; 3]>
    decreases k,
{
    if k <= 0 {
        Seq::empty()
    } else {
        patch_tris(faces, k - 1) + fan_tris(faces[k - 1]@)
    }
}

/// The quad splits of the first `k` quad faces, concatenated.
pub open spec fn patch_quad_tris<V: VertexPosition>(
    vs: Seq<V>,
    faces: Seq<[usize; 4]>,
    k: int,
) -> Seq<[usize; 3]>
    decreases k,
{
    if k <= 0 {
        Seq::empty()
    } else {
        patch_quad_tris(vs, faces, k - 1) + quad_tris(vs, faces[k - 1])
    }
}

/// All corner handles of a triangle sequence, flattened in order.
pub open spec fn corners(ts: Seq<[usize; 3]>) -> Seq<usize>
    decreases ts.len(),
{
    if ts.len() == 0 {
        Seq::empty()
    } else {
        corners(ts.drop_last()) + seq![ts.last()[0], ts.last()[1], ts.last()[2]]
    }
}

/// Every corner handle of a well-formed triangle stream is bounded by
/// the staging size.
pub proof fn lemma_corners_in(ts: Seq<[usize; 3]>, bound: nat)
    requires
        forall|i: int, k: int| 0 <= i < ts.len() && 0 <= k < 3 ==> (#[trigger] ts[i]@[k]) < bound,
    ensures
        forall|j: int| 0 <= j < corners(ts).len() ==> (#[trigger] corners(ts)[j]) < bound,
    decreases ts.len(),
{
    broadcast use vstd::seq_lib::group_seq_properties;

    if ts.len() > 0 {
        lemma_corners_in(ts.drop_last(), bound);
        assert(ts.last()@[0] < bound && ts.last()@[1] < bound && ts.last()@[2] < bound) by {
            assert(ts.last() == ts[ts.len() - 1]);
        }
        assert forall|j: int| 0 <= j < corners(ts).len() implies (#[trigger] corners(ts)[j])
            < bound by {
            let p = corners(ts.drop_last());
            if j < p.len() {
                assert(corners(ts)[j] == p[j]);
            } else {
                assert(corners(ts)[j] == seq![ts.last()[0], ts.last()[1], ts.last()[2]][j
                    - p.len()]);
            }
        }
    }
}

/// The distinct elements of `s`, in order of first encounter.
pub open spec fn first_seen(s: Seq<usize>) -> Seq<usize>
    decreases s.len(),
{
    if s.len() == 0 {
        Seq::empty()
    } else {
        let p = first_seen(s.drop_last());
        if p.contains(s.last()) {
            p
        } else {
            p.push(s.last())
        }
    }
}

/// Relates the interning state to the model: `outv` holds the staging
/// values of the handles interned so far, in first-encounter order, and
/// `map` records the compact index assigned to each interned handle.
spec fn intern_inv<V: Copy>(
    staging: Seq<V>,
    map: Seq<Option<usize>>,
    outv: Seq<V>,
    prefix: Seq<usize>,
) -> bool {
    &&& map.len() == staging.len()
    &&& outv == first_seen(prefix).map_values(|h: usize| staging[h as int])
    &&& forall|h: usize|
        h < map.len() ==> match #[trigger] map[h as int] {
            Some(c) => first_seen(prefix).contains(h) && c < first_seen(prefix).len()
                && first_seen(prefix)[c as int] == h,
            None => !first_seen(prefix).contains(h),
        }
    &&& forall|k: int| 0 <= k < prefix.len() ==> #[trigger] prefix[k] < staging.len()
}

/// `first_seen` lists each element of `s` exactly once.
pub proof fn lemma_first_seen(s: Seq<usize>)
    ensures
        first_seen(s).no_duplicates(),
        forall|h: usize| first_seen(s).contains(h) <==> s.contains(h),
        first_seen(s).len() <= s.len(),
    decreases s.len(),
{
    broadcast use vstd::seq_lib::group_seq_properties;

    if s.len() == 0 {
    } else {
        lemma_first_seen(s.drop_last());
        let d = s.drop_last();
        let p = first_seen(d);
        let x = s.last();
        assert(s =~= d.push(x));
        if !p.contains(x) {
            let q = p.push(x);
            assert forall|i: int, j: int| 0 <= i < j < q.len() implies q[i] != q[j] by {
                if j < p.len() {
                } else {
                    assert(q[j] == x);
                    assert(q[i] == p[i]);
                    assert(p.contains(p[i]));
                }
            }
        }
    }
}

/// Growing the underlying sequence only extends its `first_seen` order:
/// compact indices once assigned are stable.
pub proof fn lemma_first_seen_prefix(s: Seq<usize>, t: Seq<usize>)
    requires
        s.is_prefix_of(t),
    ensures
        first_seen(s).is_prefix_of(first_seen(t)),
    decreases t.len(),
{
    if s.len() == t.len() {
        assert(s =~= t);
    } else {
        lemma_first_seen_prefix(s, t.drop_last());
        let p = first_seen(t.drop_last());
        if !p.contains(t.last()) {
            assert(forall|i: int| 0 <= i < p.len() ==> p.push(t.last())[i] == p[i]);
        }
    }
}

/// A compact index assigned against a prefix of the corner stream keeps
/// its position and its handle when the stream grows.
pub proof fn lemma_first_seen_stable(s: Seq<usize>, t: Seq<usize>, c: int)
    requires
        s.is_prefix_of(t),
        0 <= c < first_seen(s).len(),
    ensures
        first_seen(t).len() >= first_seen(s).len(),
        first_seen(t)[c] == first_seen(s)[c],
{
    lemma_first_seen_prefix(s, t);
    assert(first_seen(s) =~= first_seen(t).take(first_seen(s).len() as int));
    assert(first_seen(t).take(first_seen(s).len() as int)[c] == first_seen(t)[c]);
}

impl<V: Copy> MeshBuilder<V> {
    /// The staging buffer: the value registered for each handle.
    pub closed spec fn vs(self) -> Seq<V> {
        self.verts@
    }

    /// The accumulated triangles, as handle triples.
    pub closed spec fn ts(self) -> Seq<[usize; 3]> {
        self.tris@
    }

    /// Every accumulated corner handle addresses a registered vertex.
    pub open spec fn wf(self) -> bool {
        forall|i: int, k: int|
            0 <= i < self.ts().len() && 0 <= k < 3 ==> #[trigger] self.ts()[i]@[k] < self.vs().len()
    }

    /// Creates an empty builder.
    pub fn new() -> (b: MeshBuilder<V>)
        ensures
            b.vs() == Seq::<V>::empty(),
            b.ts() == Seq::<[usize; 3]>::empty(),
            b.wf(),
    {
        MeshBuilder { verts: Vec::new(), tris: Vec::new() }
    }

    /// Registers one source vertex and returns its handle. Each call
    /// creates a fresh identity: registering equal values twice yields
    /// two distinct handles.
    pub fn vert(&mut self, v: V) -> (h: usize)
        ensures
            h == old(self).vs().len(),
            final (self).vs() == old(self).vs().push(v),
            final (self).ts() == old(self).ts(),
            old(self).wf() ==> final (self).wf(),
    {
        let h = self.verts.len();
        self.verts.push(v);
        proof {
            assert(self.vs().len() == old(self).vs().len() + 1);
        }
        h
    }

    /// Fan-triangulates a convex polygon of at least three handles
    /// around its first handle.
    pub fn add_poly(&mut self, poly: &[usize])
        requires
            poly@.len() >= 3,
            forall|k: int| 0 <= k < poly@.len() ==> poly@[k] < old(self).vs().len(),
        ensures
            final (self).vs() == old(self).vs(),
            final (self).ts() == old(self).ts() + fan_tris(poly@),
            old(self).wf() ==> final (self).wf(),
    {
        let n = poly.len();
        proof {
            assert(self.ts() =~= self.ts() + fan_tris(poly@).take(0));
        }
        for i in 1..(n - 1)
            invariant
                n == poly@.len(),
                3 <= n,
                forall|k: int| 0 <= k < poly@.len() ==> poly@[k] < self.vs().len(),
                self.vs() == old(self).vs(),
                self.ts() == old(self).ts() + fan_tris(poly@).take(i - 1),
        {
            let t = [poly[0], poly[i], poly[i + 1]];
            self.tris.push(t);
            proof {
                assert(fan_tris(poly@).take(i as int) =~= fan_tris(poly@).take(i - 1).push(
                    fan_tris(poly@)[i - 1],
                ));
                assert(self.ts() =~= old(self).ts() + fan_tris(poly@).take(i as int));
            }
        }
        proof {
            assert(fan_tris(poly@).take(n - 2) =~= fan_tris(poly@));
            assert(self.ts() =~= old(self).ts() + fan_tris(poly@));
        }
    }

    /// Splits a quad into two triangles along its geometrically shorter
    /// diagonal (by squared length), to reduce fold artifacts, and
    /// accumulates both.
    pub fn add_quad(&mut self, quad: [usize; 4]) where V: VertexPosition
        requires
            forall|k: int| 0 <= k < 4 ==> quad@[k] < old(self).vs().len(),
            forall|k: int|
                0 <= k < 4 ==> in_range(#[trigger] old(self).vs()[quad@[k] as int].pos_spec()),
        ensures
            final (self).vs() == old(self).vs(),
            final (self).ts() == old(self).ts() + quad_tris(old(self).vs(), quad),
            old(self).wf() ==> final (self).wf(),
    {
        let p0 = self.verts[quad[0]].pos();
        let p1 = self.verts[quad[1]].pos();
        let p2 = self.verts[quad[2]].pos();
        let p3 = self.verts[quad[3]].pos();
        let d02 = dist_sq(&p0, &p2);
        let d13 = dist_sq(&p1, &p3);
        if d02 < d13 {
            self.tris.push([quad[0], quad[1], quad[2]]);
            self.tris.push([quad[0], quad[2], quad[3]]);
        } else {
            self.tris.push([quad[1], quad[2], quad[3]]);
            self.tris.push([quad[1], quad[3], quad[0]]);
        }
        proof {
            assert(self.ts() =~= old(self).ts() + quad_tris(old(self).vs(), quad));
        }
    }

    /// Applies `add_poly` to every face of a polygon patch.
    pub fn patch(&mut self, faces: &Vec<Vec<usize>>)
        requires
            forall|i: int| 0 <= i < faces@.len() ==> (#[trigger] faces@[i])@.len() >= 3,
            forall|i: int, k: int|
                0 <= i < faces@.len() && 0 <= k < faces@[i]@.len() ==> #[trigger] faces@[i]@[k]
                    < old(self).vs().len(),
        ensures
            final (self).vs() == old(self).vs(),
            final (self).ts() == old(self).ts() + patch_tris(faces@, faces@.len() as int),
            old(self).wf() ==> final (self).wf(),
    {
        let n = faces.len();
        proof {
            assert(self.ts() =~= self.ts() + patch_tris(faces@, 0));
        }
        for i in 0..n
            invariant
                n == faces@.len(),
                forall|j: int| 0 <= j < faces@.len() ==> (#[trigger] faces@[j])@.len() >= 3,
                forall|j: int, k: int|
                    0 <= j < faces@.len() && 0 <= k < faces@[j]@.len() ==> #[trigger] faces@[j]@[k]
                        < self.vs().len(),
                self.vs() == old(self).vs(),
                self.ts() == old(self).ts() + patch_tris(faces@, i as int),
                old(self).wf() ==> self.wf(),
        {
            self.add_poly(faces[i].as_slice());
            proof {
                assert(self.ts() =~= old(self).ts() + patch_tris(faces@, i + 1));
            }
        }
    }

    /// Applies `add_quad` to every face of a quad patch.
    pub fn patch_quads(&mut self, faces: &Vec<[usize; 4]>) where V: VertexPosition
        requires
            forall|i: int, k: int|
                0 <= i < faces@.len() && 0 <= k < 4 ==> #[trigger] faces@[i]@[k] < old(
                    self,
                ).vs().len(),
            forall|i: int, k: int|
                0 <= i < faces@.len() && 0 <= k < 4 ==> in_range(
                    #[trigger] old(self).vs()[faces@[i]@[k] as int].pos_spec(),
                ),
        ensures
            final (self).vs() == old(self).vs(),
            final (self).ts() == old(self).ts() + patch_quad_tris(
                old(self).vs(),
                faces@,
                faces@.len() as int,
            ),
            old(self).wf() ==> final (self).wf(),
    {
        let n = faces.len();
        proof {
            assert(self.ts() =~= self.ts() + patch_quad_tris(self.vs(), faces@, 0));
        }
        for i in 0..n
            invariant
                n == faces@.len(),
                forall|j: int, k: int|
                    0 <= j < faces@.len() && 0 <= k < 4 ==> #[trigger] faces@[j]@[k]
                        < self.vs().len(),
                forall|j: int, k: int|
                    0 <= j < faces@.len() && 0 <= k < 4 ==> in_range(
                        #[trigger] self.vs()[faces@[j]@[k] as int].pos_spec(),
                    ),
                self.vs() == old(self).vs(),
                self.ts() == old(self).ts() + patch_quad_tris(old(self).vs(), faces@, i as int),
                old(self).wf() ==> self.wf(),
        {
            self.add_quad(faces[i]);
            proof {
                assert(self.ts() =~= old(self).ts() + patch_quad_tris(
                    old(self).vs(),
                    faces@,
                    i + 1,
                ));
            }
        }
    }

    /// Walks two parallel rails pairwise, bridging each consecutive pair
    /// of handles with a quad: joins two open curves into a ribbon.
    /// Stops at the shorter rail's length; rails shorter than two handles
    /// produce nothing.
    pub fn stitch(&mut self, left: &[usize], right: &[usize]) where V: VertexPosition
        requires
            forall|k: int| 0 <= k < left@.len() ==> left@[k] < old(self).vs().len(),
            forall|k: int| 0 <= k < right@.len() ==> right@[k] < old(self).vs().len(),
            forall|k: int|
                0 <= k < left@.len() ==> in_range(
                    #[trigger] old(self).vs()[left@[k] as int].pos_spec(),
                ),
            forall|k: int|
                0 <= k < right@.len() ==> in_range(
                    #[trigger] old(self).vs()[right@[k] as int].pos_spec(),
                ),
        ensures
            final (self).vs() == old(self).vs(),
            final (self).ts() == old(self).ts() + stitch_tris(
                old(self).vs(),
                left@,
                right@,
                vstd::math::min(left@.len() as int, right@.len() as int) - 1,
            ),
            old(self).wf() ==> final (self).wf(),
    {
        let m = if left.len() < right.len() {
            left.len()
        } else {
            right.len()
        };
        proof {
            assert(self.ts() =~= self.ts() + stitch_tris(self.vs(), left@, right@, 0));
        }
        if m >= 1 {
            for k in 1..m
                invariant
                    m == vstd::math::min(left@.len() as int, right@.len() as int),
                    1 <= k <= m,
                    forall|j: int| 0 <= j < left@.len() ==> left@[j] < self.vs().len(),
                    forall|j: int| 0 <= j < right@.len() ==> right@[j] < self.vs().len(),
                    forall|j: int|
                        0 <= j < left@.len() ==> in_range(
                            #[trigger] self.vs()[left@[j] as int].pos_spec(),
                        ),
                    forall|j: int|
                        0 <= j < right@.len() ==> in_range(
                            #[trigger] self.vs()[right@[j] as int].pos_spec(),
                        ),
                    self.vs() == old(self).vs(),
                    self.ts() == old(self).ts() + stitch_tris(
                        old(self).vs(),
                        left@,
                        right@,
                        k - 1,
                    ),
                    old(self).wf() ==> self.wf(),
            {
                self.add_quad([left[k - 1], right[k - 1], right[k], left[k]]);
                proof {
                    assert(self.ts() =~= old(self).ts() + stitch_tris(
                        old(self).vs(),
                        left@,
                        right@,
                        k as int,
                    ));
                }
            }
        }
    }

    /// As `stitch`, but additionally bridges the last pair back to the
    /// first pair, closing the ribbon into a tube. Rails shorter than two
    /// handles produce nothing, as with `stitch`.
    pub fn stitch_loop(&mut self, left: &[usize], right: &[usize]) where V: VertexPosition
        requires
            forall|k: int| 0 <= k < left@.len() ==> left@[k] < old(self).vs().len(),
            forall|k: int| 0 <= k < right@.len() ==> right@[k] < old(self).vs().len(),
            forall|k: int|
                0 <= k < left@.len() ==> in_range(
                    #[trigger] old(self).vs()[left@[k] as int].pos_spec(),
                ),
            forall|k: int|
                0 <= k < right@.len() ==> in_range(
                    #[trigger] old(self).vs()[right@[k] as int].pos_spec(),
                ),
        ensures
            final (self).vs() == old(self).vs(),
            final (self).ts() == old(self).ts() + stitch_tris(
                old(self).vs(),
                left@,
                right@,
                vstd::math::min(left@.len() as int, right@.len() as int) - 1,
            ) + ({
                let m = vstd::math::min(left@.len() as int, right@.len() as int);
                if m >= 2 {
                    quad_tris(old(self).vs(), [left@[m - 1], right@[m - 1], right@[0], left@[0]])
                } else {
                    Seq::empty()
                }
            }),
            old(self).wf() ==> final (self).wf(),
    {
        let m = if left.len() < right.len() {
            left.len()
        } else {
            right.len()
        };
        self.stitch(left, right);
        if m >= 2 {
            self.add_quad([left[m - 1], right[m - 1], right[0], left[0]]);
        } else {
            proof {
                assert(self.ts() =~= self.ts() + Seq::<[usize; 3]>::empty());
            }
        }
    }

    /// Fans every consecutive pair along a closed seam to a single apex
    /// handle, then closes the loop: turns the curve into a cone or disk.
    /// A seam shorter than two handles fans only the closing pair; an
    /// empty seam produces nothing.
    pub fn sinch_loop(&mut self, seam: &[usize], knot: usize)
        requires
            forall|k: int| 0 <= k < seam@.len() ==> seam@[k] < old(self).vs().len(),
            knot < old(self).vs().len(),
        ensures
            final (self).vs() == old(self).vs(),
            final (self).ts() == old(self).ts() + sinch_tris(seam@, knot, seam@.len() - 1) + (
            if seam@.len() >= 1 {
                seq![[seam@[seam@.len() - 1], seam@[0], knot]]
            } else {
                Seq::empty()
            }),
            old(self).wf() ==> final (self).wf(),
    {
        let m = seam.len();
        proof {
            assert(self.ts() =~= self.ts() + sinch_tris(seam@, knot, 0));
        }
        if m >= 1 {
            for k in 1..m
                invariant
                    m == seam@.len(),
                    1 <= k <= m,
                    forall|j: int| 0 <= j < seam@.len() ==> seam@[j] < self.vs().len(),
                    knot < self.vs().len(),
                    self.vs() == old(self).vs(),
                    self.ts() == old(self).ts() + sinch_tris(seam@, knot, k - 1),
                    old(self).wf() ==> self.wf(),
            {
                self.tris.push([seam[k - 1], seam[k], knot]);
            }
            self.tris.push([seam[m - 1], seam[0], knot]);
            proof {
                assert(self.ts() =~= old(self).ts() + sinch_tris(seam@, knot, seam@.len() - 1)
                    + seq![[seam@[seam@.len() - 1], seam@[0], knot]]);
            }
        } else {
            proof {
                assert(self.ts() =~= self.ts() + sinch_tris(seam@, knot, seam@.len() - 1)
                    + Seq::<[usize; 3]>::empty());
            }
        }
    }

    /// Interns one corner handle: hands back its compact index, assigning
    /// the next free one on first encounter and copying the value.
    fn intern(
        staging: &Vec<V>,
        map: &mut Vec<Option<usize>>,
        outv: &mut Vec<V>,
        h: usize,
        Ghost(prefix): Ghost<Seq<usize>>,
    ) -> (c: usize)
        requires
            intern_inv(staging@, old(map)@, old(outv)@, prefix),
            h < staging@.len(),
        ensures
            intern_inv(staging@, final (map)@, final (outv)@, prefix.push(h)),
            c < first_seen(prefix.push(h)).len(),
            first_seen(prefix.push(h))[c as int] == h,
    {
        proof {
            assert(prefix.push(h).drop_last() =~= prefix);
        }
        let ghost d = first_seen(prefix.push(h));
        match map[h] {
            Some(c) => {
                proof {
                    assert(first_seen(prefix).contains(h));
                    assert(d == first_seen(prefix));
                }
                c
            },
            None => {
                let c = outv.len();
                outv.push(staging[h]);
                map[h] = Some(c);
                proof {
                    assert(!first_seen(prefix).contains(h));
                    assert(d == first_seen(prefix).push(h));
                    assert(outv@ =~= d.map_values(|g: usize| staging@[g as int]));
                    assert forall|g: usize| g < map@.len() implies match #[trigger] map@[g as int] {
                        Some(cc) => d.contains(g) && cc < d.len() && d[cc as int] == g,
                        None => !d.contains(g),
                    } by {
                        broadcast use vstd::seq_lib::group_seq_properties;

                        if g == h {
                            assert(d[c as int] == h);
                        } else {
                            assert(forall|i: int|
                                0 <= i < first_seen(prefix).len() ==> d[i] == first_seen(
                                    prefix,
                                )[i]);
                            if first_seen(prefix).contains(g) {
                            } else {
                                assert forall|i: int| 0 <= i < d.len() implies d[i] != g by {
                                    if i < first_seen(prefix).len() {
                                        assert(first_seen(prefix).contains(first_seen(prefix)[i]));
                                    } else {
                                        assert(d[i] == h);
                                    }
                                }
                            }
                        }
                    }
                }
                c
            },
        }
    }

    /// Assigns each distinct handle a compact index in first-encounter
    /// order, copies each handle's value into the vertex buffer once, and
    /// rewrites every accumulated triangle into an index triple.
    ///
    /// Each output corner index addresses, in the first-encounter order
    /// `first_seen(corners(..))`, exactly the handle the builder recorded:
    /// corners sharing a handle share an index, corners with distinct
    /// handles keep distinct indices (`lemma_builder_identity`).
    pub fn finish(self) -> (m: Mesh<V>)
        requires
            self.wf(),
        ensures
            ({
                let d = first_seen(corners(self.ts()));
                &&& m.vs() == d.map_values(|h: usize| self.vs()[h as int])
                &&& m.ts().len() == self.ts().len()
                &&& forall|i: int, k: int|
                    0 <= i < m.ts().len() && 0 <= k < 3 ==> (#[trigger] m.ts()[i]@[k]) < d.len()
                        && d[m.ts()[i]@[k] as int] == self.ts()[i]@[k]
                &&& forall|c: int|
                    0 <= c < m.vs().len() ==> self.vs().contains(#[trigger] m.vs()[c])
                &&& m.wf()
            }),
    {
        let mut map: Vec<Option<usize>> = Vec::new();
        let n = self.verts.len();
        for i in 0..n
            invariant
                map@.len() == i,
                forall|k: int| 0 <= k < i ==> #[trigger] map@[k] is None,
        {
            map.push(None);
        }
        let mut outv: Vec<V> = Vec::new();
        let mut outt: Vec<[usize; 3]> = Vec::new();
        let ghost mut prefix: Seq<usize> = Seq::empty();
        proof {
            assert(outv@ =~= first_seen(prefix).map_values(|h: usize| self.vs()[h as int]));
        }
        let nt = self.tris.len();
        for t in 0..nt
            invariant
                nt == self.ts().len(),
                self.wf(),
                intern_inv(self.vs(), map@, outv@, prefix),
                prefix == corners(self.ts().take(t as int)),
                outt@.len() == t,
                forall|i: int, k: int|
                    0 <= i < t && 0 <= k < 3 ==> (#[trigger] outt@[i]@[k]) < first_seen(
                        prefix,
                    ).len() && first_seen(prefix)[outt@[i]@[k] as int] == self.ts()[i]@[k],
        {
            let tri = self.tris[t];
            proof {
                assert(tri@[0] == self.ts()[t as int]@[0]);
                assert(tri@[1] == self.ts()[t as int]@[1]);
                assert(tri@[2] == self.ts()[t as int]@[2]);
            }
            let ghost p0 = prefix;
            let a = Self::intern(&self.verts, &mut map, &mut outv, tri[0], Ghost(prefix));
            proof {
                prefix = prefix.push(tri[0]);
            }
            let b = Self::intern(&self.verts, &mut map, &mut outv, tri[1], Ghost(prefix));
            proof {
                prefix = prefix.push(tri[1]);
            }
            let c = Self::intern(&self.verts, &mut map, &mut outv, tri[2], Ghost(prefix));
            proof {
                prefix = prefix.push(tri[2]);
            }
            outt.push([a, b, c]);
            proof {
                assert(self.ts().take(t + 1).drop_last() =~= self.ts().take(t as int));
                assert(self.ts().take(t + 1).last() == self.ts()[t as int]);
                assert(prefix =~= corners(self.ts().take(t + 1)));
                let q1 = p0.push(tri[0]);
                let q2 = q1.push(tri[1]);
                assert(p0.is_prefix_of(prefix)) by {
                    assert(p0 =~= prefix.take(p0.len() as int));
                }
                assert(q1.is_prefix_of(prefix)) by {
                    assert(q1 =~= prefix.take(q1.len() as int));
                }
                assert(q2.is_prefix_of(prefix)) by {
                    assert(q2 =~= prefix.take(q2.len() as int));
                }
                assert forall|i: int, k: int|
                    0 <= i < t + 1 && 0 <= k < 3 implies (#[trigger] outt@[i]@[k]) < first_seen(
                    prefix,
                ).len() && first_seen(prefix)[outt@[i]@[k] as int] == self.ts()[i]@[k] by {
                    if i < t {
                        lemma_first_seen_stable(p0, prefix, outt@[i]@[k] as int);
                    } else {
                        assert(outt@[i] == [a, b, c]);
                        if k == 0 {
                            lemma_first_seen_stable(q1, prefix, a as int);
                        } else if k == 1 {
                            lemma_first_seen_stable(q2, prefix, b as int);
                        }
                    }
                }
            }
        }
        proof {
            assert(self.ts().take(nt as int) =~= self.ts());
            assert(first_seen(prefix).len() == outv@.len());
            lemma_first_seen(corners(self.ts()));
            lemma_corners_in(self.ts(), self.vs().len() as nat);
            let d = first_seen(corners(self.ts()));
            assert forall|c: int| 0 <= c < outv@.len() implies self.vs().contains(
                #[trigger] outv@[c],
            ) by {
                assert(d.contains(d[c]));
                assert(corners(self.ts()).contains(d[c]));
                let j = choose|j: int|
                    0 <= j < corners(self.ts()).len() && corners(self.ts())[j] == d[c];
                assert(d[c] < self.vs().len());
                assert(outv@[c] == self.vs()[d[c] as int]);
            }
        }
        Mesh::new(outv, outt)
    }
}

impl<V: Copy> Default for MeshBuilder<V> {
    fn default() -> (b: MeshBuilder<V>)
        ensures
            b.vs() == Seq::<V>::empty(),
            b.ts() == Seq::<[usize; 3]>::empty(),
            b.wf(),
    {
        MeshBuilder::new()
    }
}

/// Builder identity: in the first-encounter order of a triangle stream's
/// corner handles, two compact indices carry the same handle exactly when
/// they are the same index. Together with the contract of
/// [`MeshBuilder::finish`], two corners referencing the same registered
/// vertex always resolve to the same output index, and corners
/// referencing distinct registered vertices always resolve to distinct
/// output indices, even when their values compare equal.
pub proof fn lemma_builder_identity(ts: Seq<[usize; 3]>, c1: int, c2: int)
    requires
        0 <= c1 < first_seen(corners(ts)).len(),
        0 <= c2 < first_seen(corners(ts)).len(),
    ensures
        (first_seen(corners(ts))[c1] == first_seen(corners(ts))[c2]) <==> c1 == c2,
{
    lemma_first_seen(corners(ts));
}

} // verus!
