//! Distance-based spatial vertex merging.
//!
//! Collapses vertices of an indexed mesh that lie within a caller-supplied
//! distance of each other, by single-link, seed-anchored clustering:
//! pending vertices are scanned in ascending index order; each vertex
//! still pending becomes a seed, keeps its value under the next compact
//! output index, and absorbs every pending vertex within the threshold
//! radius of *the seed itself* (no transitive chaining). Triangles are
//! remapped through the resulting index map and dropped when their
//! remapped corners are no longer pairwise distinct.

use crate::Mesh;
use crate::vec3::{dist_sq, dist_sq_spec, in_range, lemma_sq_bound};
use crate::vertex::VertexPosition;
use vstd::prelude::*;

verus! {

/// Largest merge distance the fixed-point arithmetic accepts; far beyond
/// the largest possible distance between in-range points.
pub const DIST_LIMIT: i64 = 0x400_0000;

/// Squared distance between the positions of vertices `i` and `j`.
pub open spec fn vdist_sq<V: VertexPosition>(vs: Seq<V>, i: int, j: int) -> int {
    dist_sq_spec(vs[i].pos_spec(), vs[j].pos_spec())
}

/// Whether vertex `i` becomes a cluster seed under squared threshold
/// `dd`: it does exactly when no earlier seed lies within the threshold
/// radius of it.
pub open spec fn is_seed<V: VertexPosition>(vs: Seq<V>, dd: int, i: int) -> bool
    decreases i, 1int,
{
    0 <= i < vs.len() && !covered(vs, dd, i, i)
}

/// Whether some seed below `upto` lies within the threshold radius of
/// vertex `k`.
pub open spec fn covered<V: VertexPosition>(vs: Seq<V>, dd: int, upto: int, k: int) -> bool
    decreases upto, 0int,
{
    upto > 0 && ((is_seed(vs, dd, upto - 1) && vdist_sq(vs, upto - 1, k) <= dd) || covered(
        vs,
        dd,
        upto - 1,
        k,
    ))
}

/// `covered` holds exactly when some seed below the bound lies within
/// the threshold radius.
pub proof fn lemma_covered_iff<V: VertexPosition>(vs: Seq<V>, dd: int, upto: int, k: int)
    ensures
        covered(vs, dd, upto, k) <==> exists|j: int|
            0 <= j < upto && #[trigger] is_seed(vs, dd, j) && vdist_sq(vs, j, k) <= dd,
    decreases upto,
{
    if upto > 0 {
        lemma_covered_iff(vs, dd, upto - 1, k);
        if covered(vs, dd, upto, k) {
            if is_seed(vs, dd, upto - 1) && vdist_sq(vs, upto - 1, k) <= dd {
                assert(0 <= upto - 1 < upto && is_seed(vs, dd, upto - 1) && vdist_sq(
                    vs,
                    upto - 1,
                    k,
                ) <= dd);
            } else {
                let j = choose|j: int|
                    0 <= j < upto - 1 && #[trigger] is_seed(vs, dd, j) && vdist_sq(vs, j, k) <= dd;
                assert(0 <= j < upto && is_seed(vs, dd, j) && vdist_sq(vs, j, k) <= dd);
            }
        }
        if exists|j: int|
            0 <= j < upto && #[trigger] is_seed(vs, dd, j) && vdist_sq(vs, j, k) <= dd {
            let j = choose|j: int|
                0 <= j < upto && #[trigger] is_seed(vs, dd, j) && vdist_sq(vs, j, k) <= dd;
            if j < upto - 1 {
                assert(0 <= j < upto - 1 && is_seed(vs, dd, j) && vdist_sq(vs, j, k) <= dd);
            }
        }
    }
}

/// A cover below a bound is a cover below any larger bound.
pub proof fn lemma_covered_mono<V: VertexPosition>(vs: Seq<V>, dd: int, u1: int, u2: int, k: int)
    requires
        u1 <= u2,
        covered(vs, dd, u1, k),
    ensures
        covered(vs, dd, u2, k),
    decreases u2,
{
    if u1 < u2 {
        lemma_covered_mono(vs, dd, u1, u2 - 1, k);
    }
}

/// The first seed within the threshold radius of vertex `i`, scanning
/// from `m` upward; `i` itself if the scan finds none below `i`.
pub open spec fn near_seed_from<V: VertexPosition>(vs: Seq<V>, dd: int, i: int, m: int) -> int
    decreases i - m,
{
    if m >= i {
        i
    } else if is_seed(vs, dd, m) && vdist_sq(vs, m, i) <= dd {
        m
    } else {
        near_seed_from(vs, dd, i, m + 1)
    }
}

/// The seed whose cluster vertex `i` joins: the first seed within the
/// threshold radius of `i` (itself, when `i` is a seed).
pub open spec fn near_seed<V: VertexPosition>(vs: Seq<V>, dd: int, i: int) -> int {
    near_seed_from(vs, dd, i, 0)
}

/// How many of the first `n` vertices are seeds.
pub open spec fn seed_count<V: VertexPosition>(vs: Seq<V>, dd: int, n: int) -> int
    decreases n,
{
    if n <= 0 {
        0
    } else if is_seed(vs, dd, n - 1) {
        seed_count(vs, dd, n - 1) + 1
    } else {
        seed_count(vs, dd, n - 1)
    }
}

/// The compact output index of the cluster vertex `i` joins.
pub open spec fn target_index<V: VertexPosition>(vs: Seq<V>, dd: int, i: int) -> int {
    seed_count(vs, dd, near_seed(vs, dd, i))
}

/// The merged vertex buffer restricted to the first `n` input vertices:
/// the seeds, in ascending original-index order.
pub open spec fn merged_verts_upto<V: VertexPosition>(vs: Seq<V>, dd: int, n: int) -> Seq<V>
    decreases n,
{
    if n <= 0 {
        Seq::empty()
    } else {
        let p = merged_verts_upto(vs, dd, n - 1);
        if is_seed(vs, dd, n - 1) {
            p.push(vs[n - 1])
        } else {
            p
        }
    }
}

/// The merged vertex buffer: one representative per cluster.
pub open spec fn merged_verts<V: VertexPosition>(vs: Seq<V>, dd: int) -> Seq<V> {
    merged_verts_upto(vs, dd, vs.len() as int)
}

/// The first `k` triangles remapped through the cluster index map, with
/// triangles degenerate after merging dropped.
pub open spec fn merged_tris_upto<V: VertexPosition>(
    vs: Seq<V>,
    dd: int,
    ts: Seq<[usize; 3]>,
    k: int,
) -> Seq<[usize; 3]>
    decreases k,
{
    if k <= 0 {
        Seq::empty()
    } else {
        let p = merged_tris_upto(vs, dd, ts, k - 1);
        let t = ts[k - 1];
        let a = target_index(vs, dd, t[0] as int) as usize;
        let b = target_index(vs, dd, t[1] as int) as usize;
        let c = target_index(vs, dd, t[2] as int) as usize;
        if a != b && b != c && c != a {
            p.push([a, b, c])
        } else {
            p
        }
    }
}

/// The merged triangle buffer.
pub open spec fn merged_tris<V: VertexPosition>(vs: Seq<V>, dd: int, ts: Seq<[usize; 3]>) -> Seq<
    [usize; 3],
> {
    merged_tris_upto(vs, dd, ts, ts.len() as int)
}

/// At most one vertex per input vertex survives a merge.
pub proof fn lemma_seed_count_le<V: VertexPosition>(vs: Seq<V>, dd: int, n: int)
    requires
        0 <= n,
    ensures
        seed_count(vs, dd, n) <= n,
        0 <= seed_count(vs, dd, n),
    decreases n,
{
    if n > 0 {
        lemma_seed_count_le(vs, dd, n - 1);
    }
}

/// Seed counts grow monotonically along the vertex buffer, and strictly
/// across a seed.
pub proof fn lemma_seed_count_mono<V: VertexPosition>(vs: Seq<V>, dd: int, m: int, n: int)
    requires
        m <= n,
    ensures
        seed_count(vs, dd, m) <= seed_count(vs, dd, n),
        m >= 0 && is_seed(vs, dd, m) && m < n ==> seed_count(vs, dd, m) < seed_count(vs, dd, n),
    decreases n - m,
{
    if m < n {
        lemma_seed_count_mono(vs, dd, m + 1, n);
    }
}

/// The merged buffer holds exactly one vertex per seed.
pub proof fn lemma_merged_upto_len<V: VertexPosition>(vs: Seq<V>, dd: int, n: int)
    ensures
        merged_verts_upto(vs, dd, n).len() == seed_count(vs, dd, n),
    decreases n,
{
    if n > 0 {
        lemma_merged_upto_len(vs, dd, n - 1);
    }
}

/// A seed's value stands in the merged buffer at its compact index.
pub proof fn lemma_merged_at_seed<V: VertexPosition>(vs: Seq<V>, dd: int, i: int, n: int)
    requires
        is_seed(vs, dd, i),
        i < n,
    ensures
        seed_count(vs, dd, i) < merged_verts_upto(vs, dd, n).len(),
        merged_verts_upto(vs, dd, n)[seed_count(vs, dd, i)] == vs[i],
    decreases n,
{
    lemma_merged_upto_len(vs, dd, n);
    lemma_seed_count_le(vs, dd, i);
    lemma_seed_count_mono(vs, dd, i, n);
    if i == n - 1 {
        lemma_merged_upto_len(vs, dd, n - 1);
    } else {
        lemma_merged_at_seed(vs, dd, i, n - 1);
        lemma_merged_upto_len(vs, dd, n - 1);
    }
}

/// The scan of `near_seed_from` lands on the first seed within range:
/// if nothing below `m` qualifies and `k` is covered or itself a seed,
/// the scan starting at `m` finds a qualifying seed and nothing below it
/// qualifies.
proof fn lemma_scan<V: VertexPosition>(vs: Seq<V>, dd: int, k: int, m: int)
    requires
        0 <= m <= k < vs.len(),
        dd >= 0,
        !covered(vs, dd, m, k),
        covered(vs, dd, k, k) || is_seed(vs, dd, k),
    ensures
        ({
            let s = near_seed_from(vs, dd, k, m);
            &&& m <= s <= k
            &&& is_seed(vs, dd, s)
            &&& vdist_sq(vs, s, k) <= dd
            &&& !covered(vs, dd, s, k)
        }),
    decreases k - m,
{
    if m == k {
        assert(is_seed(vs, dd, k));
        assert(vdist_sq(vs, k, k) == 0) by {
            let p = vs[k].pos_spec();
            assert((p.x - p.x) * (p.x - p.x) + (p.y - p.y) * (p.y - p.y) + (p.z - p.z) * (p.z
                - p.z) == 0) by (nonlinear_arith);
        }
    } else if is_seed(vs, dd, m) && vdist_sq(vs, m, k) <= dd {
    } else {
        lemma_scan(vs, dd, k, m + 1);
    }
}

/// Properties of the cluster a vertex joins: its seed is a seed at or
/// below the vertex, within the threshold radius, and is the first seed
/// within the radius.
pub proof fn lemma_near_seed<V: VertexPosition>(vs: Seq<V>, dd: int, k: int)
    requires
        0 <= k < vs.len(),
        dd >= 0,
    ensures
        ({
            let s = near_seed(vs, dd, k);
            &&& 0 <= s <= k
            &&& is_seed(vs, dd, s)
            &&& vdist_sq(vs, s, k) <= dd
            &&& !covered(vs, dd, s, k)
        }),
{
    lemma_scan(vs, dd, k, 0);
}

/// A seed anchors its own cluster.
pub proof fn lemma_near_seed_self<V: VertexPosition>(vs: Seq<V>, dd: int, i: int)
    requires
        is_seed(vs, dd, i),
        dd >= 0,
    ensures
        near_seed(vs, dd, i) == i,
{
    lemma_near_seed(vs, dd, i);
    let s = near_seed(vs, dd, i);
    if s < i {
        assert(covered(vs, dd, s + 1, i));
        lemma_covered_mono(vs, dd, s + 1, i, i);
    }
}

/// A vertex within the threshold radius of a seed, but of no earlier
/// seed, joins that seed's cluster.
proof fn lemma_near_seed_at<V: VertexPosition>(vs: Seq<V>, dd: int, k: int, i: int, m: int)
    requires
        0 <= m <= i <= k < vs.len(),
        dd >= 0,
        is_seed(vs, dd, i),
        vdist_sq(vs, i, k) <= dd,
        !covered(vs, dd, i, k),
    ensures
        near_seed_from(vs, dd, k, m) == i,
    decreases i - m,
{
    if m == i {
    } else {
        if is_seed(vs, dd, m) && vdist_sq(vs, m, k) <= dd {
            assert(covered(vs, dd, m + 1, k));
            lemma_covered_mono(vs, dd, m + 1, i, k);
            assert(false);
        }
        lemma_near_seed_at(vs, dd, k, i, m + 1);
    }
}

/// The cluster of a vertex within the radius of seed `i` but of no
/// earlier seed is anchored at `i`.
pub proof fn lemma_cluster_of<V: VertexPosition>(vs: Seq<V>, dd: int, k: int, i: int)
    requires
        0 <= i <= k < vs.len(),
        dd >= 0,
        is_seed(vs, dd, i),
        vdist_sq(vs, i, k) <= dd,
        !covered(vs, dd, i, k),
    ensures
        near_seed(vs, dd, k) == i,
        target_index(vs, dd, k) == seed_count(vs, dd, i),
{
    lemma_near_seed_at(vs, dd, k, i, 0);
}

/// The compact index of any vertex's cluster addresses a merged vertex.
pub proof fn lemma_target_bound<V: VertexPosition>(vs: Seq<V>, dd: int, k: int)
    requires
        0 <= k < vs.len(),
        dd >= 0,
    ensures
        0 <= target_index(vs, dd, k) < seed_count(vs, dd, vs.len() as int),
        merged_verts(vs, dd)[target_index(vs, dd, k)] == vs[near_seed(vs, dd, k)],
{
    lemma_near_seed(vs, dd, k);
    let s = near_seed(vs, dd, k);
    lemma_seed_count_le(vs, dd, s);
    lemma_seed_count_mono(vs, dd, s, vs.len() as int);
    lemma_merged_at_seed(vs, dd, s, vs.len() as int);
    lemma_merged_upto_len(vs, dd, vs.len() as int);
}


/// Every remapped surviving triangle is non-degenerate and addresses a
/// merged vertex.
pub proof fn lemma_merged_tris_props<V: VertexPosition>(
    vs: Seq<V>,
    dd: int,
    ts: Seq<[usize; 3]>,
    k: int,
)
    requires
        dd >= 0,
        vs.len() <= usize::MAX,
        forall|i: int, c: int| 0 <= i < ts.len() && 0 <= c < 3 ==> #[trigger] ts[i]@[c] < vs.len(),
        0 <= k <= ts.len(),
    ensures
        merged_tris_upto(vs, dd, ts, k).len() <= k,
        forall|i: int|
            0 <= i < merged_tris_upto(vs, dd, ts, k).len() ==> {
                let t = #[trigger] merged_tris_upto(vs, dd, ts, k)[i];
                &&& t@[0] != t@[1] && t@[1] != t@[2] && t@[2] != t@[0]
                &&& t@[0] < merged_verts(vs, dd).len()
                &&& t@[1] < merged_verts(vs, dd).len()
                &&& t@[2] < merged_verts(vs, dd).len()
            },
    decreases k,
{
    lemma_merged_upto_len(vs, dd, vs.len() as int);
    if k > 0 {
        lemma_merged_tris_props(vs, dd, ts, k - 1);
        let t = ts[k - 1];
        if t[0] < vs.len() {
            lemma_target_bound(vs, dd, t[0] as int);
            lemma_target_bound(vs, dd, t[1] as int);
            lemma_target_bound(vs, dd, t[2] as int);
            lemma_seed_count_le(vs, dd, vs.len() as int);
        }
    }
}

/// A squared distance is never negative, and vanishes only between equal
/// points.
proof fn lemma_dist_sq_zero(a: crate::vec3::Vec3, b: crate::vec3::Vec3)
    ensures
        dist_sq_spec(a, b) >= 0,
        dist_sq_spec(a, b) == 0 ==> a == b,
{
    assert(dist_sq_spec(a, b) >= 0 && (dist_sq_spec(a, b) == 0 ==> a.x == b.x && a.y == b.y && a.z
        == b.z)) by (nonlinear_arith)
        requires
            dist_sq_spec(a, b) == (a.x - b.x) * (a.x - b.x) + (a.y - b.y) * (a.y - b.y) + (a.z
                - b.z) * (a.z - b.z),
    ;
}

/// A seed under any threshold is in particular a seed under threshold
/// zero: an earlier vertex at the very same position would have absorbed
/// it (directly, or through that vertex's own cluster seed).
pub proof fn lemma_seed_under_zero<V: VertexPosition>(vs: Seq<V>, dd: int, i: int)
    requires
        dd >= 0,
        is_seed(vs, dd, i),
    ensures
        is_seed(vs, 0, i),
{
    if covered(vs, 0, i, i) {
        lemma_covered_iff(vs, 0, i, i);
        let j = choose|j: int| 0 <= j < i && #[trigger] is_seed(vs, 0, j) && vdist_sq(vs, j, i)
            <= 0;
        lemma_dist_sq_zero(vs[j].pos_spec(), vs[i].pos_spec());
        assert(vs[j].pos_spec() == vs[i].pos_spec());
        lemma_near_seed(vs, dd, j);
        let ns = near_seed(vs, dd, j);
        assert(vdist_sq(vs, ns, i) == vdist_sq(vs, ns, j));
        assert(covered(vs, dd, ns + 1, i));
        lemma_covered_mono(vs, dd, ns + 1, i, i);
    }
}

/// A restricted monotonicity: under any non-negative threshold at most
/// as many vertices survive a merge as under threshold zero, which
/// collapses exact duplicates only. (Between two arbitrary positive
/// thresholds the seed-anchored policy is *not* monotone: a larger
/// radius can absorb a mid point that would itself have anchored a wider
/// cluster, stranding its satellites as extra clusters.)
pub proof fn lemma_merge_count_vs_exact<V: VertexPosition>(vs: Seq<V>, dd: int, n: int)
    requires
        dd >= 0,
        0 <= n <= vs.len(),
    ensures
        merged_verts_upto(vs, dd, n).len() <= merged_verts_upto(vs, 0, n).len(),
    decreases n,
{
    lemma_merged_upto_len(vs, dd, n);
    lemma_merged_upto_len(vs, 0, n);
    if n > 0 {
        lemma_merge_count_vs_exact(vs, dd, n - 1);
        lemma_merged_upto_len(vs, dd, n - 1);
        lemma_merged_upto_len(vs, 0, n - 1);
        if is_seed(vs, dd, n - 1) {
            lemma_seed_under_zero(vs, dd, n - 1);
        }
    }
}

/// Two distinct seeds always lie strictly farther apart than the
/// threshold: the later one would otherwise have been absorbed.
pub proof fn lemma_seeds_far<V: VertexPosition>(vs: Seq<V>, dd: int, i: int, j: int)
    requires
        is_seed(vs, dd, i),
        is_seed(vs, dd, j),
        i < j,
    ensures
        vdist_sq(vs, i, j) > dd,
{
    if vdist_sq(vs, i, j) <= dd {
        assert(covered(vs, dd, i + 1, j));
        lemma_covered_mono(vs, dd, i + 1, j, j);
    }
}

/// Every merged vertex is some seed's value, standing at that seed's
/// compact index.
proof fn lemma_merged_entry<V: VertexPosition>(vs: Seq<V>, dd: int, n: int, c: int)
    requires
        0 <= c < merged_verts_upto(vs, dd, n).len(),
    ensures
        exists|i: int|
            0 <= i < n && #[trigger] is_seed(vs, dd, i) && seed_count(vs, dd, i) == c
                && merged_verts_upto(vs, dd, n)[c] == vs[i],
    decreases n,
{
    lemma_merged_upto_len(vs, dd, n);
    lemma_merged_upto_len(vs, dd, n - 1);
    if is_seed(vs, dd, n - 1) && c == merged_verts_upto(vs, dd, n).len() - 1 {
        assert(is_seed(vs, dd, n - 1) && seed_count(vs, dd, n - 1) == c && merged_verts_upto(
            vs,
            dd,
            n,
        )[c] == vs[n - 1]);
    } else {
        lemma_merged_entry(vs, dd, n - 1, c);
        let i = choose|i: int|
            0 <= i < n - 1 && #[trigger] is_seed(vs, dd, i) && seed_count(vs, dd, i) == c
                && merged_verts_upto(vs, dd, n - 1)[c] == vs[i];
        assert(merged_verts_upto(vs, dd, n)[c] == vs[i]);
    }
}

/// Any two distinct merged vertices lie strictly farther apart than the
/// threshold: one merge pass leaves no pair of surviving representatives
/// within merging range of each other.
pub proof fn lemma_merged_pairwise<V: VertexPosition>(vs: Seq<V>, dd: int, a: int, b: int)
    requires
        0 <= a < b < merged_verts(vs, dd).len(),
    ensures
        dist_sq_spec(
            merged_verts(vs, dd)[a].pos_spec(),
            merged_verts(vs, dd)[b].pos_spec(),
        ) > dd,
{
    let n = vs.len() as int;
    lemma_merged_entry(vs, dd, n, a);
    lemma_merged_entry(vs, dd, n, b);
    let ia = choose|i: int|
        0 <= i < n && #[trigger] is_seed(vs, dd, i) && seed_count(vs, dd, i) == a
            && merged_verts_upto(vs, dd, n)[a] == vs[i];
    let ib = choose|i: int|
        0 <= i < n && #[trigger] is_seed(vs, dd, i) && seed_count(vs, dd, i) == b
            && merged_verts_upto(vs, dd, n)[b] == vs[i];
    if ib <= ia {
        lemma_seed_count_mono(vs, dd, ib, ia);
    }
    lemma_seeds_far(vs, dd, ia, ib);
}

/// When all vertices are pairwise farther apart than the threshold,
/// every vertex is its own seed.
pub proof fn lemma_all_far_all_seeds<V: VertexPosition>(vs: Seq<V>, dd: int)
    requires
        forall|a: int, b: int| 0 <= a < b < vs.len() ==> #[trigger] vdist_sq(vs, a, b) > dd,
    ensures
        forall|i: int| 0 <= i < vs.len() ==> is_seed(vs, dd, i),
{
    assert forall|i: int| 0 <= i < vs.len() implies is_seed(vs, dd, i) by {
        if covered(vs, dd, i, i) {
            lemma_covered_iff(vs, dd, i, i);
            let j = choose|j: int|
                0 <= j < i && #[trigger] is_seed(vs, dd, j) && vdist_sq(vs, j, i) <= dd;
            assert(vdist_sq(vs, j, i) > dd);
        }
    }
}

/// When every vertex is a seed, merging keeps the vertex buffer as it is
/// and the index map is the identity.
proof fn lemma_identity_verts<V: VertexPosition>(vs: Seq<V>, dd: int, n: int)
    requires
        forall|i: int| 0 <= i < vs.len() ==> is_seed(vs, dd, i),
        0 <= n <= vs.len(),
    ensures
        seed_count(vs, dd, n) == n,
        merged_verts_upto(vs, dd, n) == vs.take(n),
    decreases n,
{
    if n == 0 {
        assert(merged_verts_upto(vs, dd, 0) =~= vs.take(0));
    } else {
        lemma_identity_verts(vs, dd, n - 1);
        assert(merged_verts_upto(vs, dd, n) =~= vs.take(n));
    }
}

/// When every vertex is a seed and every triangle is already
/// non-degenerate with in-range corners, remapping keeps the triangle
/// buffer as it is.
proof fn lemma_identity_tris<V: VertexPosition>(vs: Seq<V>, dd: int, ts: Seq<[usize; 3]>, k: int)
    requires
        dd >= 0,
        vs.len() <= usize::MAX,
        forall|i: int| 0 <= i < vs.len() ==> is_seed(vs, dd, i),
        forall|i: int, c: int| 0 <= i < ts.len() && 0 <= c < 3 ==> #[trigger] ts[i]@[c] < vs.len(),
        forall|i: int|
            0 <= i < ts.len() ==> {
                let t = #[trigger] ts[i];
                t@[0] != t@[1] && t@[1] != t@[2] && t@[2] != t@[0]
            },
        0 <= k <= ts.len(),
    ensures
        merged_tris_upto(vs, dd, ts, k) == ts.take(k),
    decreases k,
{
    if k == 0 {
        assert(merged_tris_upto(vs, dd, ts, 0) =~= ts.take(0));
    } else {
        lemma_identity_tris(vs, dd, ts, k - 1);
        let t = ts[k - 1];
        assert forall|c: int| 0 <= c < 3 implies target_index(vs, dd, t@[c] as int) == t@[c]
            as int by {
            lemma_near_seed_self(vs, dd, t@[c] as int);
            lemma_identity_verts(vs, dd, t@[c] as int);
        }
        assert(t@[0] == t[0] && t@[1] == t[1] && t@[2] == t[2]);
        assert([t[0], t[1], t[2]] =~= t) by {
            broadcast use vstd::array::group_array_axioms;

        }
        assert(merged_tris_upto(vs, dd, ts, k) =~= ts.take(k));
    }
}

/// Merge idempotence: merging an already-merged mesh again with the same
/// threshold yields it unchanged — by the seed-anchored policy every
/// surviving representative lies strictly farther than the threshold
/// from every other, so the second pass absorbs nothing and drops no
/// triangle. (The policy is single-link and not a transitive closure: a
/// chain of near-but-not-mutually-close points may need its own second
/// merge with a larger threshold to settle, which then changes the mesh.)
pub proof fn lemma_merge_idempotent<V: VertexPosition>(vs: Seq<V>, dd: int, ts: Seq<[usize; 3]>)
    requires
        dd >= 0,
        vs.len() <= usize::MAX,
        forall|i: int, c: int| 0 <= i < ts.len() && 0 <= c < 3 ==> #[trigger] ts[i]@[c] < vs.len(),
    ensures
        merged_verts(merged_verts(vs, dd), dd) == merged_verts(vs, dd),
        merged_tris(merged_verts(vs, dd), dd, merged_tris(vs, dd, ts)) == merged_tris(vs, dd, ts),
{
    let mvs = merged_verts(vs, dd);
    let mts = merged_tris(vs, dd, ts);
    assert forall|a: int, b: int| 0 <= a < b < mvs.len() implies #[trigger] vdist_sq(
        mvs,
        a,
        b,
    ) > dd by {
        lemma_merged_pairwise(vs, dd, a, b);
    }
    lemma_all_far_all_seeds(mvs, dd);
    lemma_merged_upto_len(vs, dd, vs.len() as int);
    lemma_seed_count_le(vs, dd, vs.len() as int);
    lemma_identity_verts(mvs, dd, mvs.len() as int);
    assert(mvs.take(mvs.len() as int) =~= mvs);
    lemma_merged_tris_props(vs, dd, ts, ts.len() as int);
    lemma_identity_tris(mvs, dd, mts, mts.len() as int);
    assert(mts.take(mts.len() as int) =~= mts);
}

impl<V: VertexPosition> Mesh<V> {
    /// Collapses vertices lying within `distance` of each other by
    /// seed-anchored clustering, scanning seeds in ascending index order;
    /// remaps all triangles and drops those made degenerate. The output
    /// vertex buffer holds exactly the cluster seeds, in ascending
    /// original-index order, so it never grows past the input.
    pub fn merge_by_distance(self, distance: i64) -> (out: Mesh<V>)
        requires
            self.wf(),
            0 <= distance <= DIST_LIMIT,
            forall|i: int|
                0 <= i < self.vs().len() ==> in_range(#[trigger] self.vs()[i].pos_spec()),
        ensures
            out.vs() == merged_verts(self.vs(), distance * distance),
            out.ts() == merged_tris(self.vs(), distance * distance, self.ts()),
            out.wf(),
            out.vs().len() <= self.vs().len(),
            out.ts().len() <= self.ts().len(),
            forall|c: int| 0 <= c < out.vs().len() ==> self.vs().contains(#[trigger] out.vs()[c]),
            forall|i: int|
                0 <= i < out.ts().len() ==> {
                    let t = #[trigger] out.ts()[i];
                    t@[0] != t@[1] && t@[1] != t@[2] && t@[2] != t@[0]
                },
    {
        proof {
            lemma_sq_bound(distance as int, 0x400_0000);
        }
        let dd: i64 = distance * distance;
        let ghost gdd: int = distance * distance;
        let ghost vs = self.vs();
        let n = self.verts().len();
        let mut pending: Vec<bool> = Vec::new();
        let mut target: Vec<usize> = Vec::new();
        for i in 0..n
            invariant
                pending@.len() == i,
                target@.len() == i,
                forall|k: int| 0 <= k < i ==> #[trigger] pending@[k] == true,
        {
            pending.push(true);
            target.push(0);
        }
        let mut outv: Vec<V> = Vec::new();
        for i in 0..n
            invariant
                n == vs.len(),
                vs == self.vs(),
                self.wf(),
                gdd == distance * distance,
                dd == distance * distance,
                0 <= gdd,
                forall|k: int| 0 <= k < vs.len() ==> in_range(#[trigger] vs[k].pos_spec()),
                pending@.len() == n,
                target@.len() == n,
                forall|k: int|
                    0 <= k < n ==> (#[trigger] pending@[k] <==> !covered(vs, gdd, i as int, k)),
                forall|k: int| 0 <= k < i ==> !(#[trigger] pending@[k]),
                outv@ == merged_verts_upto(vs, gdd, i as int),
                forall|k: int|
                    0 <= k < n && covered(vs, gdd, i as int, k) ==> (#[trigger] target@[k]) as int
                        == target_index(vs, gdd, k),
        {
            let ghost gi = i as int;
            if pending[i] {
                proof {
                    assert(is_seed(vs, gdd, gi));
                    lemma_merged_upto_len(vs, gdd, gi);
                    lemma_near_seed_self(vs, gdd, gi);
                }
                let j = outv.len();
                outv.push(self.verts()[i]);
                pending[i] = false;
                target[i] = j;
                let pi = self.verts()[i].pos();
                proof {
                    assert(vdist_sq(vs, gi, gi) == 0) by {
                        let p = vs[gi].pos_spec();
                        assert((p.x - p.x) * (p.x - p.x) + (p.y - p.y) * (p.y - p.y) + (p.z - p.z)
                            * (p.z - p.z) == 0) by (nonlinear_arith);
                    }
                    assert(covered(vs, gdd, gi + 1, gi));
                    assert forall|k2: int| 0 <= k2 < gi + 1 implies (pending@[k2] <==> !covered(
                        vs,
                        gdd,
                        gi + 1,
                        k2,
                    )) by {
                        if k2 < gi {
                            assert(!pending@[k2]);
                            assert(covered(vs, gdd, gi, k2));
                        }
                    }
                    assert forall|k2: int|
                        0 <= k2 < gi + 1 && covered(vs, gdd, gi + 1, k2) implies (
                    #[trigger] target@[k2]) as int == target_index(vs, gdd, k2) by {
                        if k2 < gi {
                            assert(!pending@[k2]);
                            assert(covered(vs, gdd, gi, k2));
                        }
                    }
                }
                let mut k = i + 1;
                while k < n
                    invariant
                        n == vs.len(),
                        vs == self.vs(),
                        self.wf(),
                        gdd == distance * distance,
                        dd == distance * distance,
                        0 <= gdd,
                        forall|k2: int| 0 <= k2 < vs.len() ==> in_range(#[trigger] vs[k2].pos_spec()),
                        pending@.len() == n,
                        target@.len() == n,
                        gi == i as int,
                        i < k <= n,
                        is_seed(vs, gdd, gi),
                        pi == vs[gi].pos_spec(),
                        j as int == seed_count(vs, gdd, gi),
                        outv@ == merged_verts_upto(vs, gdd, gi + 1),
                        forall|k2: int|
                            0 <= k2 < k ==> (#[trigger] pending@[k2] <==> !covered(
                                vs,
                                gdd,
                                gi + 1,
                                k2,
                            )),
                        forall|k2: int|
                            k <= k2 < n ==> (#[trigger] pending@[k2] <==> !covered(
                                vs,
                                gdd,
                                gi,
                                k2,
                            )),
                        forall|k2: int| 0 <= k2 <= gi ==> !(#[trigger] pending@[k2]),
                        forall|k2: int|
                            0 <= k2 < k && covered(vs, gdd, gi + 1, k2) ==> (#[trigger] target@[k2])
                                as int == target_index(vs, gdd, k2),
                        forall|k2: int|
                            k <= k2 < n && covered(vs, gdd, gi, k2) ==> (#[trigger] target@[k2])
                                as int == target_index(vs, gdd, k2),
                    decreases n - k,
                {
                    let ghost gk = k as int;
                    if pending[k] {
                        proof {
                            assert(!covered(vs, gdd, gi, gk));
                        }
                        let pk = self.verts()[k].pos();
                        let d = dist_sq(&pi, &pk);
                        if d <= dd {
                            pending[k] = false;
                            target[k] = j;
                            proof {
                                lemma_cluster_of(vs, gdd, gk, gi);
                                assert(covered(vs, gdd, gi + 1, gk));
                            }
                        } else {
                            proof {
                                assert(vdist_sq(vs, gi, gk) > gdd);
                                assert(!covered(vs, gdd, gi + 1, gk));
                            }
                        }
                    } else {
                        proof {
                            assert(covered(vs, gdd, gi, gk));
                            assert(covered(vs, gdd, gi + 1, gk));
                            assert((target@[gk]) as int == target_index(vs, gdd, gk));
                        }
                    }
                    k = k + 1;
                }
            } else {
                proof {
                    assert(covered(vs, gdd, gi, gi));
                    assert(!is_seed(vs, gdd, gi));
                    assert(forall|k2: int|
                        covered(vs, gdd, gi + 1, k2) == covered(vs, gdd, gi, k2));
                }
            }
        }
        let ghost nn = n as int;
        proof {
            assert forall|k: int| 0 <= k < nn implies covered(vs, gdd, nn, k) by {
                assert(!pending@[k]);
            }
            lemma_merged_upto_len(vs, gdd, nn);
        }
        let mut outt: Vec<[usize; 3]> = Vec::new();
        let nt = self.tris().len();
        for t in 0..nt
            invariant
                nt == self.ts().len(),
                n == vs.len(),
                vs == self.vs(),
                self.wf(),
                gdd == distance * distance,
                dd == distance * distance,
                0 <= gdd,
                target@.len() == n,
                forall|k: int|
                    0 <= k < n && covered(vs, gdd, nn, k) ==> (#[trigger] target@[k]) as int
                        == target_index(vs, gdd, k),
                forall|k: int| 0 <= k < nn ==> covered(vs, gdd, nn, k),
                nn == n as int,
                outt@ == merged_tris_upto(vs, gdd, self.ts(), t as int),
                outv@ == merged_verts(vs, gdd),
                outv@.len() == seed_count(vs, gdd, nn),
        {
            let tri = self.tris()[t];
            proof {
                assert(tri == self.ts()[t as int]);
                lemma_target_bound(vs, gdd, tri[0] as int);
                lemma_target_bound(vs, gdd, tri[1] as int);
                lemma_target_bound(vs, gdd, tri[2] as int);
            }
            let a = target[tri[0]];
            let b = target[tri[1]];
            let c = target[tri[2]];
            if a != b && b != c && c != a {
                outt.push([a, b, c]);
            }
            proof {
                assert(outt@ =~= merged_tris_upto(vs, gdd, self.ts(), t + 1));
            }
        }
        proof {
            lemma_merged_tris_props(vs, gdd, self.ts(), nt as int);
            lemma_seed_count_le(vs, gdd, nn);
            assert forall|c: int| 0 <= c < outv@.len() implies vs.contains(
                #[trigger] outv@[c],
            ) by {
                lemma_merged_entry(vs, gdd, nn, c);
                let i = choose|i: int|
                    0 <= i < nn && #[trigger] is_seed(vs, gdd, i) && seed_count(vs, gdd, i) == c
                        && merged_verts_upto(vs, gdd, nn)[c] == vs[i];
                assert(outv@[c] == vs[i]);
            }
        }
        Mesh::new(outv, outt)
    }
}

} // verus!
