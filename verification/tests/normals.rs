use trimesh::Mesh;
use trimesh::vec3::{PI_FP, UNIT, Vec3, acos_fp, corner_weight, dist_sq, isqrt};
use trimesh::vertex::PosNorm;

fn v(x: i64, y: i64, z: i64) -> Vec3 {
    Vec3 { x, y, z }
}

fn pn(x: i64, y: i64, z: i64) -> PosNorm {
    PosNorm { pos: v(x, y, z), norm: Vec3 { x: 0, y: 0, z: 0 } }
}

fn norm_sq(n: Vec3) -> i64 {
    n.x * n.x + n.y * n.y + n.z * n.z
}

#[test]
fn flat_triangle_synthesizes_face_normal() {
    // A single flat triangle with all-zero input normals. The design
    // distributes contributions to the first and second corners of each
    // triangle only — the third corner is deliberately excluded — so the
    // first two normals equal the face normal exactly, while the third
    // stays zero rather than matching it. This asymmetry is the
    // documented two-corner behavior, preserved as specified instead of
    // being extended to all three corners.
    let m = Mesh::new(
        vec![pn(0, 0, 0), pn(1000, 0, 0), pn(0, 1000, 0)],
        vec![[0, 1, 2]],
    );
    let out = m.autocomplete_normals_sync();
    let face = v(0, 0, UNIT);
    assert_eq!(out.verts()[0].norm, face);
    assert_eq!(out.verts()[1].norm, face);
    assert_eq!(out.verts()[2].norm, v(0, 0, 0));
    // positions untouched
    assert_eq!(out.verts()[1].pos, v(1000, 0, 0));
}

#[test]
fn authored_normals_are_never_overwritten() {
    // The second vertex carries an authored normal — deliberately not of
    // unit magnitude; synthesis leaves it byte-for-byte unchanged (it is
    // neither accumulated into nor re-normalized) while the unset corner
    // receives the face normal.
    let authored = PosNorm { pos: v(1000, 0, 0), norm: v(0, 0, 7) };
    let m = Mesh::new(
        vec![pn(0, 0, 0), authored, pn(0, 1000, 0)],
        vec![[0, 1, 2]],
    );
    let out = m.autocomplete_normals_sync();
    assert_eq!(out.verts()[1], authored);
    assert_eq!(out.verts()[0].norm, v(0, 0, UNIT));
    let par = Mesh::new(
        vec![pn(0, 0, 0), authored, pn(0, 1000, 0)],
        vec![[0, 1, 2]],
    )
    .autocomplete_normals();
    assert_eq!(par.verts()[1], authored);
}

#[test]
fn degenerate_triangle_contributes_nothing() {
    // Collinear corners: zero cross product, no contribution, no abort.
    let m = Mesh::new(
        vec![pn(0, 0, 0), pn(500, 0, 0), pn(1000, 0, 0)],
        vec![[0, 1, 2]],
    );
    let out = m.autocomplete_normals_sync();
    for w in out.verts() {
        assert_eq!(w.norm, v(0, 0, 0));
    }
}

#[test]
fn accumulated_normal_is_unit_length_within_tolerance() {
    // Two triangles meet at vertex 0 with different face normals: the
    // accumulated sum is normalized to magnitude UNIT within tolerance.
    let m = Mesh::new(
        vec![
            pn(0, 0, 0),
            pn(1000, 0, 0),
            pn(0, 1000, 0),
            pn(0, 0, 1000),
        ],
        vec![[0, 1, 2], [0, 3, 1]],
    );
    let out = m.autocomplete_normals_sync();
    let n = out.verts()[0].norm;
    let sq = norm_sq(n);
    assert!(sq >= UNIT * UNIT - 6 * UNIT, "norm too short: {sq}");
    assert!(sq <= UNIT * UNIT + 6 * UNIT, "norm too long: {sq}");
}

#[test]
fn parallel_and_sequential_synthesis_agree() {
    // Fixed-point accumulation leaves no summation-order slack: the two
    // implementations produce identical meshes (well within any
    // floating-point-style tolerance).
    let verts = vec![
        pn(0, 0, 0),
        pn(1000, 0, 0),
        pn(0, 1000, 0),
        pn(0, 0, 1000),
        pn(1000, 1000, 0),
        PosNorm { pos: v(500, 500, 500), norm: v(0, UNIT, 0) },
    ];
    let tris = vec![[0, 1, 2], [0, 3, 1], [1, 4, 2], [2, 4, 5], [0, 2, 3]];
    let seq = Mesh::new(verts.clone(), tris.clone()).autocomplete_normals_sync();
    let par = Mesh::new(verts, tris).autocomplete_normals();
    assert_eq!(seq.verts(), par.verts());
    assert_eq!(seq.tris(), par.tris());
}

#[test]
fn right_angle_corner_weight_is_half_pi() {
    let w = corner_weight(v(1000, 0, 0), v(0, 1000, 0));
    // acos(0) in UNIT-scaled radians, by the polynomial approximation
    assert_eq!(w, 102940);
    assert!((w - 102944).abs() < 16);
}

#[test]
fn acos_endpoints() {
    assert_eq!(acos_fp(UNIT), 0);
    assert_eq!(acos_fp(-UNIT), PI_FP);
    assert_eq!(acos_fp(0), 102940);
    // clamped outside the domain
    assert_eq!(acos_fp(10 * UNIT), 0);
    assert_eq!(acos_fp(-10 * UNIT), PI_FP);
}

#[test]
fn isqrt_exact_values() {
    assert_eq!(isqrt(0), 0);
    assert_eq!(isqrt(1), 1);
    assert_eq!(isqrt(3), 1);
    assert_eq!(isqrt(4), 2);
    assert_eq!(isqrt(999999), 999);
    assert_eq!(isqrt(1000000), 1000);
}

#[test]
fn normalization_examples() {
    let u = v(300, 400, 0).normal_or_zero();
    assert_eq!(u, v(39321, 52428, 0));
    let sq = norm_sq(u);
    assert!(sq >= UNIT * UNIT - 6 * UNIT);
    assert_eq!(v(0, 0, 0).normal_or_zero(), v(0, 0, 0));
    assert_eq!(v(0, 0, 7).normal_or_zero(), v(0, 0, UNIT));
    assert!(v(0, 0, 0).normal().is_none());
    assert_eq!(v(5, 0, 0).normal(), Some(v(UNIT, 0, 0)));
}

#[test]
fn dist_sq_examples() {
    assert_eq!(dist_sq(&v(0, 0, 0), &v(3, 4, 0)), 25);
    assert_eq!(dist_sq(&v(-1, -1, -1), &v(1, 1, 1)), 12);
}
