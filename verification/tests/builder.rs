use trimesh::mesh_builder::MeshBuilder;
use trimesh::vec3::Vec3;

fn v(x: i64, y: i64, z: i64) -> Vec3 {
    Vec3 { x, y, z }
}

#[test]
fn empty_builder_yields_empty_mesh() {
    let b: MeshBuilder<Vec3> = MeshBuilder::new();
    let m = b.finish();
    assert_eq!(m.verts().len(), 0);
    assert_eq!(m.tris().len(), 0);
}

#[test]
fn quad_with_equal_diagonals_gives_two_triangles_four_verts() {
    // A unit quad at fixed-point scale 1000: both diagonals have equal
    // squared length, so the second diagonal is chosen.
    let mut b: MeshBuilder<Vec3> = MeshBuilder::new();
    let h0 = b.vert(v(0, 0, 0));
    let h1 = b.vert(v(1000, 0, 0));
    let h2 = b.vert(v(1000, 1000, 0));
    let h3 = b.vert(v(0, 1000, 0));
    b.add_quad([h0, h1, h2, h3]);
    let m = b.finish();
    assert_eq!(m.verts().len(), 4);
    assert_eq!(m.tris().len(), 2);
    // equal diagonals take the second split: triangles (h1,h2,h3) and
    // (h1,h3,h0), compacted in first-encounter order of their handles
    assert_eq!(m.tris()[0], [0, 1, 2]);
    assert_eq!(m.tris()[1], [0, 2, 3]);
    assert_eq!(m.verts()[0], v(1000, 0, 0));
    assert_eq!(m.verts()[3], v(0, 0, 0));
}

#[test]
fn quad_picks_shorter_diagonal() {
    // A kite where the first diagonal is strictly shorter.
    let mut b: MeshBuilder<Vec3> = MeshBuilder::new();
    let h0 = b.vert(v(0, 100, 0));
    let h1 = b.vert(v(-1000, 0, 0));
    let h2 = b.vert(v(0, -100, 0));
    let h3 = b.vert(v(1000, 0, 0));
    b.add_quad([h0, h1, h2, h3]);
    let m = b.finish();
    assert_eq!(m.tris()[0], [0, 1, 2]);
    assert_eq!(m.tris()[1], [0, 2, 3]);
}

#[test]
fn same_handle_resolves_to_same_index() {
    // Two triangles share one handle: the shared corner collapses to a
    // single vertex slot.
    let mut b: MeshBuilder<Vec3> = MeshBuilder::new();
    let shared = b.vert(v(0, 0, 0));
    let h1 = b.vert(v(1000, 0, 0));
    let h2 = b.vert(v(0, 1000, 0));
    let h3 = b.vert(v(-1000, 0, 0));
    let h4 = b.vert(v(0, -1000, 0));
    b.add_poly(&[shared, h1, h2]);
    b.add_poly(&[shared, h3, h4]);
    let m = b.finish();
    assert_eq!(m.verts().len(), 5);
    assert_eq!(m.tris().len(), 2);
    assert_eq!(m.tris()[0][0], m.tris()[1][0]);
}

#[test]
fn equal_values_in_distinct_slots_stay_distinct() {
    // Value-equal but distinct source vertices do not merge at this
    // stage: identity is the handle, not the value.
    let mut b: MeshBuilder<Vec3> = MeshBuilder::new();
    let h0 = b.vert(v(0, 0, 0));
    let h1 = b.vert(v(1000, 0, 0));
    let h2 = b.vert(v(0, 1000, 0));
    let h3 = b.vert(v(0, 0, 0)); // same value as h0, distinct identity
    let h4 = b.vert(v(-1000, 0, 0));
    let h5 = b.vert(v(0, -1000, 0));
    b.add_poly(&[h0, h1, h2]);
    b.add_poly(&[h3, h4, h5]);
    let m = b.finish();
    assert_eq!(m.verts().len(), 6);
    assert_ne!(m.tris()[0][0], m.tris()[1][0]);
    assert_eq!(m.verts()[m.tris()[0][0]], m.verts()[m.tris()[1][0]]);
}

#[test]
fn poly_fan_triangulates() {
    let mut b: MeshBuilder<Vec3> = MeshBuilder::new();
    let h: Vec<usize> = vec![
        b.vert(v(0, 0, 0)),
        b.vert(v(1000, 0, 0)),
        b.vert(v(1000, 1000, 0)),
        b.vert(v(500, 1500, 0)),
        b.vert(v(0, 1000, 0)),
    ];
    b.add_poly(&h);
    let m = b.finish();
    assert_eq!(m.tris().len(), 3);
    assert_eq!(m.tris()[0], [0, 1, 2]);
    assert_eq!(m.tris()[1], [0, 2, 3]);
    assert_eq!(m.tris()[2], [0, 3, 4]);
}

#[test]
fn patch_applies_every_face() {
    let mut b: MeshBuilder<Vec3> = MeshBuilder::new();
    let h0 = b.vert(v(0, 0, 0));
    let h1 = b.vert(v(1000, 0, 0));
    let h2 = b.vert(v(0, 1000, 0));
    let h3 = b.vert(v(-1000, 0, 0));
    let faces = vec![vec![h0, h1, h2], vec![h0, h2, h3]];
    b.patch(&faces);
    let m = b.finish();
    assert_eq!(m.tris().len(), 2);
    assert_eq!(m.verts().len(), 4);
}

#[test]
fn stitch_bridges_rails() {
    let mut b: MeshBuilder<Vec3> = MeshBuilder::new();
    let l: Vec<usize> = (0..3).map(|i| b.vert(v(i * 1000, 0, 0))).collect();
    let r: Vec<usize> = (0..3).map(|i| b.vert(v(i * 1000, 1000, 0))).collect();
    b.stitch(&l, &r);
    let m = b.finish();
    // two quads, two triangles each
    assert_eq!(m.tris().len(), 4);
    assert_eq!(m.verts().len(), 6);
}

#[test]
fn stitch_with_empty_rail_is_noop() {
    let mut b: MeshBuilder<Vec3> = MeshBuilder::new();
    let l: Vec<usize> = vec![b.vert(v(0, 0, 0)), b.vert(v(1000, 0, 0))];
    let r: Vec<usize> = vec![];
    b.stitch(&l, &r);
    let m = b.finish();
    assert_eq!(m.tris().len(), 0);
    assert_eq!(m.verts().len(), 0);
}

#[test]
fn stitch_loop_closes_the_tube() {
    let mut b: MeshBuilder<Vec3> = MeshBuilder::new();
    let l: Vec<usize> = (0..3).map(|i| b.vert(v(i * 1000, 0, 0))).collect();
    let r: Vec<usize> = (0..3).map(|i| b.vert(v(i * 1000, 1000, 0))).collect();
    b.stitch_loop(&l, &r);
    let m = b.finish();
    // stitch's two quads plus the closing quad
    assert_eq!(m.tris().len(), 6);
}

#[test]
fn stitch_loop_single_pair_is_noop() {
    // A single pair of rail handles offers nothing to bridge: no ribbon
    // quads and no closing quad.
    let mut b: MeshBuilder<Vec3> = MeshBuilder::new();
    let l: Vec<usize> = vec![b.vert(v(0, 0, 0))];
    let r: Vec<usize> = vec![b.vert(v(0, 1000, 0))];
    b.stitch_loop(&l, &r);
    let m = b.finish();
    assert_eq!(m.tris().len(), 0);
    assert_eq!(m.verts().len(), 0);
}

#[test]
fn sinch_loop_fans_to_knot() {
    let mut b: MeshBuilder<Vec3> = MeshBuilder::new();
    let seam: Vec<usize> = vec![
        b.vert(v(1000, 0, 0)),
        b.vert(v(0, 1000, 0)),
        b.vert(v(-1000, 0, 0)),
        b.vert(v(0, -1000, 0)),
    ];
    let knot = b.vert(v(0, 0, 1000));
    b.sinch_loop(&seam, knot);
    let m = b.finish();
    assert_eq!(m.tris().len(), 4);
    assert_eq!(m.verts().len(), 5);
    // the closing triangle bridges the last seam handle back to the first
    assert_eq!(m.tris()[3][1], m.tris()[0][0]);
}

#[test]
fn sinch_loop_empty_seam_is_noop() {
    let mut b: MeshBuilder<Vec3> = MeshBuilder::new();
    let knot = b.vert(v(0, 0, 1000));
    let seam: Vec<usize> = vec![];
    b.sinch_loop(&seam, knot);
    let m = b.finish();
    assert_eq!(m.tris().len(), 0);
}
