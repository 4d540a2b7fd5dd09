use trimesh::mesh_builder::MeshBuilder;
use trimesh::vec3::{UNIT, Vec3};
use trimesh::vertex::PosNorm;
use trimesh::{Mesh, Seg, Tri};

fn v(x: i64, y: i64, z: i64) -> Vec3 {
    Vec3 { x, y, z }
}

fn sample() -> Mesh<Vec3> {
    Mesh::new(
        vec![v(0, 0, 0), v(1000, 0, 0), v(0, 1000, 0), v(0, 0, 1000)],
        vec![[0, 1, 2], [0, 2, 3]],
    )
}

#[test]
fn verts_and_tris_expose_the_buffers() {
    let m = sample();
    assert_eq!(m.verts().len(), 4);
    assert_eq!(m.tris().len(), 2);
    assert_eq!(m.tris()[1], [0, 2, 3]);
}

#[test]
fn tris_flat_flattens_in_order() {
    let m = sample();
    assert_eq!(m.tris_flat(), vec![0, 1, 2, 0, 2, 3]);
}

#[test]
fn tris_flat_mapped_applies_the_function() {
    let m = sample();
    let doubled = m.tris_flat_mapped(|i| 2 * i);
    assert_eq!(doubled, vec![0, 2, 4, 0, 4, 6]);
}

#[test]
fn tri_verts_dereferences_indices() {
    let m = sample();
    let ts = m.tri_verts();
    assert_eq!(ts.len(), 2);
    assert_eq!(ts[0].0, v(0, 0, 0));
    assert_eq!(ts[0].1, v(1000, 0, 0));
    assert_eq!(ts[1].2, v(0, 0, 1000));
}

#[test]
fn map_transforms_vertices_and_keeps_topology() {
    let m = sample();
    let shifted = m.map(|p: Vec3| Vec3 { x: p.x + 1, y: p.y, z: p.z });
    assert_eq!(shifted.verts()[1], v(1001, 0, 0));
    assert_eq!(shifted.tris(), m.tris());
}

#[test]
fn set_vert_replaces_one_slot() {
    let mut m = sample();
    m.set_vert(2, v(7, 7, 7));
    assert_eq!(m.verts()[2], v(7, 7, 7));
    assert_eq!(m.verts()[1], v(1000, 0, 0));
    assert_eq!(m.tris().len(), 2);
}

#[test]
fn tri_new_map_and_edges() {
    let t = Tri::new(v(0, 0, 0), v(1000, 0, 0), v(0, 1000, 0));
    let flipped = t.map(|p: Vec3| Vec3 { x: -p.x, y: -p.y, z: -p.z });
    assert_eq!(flipped.1, v(-1000, 0, 0));
    let arr = t.map_out(|p: Vec3| p.x);
    assert_eq!(arr, [0, 1000, 0]);
    let edges: [Seg<Vec3>; 3] = t.edges();
    assert_eq!(edges[0].0, t.0);
    assert_eq!(edges[2].1, t.0);
}

#[test]
fn tri_normal_and_degenerate() {
    let t = Tri::new(v(0, 0, 0), v(1000, 0, 0), v(0, 1000, 0));
    assert_eq!(t.normal(), Some(v(0, 0, UNIT)));
    let line = Tri::new(v(0, 0, 0), v(500, 0, 0), v(1000, 0, 0));
    assert_eq!(line.normal(), None);
}

#[test]
fn builder_feeds_merge_and_synthesis() {
    // The full pipeline: build, merge, synthesize.
    let mut b: MeshBuilder<PosNorm> = MeshBuilder::new();
    let zero = Vec3 { x: 0, y: 0, z: 0 };
    let h0 = b.vert(PosNorm { pos: v(0, 0, 0), norm: zero });
    let h1 = b.vert(PosNorm { pos: v(1000, 0, 0), norm: zero });
    let h2 = b.vert(PosNorm { pos: v(1000, 1000, 0), norm: zero });
    let h3 = b.vert(PosNorm { pos: v(2, 0, 0), norm: zero });
    let h4 = b.vert(PosNorm { pos: v(0, 1000, 0), norm: zero });
    b.add_poly(&[h0, h1, h2]);
    b.add_poly(&[h3, h2, h4]);
    let m = b.finish();
    assert_eq!(m.verts().len(), 5);
    let merged = m.merge_by_distance(10);
    assert_eq!(merged.verts().len(), 4);
    assert_eq!(merged.tris().len(), 2);
    let out = merged.autocomplete_normals_sync();
    assert_eq!(out.verts()[0].norm, v(0, 0, UNIT));
}
