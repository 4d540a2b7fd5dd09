use trimesh::Mesh;
use trimesh::vec3::Vec3;

fn v(x: i64, y: i64, z: i64) -> Vec3 {
    Vec3 { x, y, z }
}

#[test]
fn near_vertices_collapse_within_threshold() {
    // Positions 0 and 0.001 at fixed-point scale 100000, merged with
    // threshold 0.01 (1000 fixed-point units): they collapse to one
    // vertex, the seed's value surviving.
    let m = Mesh::new(vec![v(0, 0, 0), v(100, 0, 0)], vec![]);
    let merged = m.merge_by_distance(1000);
    assert_eq!(merged.verts().len(), 1);
    assert_eq!(merged.verts()[0], v(0, 0, 0));
}

#[test]
fn far_vertices_stay_apart_below_threshold() {
    // The same pair with threshold 0.0001 (10 fixed-point units) stays
    // two vertices.
    let m = Mesh::new(vec![v(0, 0, 0), v(100, 0, 0)], vec![]);
    let merged = m.merge_by_distance(10);
    assert_eq!(merged.verts().len(), 2);
}

#[test]
fn seed_keeps_its_value_and_order() {
    let m = Mesh::new(
        vec![v(5000, 0, 0), v(0, 0, 0), v(5003, 0, 0), v(2, 0, 0)],
        vec![],
    );
    let merged = m.merge_by_distance(10);
    // seeds in ascending original-index order: 0 absorbs 2; 1 absorbs 3
    assert_eq!(merged.verts().len(), 2);
    assert_eq!(merged.verts()[0], v(5000, 0, 0));
    assert_eq!(merged.verts()[1], v(0, 0, 0));
}

#[test]
fn merge_remaps_and_drops_degenerate_triangles() {
    // A triangle whose two corners collapse is dropped; a surviving
    // triangle is remapped through the cluster index map.
    let verts = vec![v(0, 0, 0), v(5, 0, 0), v(5000, 0, 0), v(0, 5000, 0)];
    let tris = vec![[0, 1, 2], [1, 2, 3]];
    let m = Mesh::new(verts, tris);
    let merged = m.merge_by_distance(10);
    assert_eq!(merged.verts().len(), 3);
    assert_eq!(merged.tris().len(), 1);
    assert_eq!(merged.tris()[0], [0, 1, 2]);
    for t in merged.tris() {
        assert!(t[0] != t[1] && t[1] != t[2] && t[2] != t[0]);
    }
}

#[test]
fn merge_never_grows_the_vertex_buffer() {
    for threshold in [0i64, 1, 10, 100, 1000, 10000] {
        let m = Mesh::new(
            vec![v(0, 0, 0), v(30, 0, 0), v(60, 0, 0), v(90, 0, 0), v(120, 0, 0)],
            vec![],
        );
        let merged = m.merge_by_distance(threshold);
        assert!(merged.verts().len() <= 5);
    }
}

#[test]
fn merging_twice_with_same_threshold_changes_nothing() {
    // Seed-anchored clustering leaves every pair of survivors strictly
    // farther apart than the threshold, so a second pass is the identity.
    let verts = vec![v(0, 0, 0), v(900, 0, 0), v(1800, 0, 0), v(0, 5000, 0)];
    let tris = vec![[0, 2, 3]];
    let m = Mesh::new(verts, tris);
    let once = m.merge_by_distance(1000);
    let once_verts: Vec<Vec3> = once.verts().clone();
    let once_tris: Vec<[usize; 3]> = once.tris().clone();
    let twice = once.merge_by_distance(1000);
    assert_eq!(twice.verts(), &once_verts);
    assert_eq!(twice.tris(), &once_tris);
}

#[test]
fn chain_outside_seed_radius_is_not_pulled_in() {
    // Single-link, seed-anchored policy: 1800 is within threshold of 900
    // but not of the seed 0, so it is not absorbed transitively.
    let m = Mesh::new(vec![v(0, 0, 0), v(900, 0, 0), v(1800, 0, 0)], vec![]);
    let merged = m.merge_by_distance(1000);
    assert_eq!(merged.verts().len(), 2);
    assert_eq!(merged.verts()[1], v(1800, 0, 0));
}

#[test]
fn survivor_count_can_grow_with_the_threshold() {
    // The seed-anchored policy is not monotone in the threshold: with
    // radius 1000 the second point seeds its own cluster and absorbs both
    // wing points (two clusters in all); with radius 1500 the first seed
    // absorbs the second point instead, stranding both wings as their own
    // clusters (three in all).
    let verts = vec![
        v(0, 0, 0),
        v(1500, 0, 0),
        v(1800, 953, 0),
        v(1800, -953, 0),
    ];
    let small = Mesh::new(verts.clone(), vec![]).merge_by_distance(1000);
    assert_eq!(small.verts().len(), 2);
    let large = Mesh::new(verts, vec![]).merge_by_distance(1500);
    assert_eq!(large.verts().len(), 3);
}

#[test]
fn zero_threshold_collapses_exact_duplicates() {
    let m = Mesh::new(vec![v(7, 7, 7), v(7, 7, 7), v(8, 7, 7)], vec![]);
    let merged = m.merge_by_distance(0);
    assert_eq!(merged.verts().len(), 2);
}
