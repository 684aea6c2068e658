use sw_render::mesh::{triangulate, Mesh, MeshError};

#[test]
fn triangulate_takes_indices_three_at_a_time() {
    let polygons = vec![vec![0, 1, 2, 3, 4, 5, 6], vec![7, 8], vec![2, 3, 4]];
    assert_eq!(triangulate(&polygons), vec![[0, 1, 2], [3, 4, 5], [2, 3, 4]]);
    assert!(triangulate(&Vec::new()).is_empty());
}

#[test]
fn faces_resolve_to_vertices() {
    let vertices = vec![(0, 0, 0), (1, 0, 0), (0, 1, 0), (0, 0, 1)];
    let mesh = Mesh::new(vertices, vec![[0, 1, 2], [3, 2, 1]], ((0, 0, 0), (1, 1, 1))).unwrap();
    assert_eq!(
        mesh.tris_faces(),
        vec![[(0, 0, 0), (1, 0, 0), (0, 1, 0)], [(0, 0, 1), (0, 1, 0), (1, 0, 0)]]
    );
    assert_eq!(mesh.bounding_box(), ((0, 0, 0), (1, 1, 1)));
    assert_eq!(mesh.vertices().len(), 4);
}

#[test]
fn face_past_the_vertices_is_refused() {
    let r = Mesh::new(vec![1u8, 2, 3], vec![[0, 1, 2], [1, 2, 3]], (1u8, 3u8));
    assert_eq!(r.err(), Some(MeshError::IndexOutOfRange));
}
