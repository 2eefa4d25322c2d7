use alander::primitives::create_cube;

#[test]
fn cube_has_four_vertices_per_face() {
    let m = create_cube();
    assert_eq!(m.name, "Cube");
    assert_eq!(m.vertices.len(), 24);
    assert_eq!(m.indices.len(), 36);
    // First corner of the front face.
    assert_eq!(m.vertices[0].position, [-500, -500, 500]);
    assert_eq!(m.vertices[0].normal, [0, 0, 1000]);
    assert_eq!(m.vertices[0].uv, [0, 0]);
    assert_eq!(m.vertices[0].tangent, [1000, 0, 0, 1000]);
    // Third corner of the right face.
    assert_eq!(m.vertices[14].position, [500, 500, -500]);
    assert_eq!(m.vertices[14].normal, [1000, 0, 0]);
    assert_eq!(m.vertices[14].uv, [1000, 1000]);
    assert_eq!(m.vertices[14].tangent, [0, 0, -1000, 1000]);
    // Last corner of the bottom face.
    assert_eq!(m.vertices[23].position, [-500, -500, 500]);
    assert_eq!(m.vertices[23].normal, [0, -1000, 0]);
}

#[test]
fn cube_back_face_is_wound_the_other_way() {
    let m = create_cube();
    assert_eq!(&m.indices[0..6], &[0, 1, 2, 2, 3, 0]);
    assert_eq!(&m.indices[6..12], &[4, 7, 6, 6, 5, 4]);
    assert_eq!(&m.indices[30..36], &[20, 21, 22, 22, 23, 20]);
    assert!(m.indices.iter().all(|&i| i < 24));
}
