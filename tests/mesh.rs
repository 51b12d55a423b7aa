use engine_3d::mesh::triangulate_face;

#[test]
fn triangle_face_is_kept() {
    assert_eq!(triangulate_face(&vec![1, 2, 3], 3), Some(vec![[0, 1, 2]]));
}

#[test]
fn quad_face_becomes_a_fan() {
    assert_eq!(
        triangulate_face(&vec![4, 7, 5, 2], 7),
        Some(vec![[3, 6, 4], [3, 4, 1]])
    );
}

#[test]
fn out_of_range_reference_is_refused() {
    assert_eq!(triangulate_face(&vec![1, 2, 4], 3), None);
    assert_eq!(triangulate_face(&vec![0, 1, 2], 3), None);
}

#[test]
fn face_of_other_size_is_refused() {
    assert_eq!(triangulate_face(&vec![1, 2], 3), None);
    assert_eq!(triangulate_face(&vec![1, 2, 3, 1, 2], 3), None);
}
