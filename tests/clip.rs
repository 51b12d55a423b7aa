use engine_3d::clip::{classify_vertices, clip_corners, Corner};

#[test]
fn classify_keeps_original_order() {
    assert_eq!(classify_vertices(&[true, false, true]), (vec![0, 2], vec![1]));
    assert_eq!(classify_vertices(&[false, false, false]), (vec![], vec![0, 1, 2]));
}

#[test]
fn every_vertex_is_classified_once() {
    for m in 0..8u8 {
        let inside = [m & 1 != 0, m & 2 != 0, m & 4 != 0];
        let (ins, outs) = classify_vertices(&inside);
        assert_eq!(ins.len() + outs.len(), 3);
        let expected = match ins.len() {
            0 => 0,
            1 | 3 => 1,
            _ => 2,
        };
        assert_eq!(clip_corners(&inside).len(), expected);
    }
}

#[test]
fn all_outside_discards_the_triangle() {
    assert!(clip_corners(&[false, false, false]).is_empty());
}

#[test]
fn all_inside_keeps_the_triangle() {
    assert_eq!(
        clip_corners(&[true, true, true]),
        vec![[Corner::Kept(0), Corner::Kept(1), Corner::Kept(2)]]
    );
}

#[test]
fn one_inside_gives_the_smaller_triangle() {
    assert_eq!(
        clip_corners(&[false, true, false]),
        vec![[Corner::Kept(1), Corner::Cut(1, 0), Corner::Cut(1, 2)]]
    );
}

#[test]
fn two_inside_split_the_quad() {
    // vertices at z = -1, 1, 2 against the plane z = 0: the first one is outside
    assert_eq!(
        clip_corners(&[false, true, true]),
        vec![
            [Corner::Kept(1), Corner::Kept(2), Corner::Cut(1, 0)],
            [Corner::Kept(2), Corner::Cut(1, 0), Corner::Cut(2, 0)],
        ]
    );
}
