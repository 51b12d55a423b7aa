use engine_3d::raster::{
    edge_x, fill_span, fill_triangle, sort_by_y, texel_index, triangle_spans, Span,
};
use engine_3d::{clear_frame, color_position, get_starting_pixel_index};

const RED: [u8; 4] = [255, 0, 0, 255];

fn pixel(frame: &[u8], w: usize, x: usize, y: usize) -> [u8; 4] {
    let b = 4 * (y * w + x);
    [frame[b], frame[b + 1], frame[b + 2], frame[b + 3]]
}

fn painted(frame: &[u8], w: usize, h: usize) -> Vec<(usize, usize)> {
    let mut out = vec![];
    for y in 0..h {
        for x in 0..w {
            if pixel(frame, w, x, y) == RED {
                out.push((x, y));
            }
        }
    }
    out
}

#[test]
fn starting_index_is_four_bytes_per_pixel_row_major() {
    assert_eq!(get_starting_pixel_index(0, 0, 10), 0);
    assert_eq!(get_starting_pixel_index(3, 2, 10), 92);
    assert_eq!(get_starting_pixel_index(9, 0, 10), 36);
}

#[test]
fn color_position_writes_one_pixel() {
    let mut frame = vec![0u8; 4 * 4 * 3];
    color_position(2, 1, 4, 3, &mut frame, &RED);
    assert_eq!(painted(&frame, 4, 3), vec![(2, 1)]);
    assert_eq!(frame.iter().filter(|b| **b != 0).count(), 2);
}

#[test]
fn color_position_skips_pixels_off_canvas() {
    let mut frame = vec![0u8; 4 * 4 * 3];
    color_position(-1, 0, 4, 3, &mut frame, &RED);
    color_position(0, -1, 4, 3, &mut frame, &RED);
    color_position(4, 0, 4, 3, &mut frame, &RED);
    color_position(0, 3, 4, 3, &mut frame, &RED);
    assert!(frame.iter().all(|b| *b == 0));
}

#[test]
fn clear_frame_sets_every_pixel() {
    let mut frame = vec![1u8; 4 * 6 + 2];
    clear_frame(&mut frame, &[107, 229, 252, 0xff]);
    for p in 0..6 {
        assert_eq!(&frame[4 * p..4 * p + 4], &[107, 229, 252, 0xff]);
    }
    assert_eq!(&frame[24..], &[1, 1]);
}

#[test]
fn sort_by_y_orders_ascending() {
    assert_eq!(sort_by_y(&[5, 1, 3]), [1, 2, 0]);
    assert_eq!(sort_by_y(&[0, 1, 2]), [0, 1, 2]);
    assert_eq!(sort_by_y(&[2, 1, 0]), [2, 1, 0]);
}

#[test]
fn sort_by_y_keeps_equal_rows_in_order() {
    assert_eq!(sort_by_y(&[1, 1, 0]), [2, 0, 1]);
    assert_eq!(sort_by_y(&[4, 4, 4]), [0, 1, 2]);
    assert_eq!(sort_by_y(&[3, 0, 3]), [1, 0, 2]);
}

#[test]
fn edge_x_interpolates_exactly() {
    assert_eq!(edge_x(0, 0, 3, 3, 1), 1);
    assert_eq!(edge_x(0, 0, 3, 3, 3), 3);
    assert_eq!(edge_x(10, 2, 0, 7, 4), 6);
    assert_eq!(edge_x(1, 0, 2, 3, 1), 1);
    assert_eq!(edge_x(0, 0, 10, 3, 2), 6);
}

#[test]
fn edge_x_rounds_toward_zero() {
    // -1.5 becomes -1, as a cast of the real value would
    assert_eq!(edge_x(0, 0, -3, 2, 1), -1);
    assert_eq!(edge_x(-5, 0, -5, 9, 4), -5);
}

#[test]
fn spans_of_right_triangle() {
    let spans = triangle_spans(&[0, 4, 0], &[0, 0, 4]);
    assert_eq!(spans.len(), 5);
    for (k, s) in spans.iter().enumerate() {
        let k = k as i32;
        assert_eq!(
            *s,
            Span { y: k, start: 0, end: 4 - k, swapped: k < 4, second_half: true }
        );
    }
}

#[test]
fn spans_of_both_halves_share_the_middle_row() {
    let spans = triangle_spans(&[2, 0, 4], &[0, 2, 4]);
    let rows: Vec<i32> = spans.iter().map(|s| s.y).collect();
    assert_eq!(rows, vec![0, 1, 2, 2, 3, 4]);
    assert_eq!(
        spans[0],
        Span { y: 0, start: 2, end: 2, swapped: false, second_half: false }
    );
    assert_eq!(
        spans[1],
        Span { y: 1, start: 1, end: 2, swapped: false, second_half: false }
    );
    assert_eq!(
        spans[3],
        Span { y: 2, start: 0, end: 3, swapped: false, second_half: true }
    );
    assert_eq!(
        spans[5],
        Span { y: 4, start: 4, end: 4, swapped: false, second_half: true }
    );
}

#[test]
fn flat_triangle_has_no_spans() {
    assert!(triangle_spans(&[0, 3, 7], &[2, 2, 2]).is_empty());
}

#[test]
fn fill_span_orders_its_ends() {
    let mut a = vec![0u8; 4 * 8 * 2];
    fill_span(&mut a, 8, 2, 1, 6, 2, &RED);
    assert_eq!(painted(&a, 8, 2), vec![(2, 1), (3, 1), (4, 1), (5, 1)]);
    let mut b = vec![0u8; 4 * 8 * 2];
    fill_span(&mut b, 8, 2, 1, 2, 6, &RED);
    assert_eq!(a, b);
}

#[test]
fn fill_span_clips_to_canvas() {
    let mut a = vec![0u8; 4 * 4 * 2];
    fill_span(&mut a, 4, 2, 0, -3, 9, &RED);
    assert_eq!(painted(&a, 4, 2), vec![(0, 0), (1, 0), (2, 0), (3, 0)]);
    fill_span(&mut a, 4, 2, 2, 0, 4, &RED);
    fill_span(&mut a, 4, 2, -1, 0, 4, &RED);
    assert_eq!(painted(&a, 4, 2).len(), 4);
}

#[test]
fn fill_span_of_equal_ends_writes_nothing() {
    let mut a = vec![0u8; 4 * 4 * 2];
    fill_span(&mut a, 4, 2, 1, 3, 3, &RED);
    assert!(a.iter().all(|b| *b == 0));
}

#[test]
fn fill_triangle_covers_its_spans() {
    let mut frame = vec![0u8; 4 * 8 * 8];
    fill_triangle(&mut frame, 8, 8, &[0, 4, 0], &[0, 0, 4], &RED);
    let mut expected = vec![];
    for y in 0..4usize {
        for x in 0..(4 - y) {
            expected.push((x, y));
        }
    }
    assert_eq!(painted(&frame, 8, 8), expected);
}

#[test]
fn fill_triangle_ignores_vertex_order() {
    let mut a = vec![0u8; 4 * 8 * 8];
    fill_triangle(&mut a, 8, 8, &[1, 6, 3], &[1, 2, 6], &RED);
    let mut b = vec![0u8; 4 * 8 * 8];
    fill_triangle(&mut b, 8, 8, &[3, 1, 6], &[6, 1, 2], &RED);
    assert_eq!(a, b);
    assert!(!painted(&a, 8, 8).is_empty());
}

#[test]
fn fill_triangle_skips_pixels_off_canvas() {
    let mut frame = vec![0u8; 4 * 4 * 4];
    fill_triangle(&mut frame, 4, 4, &[-10, 20, -10], &[-10, -10, 20], &RED);
    assert_eq!(painted(&frame, 4, 4).len(), 16);
}

#[test]
fn texel_index_clamps_to_last_texel() {
    assert_eq!(texel_index(0, 16), 0);
    assert_eq!(texel_index(15, 16), 15);
    assert_eq!(texel_index(16, 16), 15);
    assert_eq!(texel_index(4000, 16), 15);
}
