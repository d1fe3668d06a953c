use fourier_gif::raster::{draw_dot, draw_line, limit, test_gif, TEST_HEIGHT, TEST_WIDTH};

fn lit(tab: &[u8], w: usize) -> Vec<(usize, usize)> {
    let mut cells = Vec::new();
    for (i, v) in tab.iter().enumerate() {
        if *v != 0 {
            cells.push((i % w, i / w));
        }
    }
    cells
}

#[test]
fn limit_clamps_each_coordinate() {
    assert_eq!(limit(3, 4, 10, 10), (3, 4));
    assert_eq!(limit(10, 4, 10, 10), (9, 4));
    assert_eq!(limit(3, 25, 10, 10), (3, 9));
    assert_eq!(limit(usize::MAX, usize::MAX, 5, 7), (4, 6));
}

#[test]
fn horizontal_line_covers_both_ends() {
    let mut tab = vec![0u8; 8 * 4];
    draw_line(1, 2, 5, 2, 7, &mut tab, 8, 4);
    assert_eq!(lit(&tab, 8), vec![(1, 2), (2, 2), (3, 2), (4, 2), (5, 2)]);
    assert!(tab.iter().all(|v| *v == 0 || *v == 7));
}

#[test]
fn vertical_line_drawn_backwards() {
    let mut tab = vec![0u8; 5 * 6];
    draw_line(3, 5, 3, 1, 2, &mut tab, 5, 6);
    assert_eq!(lit(&tab, 5), vec![(3, 1), (3, 2), (3, 3), (3, 4), (3, 5)]);
}

#[test]
fn single_cell_line() {
    let mut tab = vec![0u8; 4 * 4];
    draw_line(2, 2, 2, 2, 1, &mut tab, 4, 4);
    assert_eq!(lit(&tab, 4), vec![(2, 2)]);
}

#[test]
fn diagonal_line_stops_before_its_end() {
    let mut tab = vec![0u8; 6 * 6];
    draw_line(0, 0, 3, 3, 1, &mut tab, 6, 6);
    assert_eq!(lit(&tab, 6), vec![(0, 0), (1, 1), (2, 2)]);
}

#[test]
fn gentle_slope_rounds_to_nearest_row() {
    // dx = 4, dy = 1: rows round(j / 4) for j = 0..3
    let mut tab = vec![0u8; 6 * 3];
    draw_line(0, 0, 4, 1, 1, &mut tab, 6, 3);
    assert_eq!(lit(&tab, 6), vec![(0, 0), (1, 0), (2, 1), (3, 1)]);
}

#[test]
fn steep_slope_fills_the_rows_between_columns() {
    // dx = 1, dy = 3: the only column holds rows 0 to 2, the row before the end's
    let mut tab = vec![0u8; 3 * 5];
    draw_line(0, 0, 1, 3, 1, &mut tab, 3, 5);
    assert_eq!(lit(&tab, 3), vec![(0, 0), (0, 1), (0, 2)]);
}

#[test]
fn mirrored_quadrants_start_at_the_first_point() {
    let mut a = vec![0u8; 6 * 6];
    draw_line(4, 4, 0, 0, 1, &mut a, 6, 6);
    assert_eq!(lit(&a, 6), vec![(1, 1), (2, 2), (3, 3), (4, 4)]);
    let mut b = vec![0u8; 6 * 6];
    draw_line(0, 4, 4, 0, 1, &mut b, 6, 6);
    assert_eq!(lit(&b, 6), vec![(3, 1), (2, 2), (1, 3), (0, 4)]);
}

#[test]
fn line_ends_are_clamped_to_the_frame() {
    let mut tab = vec![0u8; 4 * 3];
    draw_line(1, 10, 100, 10, 1, &mut tab, 4, 3);
    assert_eq!(lit(&tab, 4), vec![(1, 2), (2, 2), (3, 2)]);
}

#[test]
fn other_cells_keep_their_value() {
    let mut tab = vec![9u8; 5 * 5];
    draw_line(0, 2, 4, 2, 1, &mut tab, 5, 5);
    for (i, v) in tab.iter().enumerate() {
        if i / 5 == 2 {
            assert_eq!(*v, 1);
        } else {
            assert_eq!(*v, 9);
        }
    }
}

#[test]
fn dot_is_clamped() {
    let mut tab = vec![0u8; 3 * 3];
    draw_dot(7, 1, 4, &mut tab, 3, 3);
    assert_eq!(lit(&tab, 3), vec![(2, 1)]);
    assert_eq!(tab[1 * 3 + 2], 4);
}

#[test]
fn test_frame_has_one_segment() {
    let frame = test_gif(10, 20, 13, 20);
    assert_eq!(frame.len(), TEST_WIDTH * TEST_HEIGHT);
    assert_eq!(lit(&frame, TEST_WIDTH), vec![(10, 20), (11, 20), (12, 20), (13, 20)]);
    assert_eq!(frame[20 * TEST_WIDTH + 10], 1);
}
