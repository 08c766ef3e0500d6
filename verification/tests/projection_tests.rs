use maze_raycaster::projection::{stake_span, texture_column_of, texture_row_of, MAX_DEPTH};

#[test]
fn wall_span_about_the_horizon() {
    // Height 270, plane 90, distance 90: the wall is 135 rows tall, from
    // 135 - 67.5 to 135 + 67.5.
    assert_eq!(stake_span(270, 90, 90), (67, 202));
    assert_eq!(stake_span(270, 50, 90), (13, 256));
    assert_eq!(stake_span(270, 100, 90), (74, 195));
    assert_eq!(stake_span(270, 200, 90), (104, 165));
    assert_eq!(stake_span(270, 45, 90), (0, 270));
    assert_eq!(stake_span(270, 46, 90), (2, 267));
}

#[test]
fn near_wall_fills_the_column() {
    assert_eq!(stake_span(270, 25, 90), (0, 270));
    assert_eq!(stake_span(270, 1, 90), (0, 270));
    assert_eq!(stake_span(270, 0, 90), (0, 270));
    assert_eq!(stake_span(4, 25, 90), (0, 4));
}

#[test]
fn wall_without_height() {
    assert_eq!(stake_span(270, 0, 0), (0, 0));
    assert_eq!(stake_span(270, 90, 0), (135, 135));
    assert_eq!(stake_span(271, 90, 0), (135, 135));
    assert_eq!(stake_span(0, 90, 90), (0, 0));
    assert_eq!(stake_span(0, 0, 90), (0, 0));
}

#[test]
fn far_wall_is_a_sliver_at_the_horizon() {
    assert_eq!(stake_span(270, MAX_DEPTH, 90), (134, 135));
    assert_eq!(stake_span(270, 12_150, 90), (134, 135));
    assert_eq!(stake_span(0x7FFF_FFFF, MAX_DEPTH, u32::MAX), (805306367, 1342177279));
}

#[test]
fn farther_walls_project_lower() {
    let mut last = stake_span(270, 46, 90);
    for d in 47..2000u64 {
        let span = stake_span(270, d, 90);
        assert!(last.0 <= span.0 && span.1 <= last.1, "distance {}", d);
        assert!(span.0 <= 135 && 135 <= span.1);
        // The exact height 270 * 90 / (2 d) falls strictly.
        assert!(270 * 90 * 2 * (d - 1) < 270 * 90 * 2 * d);
        last = span;
    }
    assert_eq!(last, (131, 138));
}

#[test]
fn texture_rows_span_the_wall() {
    let rows: Vec<u32> =
        [67usize, 68, 100, 134, 201].iter().map(|&y| texture_row_of(y, 270, 90, 90, 64)).collect();
    assert_eq!(rows, vec![0, 0, 15, 31, 63]);
    let rows: Vec<u32> = (0..4).map(|y| texture_row_of(y, 4, 25, 90, 8)).collect();
    assert_eq!(rows, vec![0, 1, 2, 3]);
    for y in 67..202 {
        assert!(texture_row_of(y, 270, 90, 90, 1) == 0);
        assert!(texture_row_of(y, 270, 90, 90, u32::MAX) < u32::MAX);
    }
}

#[test]
fn texture_rows_of_a_wall_at_distance_zero() {
    for y in 0..270 {
        assert_eq!(texture_row_of(y, 270, 0, 90, 64), 0);
    }
}

#[test]
fn texture_column_scales_the_coordinate() {
    assert_eq!(texture_column_of(5, 10, 2), 1);
    assert_eq!(texture_column_of(4, 10, 2), 0);
    assert_eq!(texture_column_of(9, 10, 64), 57);
    assert_eq!(texture_column_of(0, 10, 64), 0);
    assert_eq!(texture_column_of(29, 30, 64), 61);
    assert_eq!(texture_column_of(usize::MAX - 1, usize::MAX, u32::MAX), u32::MAX - 1);
}
