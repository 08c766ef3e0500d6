use maze_raycaster::maze::{
    find_start_cell, find_start_position, grid_fits, is_passable, load_maze, LoadError, MAX_SPAN,
};

fn grid(rows: &[&str]) -> Vec<Vec<char>> {
    rows.iter().map(|r| r.chars().collect()).collect()
}

#[test]
fn start_at_row_2_col_3_block_30() {
    let maze = grid(&["+----+", "|    |", "|  s |", "+----+"]);
    assert_eq!(find_start_position(&maze, 30), Some((75, 75)));
    assert_eq!(find_start_position(&maze, 30), Some((3 * 30 - 15, 2 * 30 + 15)));
}

#[test]
fn no_start_is_not_found() {
    let maze = grid(&["+--+", "| g|", "+--+"]);
    assert_eq!(find_start_position(&maze, 30), None);
    assert_eq!(find_start_cell(&maze), None);
    assert_eq!(find_start_position(&Vec::new(), 30), None);
    assert_eq!(find_start_position(&grid(&["", ""]), 30), None);
}

#[test]
fn first_start_in_reading_order_wins() {
    let maze = grid(&["+---+", "|  s|", "|s  |", "+---+"]);
    assert_eq!(find_start_cell(&maze), Some((1, 3)));
    assert_eq!(find_start_position(&maze, 10), Some((25, 15)));
    let maze = grid(&["+ss+"]);
    assert_eq!(find_start_cell(&maze), Some((0, 1)));
}

#[test]
fn start_offsets_are_uneven() {
    // Half a block to the left of the cell's left edge, half a block below
    // its top edge; an odd block size rounds the half down.
    let maze = grid(&["+s"]);
    assert_eq!(find_start_position(&maze, 7), Some((4, 3)));
    assert_eq!(find_start_position(&maze, 1), Some((1, 0)));
    let maze = grid(&["s"]);
    assert_eq!(find_start_position(&maze, 1), Some((0, 0)));
}

#[test]
fn start_cell_in_ragged_grid() {
    let maze = grid(&["+", "+--", "+-s-"]);
    assert_eq!(find_start_cell(&maze), Some((2, 2)));
}

#[test]
fn passable_tags() {
    let maze = grid(&["+-|", " sg", "x"]);
    assert!(!is_passable(&maze, 0, 0));
    assert!(!is_passable(&maze, 0, 1));
    assert!(!is_passable(&maze, 0, 2));
    assert!(is_passable(&maze, 1, 0));
    assert!(is_passable(&maze, 1, 1));
    assert!(is_passable(&maze, 1, 2));
    assert!(!is_passable(&maze, 2, 0));
}

#[test]
fn outside_the_grid_is_not_passable() {
    let maze = grid(&["  ", " "]);
    assert!(is_passable(&maze, 0, 1));
    assert!(!is_passable(&maze, 1, 1));
    assert!(!is_passable(&maze, 2, 0));
    assert!(!is_passable(&maze, 0, 2));
    assert!(!is_passable(&Vec::new(), 0, 0));
}

#[test]
fn load_reads_one_row_per_line() {
    assert_eq!(load_maze("+-+\n|s|\n+-+\n"), Ok(grid(&["+-+", "|s|", "+-+"])));
    assert_eq!(load_maze("+-+\n|s|\n+-+"), Ok(grid(&["+-+", "|s|", "+-+"])));
    assert_eq!(load_maze("| g"), Ok(grid(&["| g"])));
    assert_eq!(load_maze(""), Ok(Vec::new()));
}

#[test]
fn load_strips_carriage_returns_before_line_feeds() {
    assert_eq!(load_maze("+-+\r\n|s|\r\n"), Ok(grid(&["+-+", "|s|"])));
    // A carriage return elsewhere is a cell like any other.
    assert_eq!(load_maze("+\r+\n|s|"), Ok(grid(&["+\r+", "|s|"])));
    assert_eq!(load_maze("ab\ncd\r"), Err(LoadError::UnevenRows));
    assert_eq!(load_maze("ab\r\r\ncd\r"), Ok(grid(&["ab\r", "cd\r"])));
}

#[test]
fn load_keeps_cells_beyond_ascii() {
    assert_eq!(load_maze("é+\n+é"), Ok(vec![vec!['é', '+'], vec!['+', 'é']]));
}

#[test]
fn load_refuses_an_empty_row() {
    assert_eq!(load_maze("+-+\n\n+-+"), Err(LoadError::EmptyRow));
    assert_eq!(load_maze("\n"), Err(LoadError::EmptyRow));
    assert_eq!(load_maze("\r\n+"), Err(LoadError::EmptyRow));
    // An empty row is reported before uneven rows.
    assert_eq!(load_maze("+-+\n+\n\n"), Err(LoadError::EmptyRow));
}

#[test]
fn load_refuses_uneven_rows() {
    assert_eq!(load_maze("+-+\n+-\n+-+"), Err(LoadError::UnevenRows));
    assert_eq!(load_maze("+\n+-"), Err(LoadError::UnevenRows));
}

#[test]
fn load_then_find_start() {
    let maze = load_maze("+----+\n|    |\n|  s |\n+----+\n").unwrap();
    assert_eq!(find_start_position(&maze, 30), Some((75, 75)));
}

#[test]
fn grid_fits_up_to_the_largest_span() {
    let maze = grid(&["+--+", "|  |"]);
    assert!(grid_fits(&maze, 30));
    assert!(grid_fits(&maze, MAX_SPAN / 4));
    assert!(!grid_fits(&maze, MAX_SPAN / 4 + 1));
    assert!(!grid_fits(&maze, usize::MAX));
    assert!(grid_fits(&maze, 0));
    assert!(grid_fits(&Vec::new(), usize::MAX));
    // The number of rows counts as the widths do.
    let tall = grid(&["+", "+", "+", "+", "+", "+", "+", "+"]);
    assert!(grid_fits(&tall, MAX_SPAN / 8));
    assert!(!grid_fits(&tall, MAX_SPAN / 8 + 1));
}

#[test]
fn start_cell_is_found_exactly_where_a_start_tag_is() {
    for rows in [vec![], vec![""], vec!["", ""], vec!["+-|g #"], vec![" ", "  ", ""]] {
        assert_eq!(find_start_cell(&grid(&rows)), None);
        assert_eq!(find_start_position(&grid(&rows), 30), None);
        assert_eq!(find_start_position(&grid(&rows), usize::MAX), None);
        assert_eq!(find_start_position(&grid(&rows), 0), None);
    }
    for rows in [vec!["s"], vec!["", "s"], vec![" ", "  ", "  s"], vec!["S", "s"]] {
        assert!(find_start_cell(&grid(&rows)).is_some());
        assert!(find_start_position(&grid(&rows), 1).is_some());
    }
}

#[test]
fn start_place_with_the_largest_blocks() {
    // The cell's left edge is beyond the largest number, its place is not.
    let block = usize::MAX / 2 + 1;
    let maze = grid(&["++s"]);
    assert_eq!(find_start_position(&maze, block), Some((block + (block - block / 2), block / 2)));
    assert_eq!(find_start_position(&grid(&["+s"]), usize::MAX), Some((usize::MAX - usize::MAX / 2, usize::MAX / 2)));
    assert_eq!(find_start_position(&grid(&["s"]), 0), Some((0, 0)));
    assert_eq!(find_start_position(&grid(&["  ", "  ", " s"]), 0), Some((0, 0)));
}
