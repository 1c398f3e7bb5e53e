use tetrust::board::Board;
use tetrust::{BOARD_COLS, BOARD_ROWS};

fn empty_grid() -> [[u8; 10]; 22] {
    [[0u8; 10]; 22]
}

#[test]
fn empty_board() {
    let mut board = Board::new();
    let expected_lines_cleared = 0;
    let expected_board = Board::new();

    let lines_cleared = board.clear_lines();

    assert_eq!(
        expected_lines_cleared, lines_cleared,
        "Expected {} lines cleared, but got {}",
        expected_lines_cleared, lines_cleared
    );

    assert_eq!(expected_board, board, "Cleared board did not match expected board");
}

#[test]
fn full_board() {
    let mut board = Board::new_filled();
    let expected_lines_cleared = BOARD_ROWS as u8;
    let expected_board = Board::new();

    let lines_cleared = board.clear_lines();

    assert_eq!(
        expected_lines_cleared, lines_cleared,
        "Expected {} lines cleared, but got {}",
        expected_lines_cleared, lines_cleared
    );

    assert_eq!(expected_board, board, "Cleared board did not match expected board");
}

#[test]
fn single_line_no_consolidation() {
    let mut grid = empty_grid();
    grid[BOARD_ROWS - 1] = [1; 10];
    let mut board = Board::from_rows(grid);

    let expected_lines_cleared = 1;
    let expected_board = Board::new();

    let lines_cleared = board.clear_lines();

    assert_eq!(
        expected_lines_cleared, lines_cleared,
        "Expected {} lines cleared, but got {}",
        expected_lines_cleared, lines_cleared
    );

    assert_eq!(expected_board, board, "Cleared board did not match expected board");
}

#[test]
fn multiple_lines_no_consolidation() {
    let mut grid = empty_grid();
    grid[BOARD_ROWS - 2] = [1; 10];
    grid[BOARD_ROWS - 1] = [1; 10];
    let mut board = Board::from_rows(grid);

    let expected_lines_cleared = 2;
    let expected_board = Board::new();

    let lines_cleared = board.clear_lines();

    assert_eq!(
        expected_lines_cleared, lines_cleared,
        "Expected {} lines cleared, but got {}",
        expected_lines_cleared, lines_cleared
    );

    assert_eq!(expected_board, board, "Cleared board did not match expected board");
}

#[test]
fn single_line_with_consolidation() {
    let mut grid = empty_grid();
    grid[BOARD_ROWS - 3] = [0, 1, 0, 1, 0, 1, 0, 1, 0, 1];
    grid[BOARD_ROWS - 2] = [1, 0, 1, 0, 1, 0, 1, 0, 1, 0];
    grid[BOARD_ROWS - 1] = [1; 10];
    let mut board = Board::from_rows(grid);

    let expected_lines_cleared = 1;
    let mut expected_grid = empty_grid();
    expected_grid[BOARD_ROWS - 2] = [0, 1, 0, 1, 0, 1, 0, 1, 0, 1];
    expected_grid[BOARD_ROWS - 1] = [1, 0, 1, 0, 1, 0, 1, 0, 1, 0];
    let expected_board = Board::from_rows(expected_grid);

    let lines_cleared = board.clear_lines();

    assert_eq!(
        expected_lines_cleared, lines_cleared,
        "Expected {} lines cleared, but got {}",
        expected_lines_cleared, lines_cleared
    );

    assert_eq!(expected_board, board, "Cleared board did not match expected board");
}

#[test]
fn multiple_lines_with_consolidation() {
    let mut grid = empty_grid();
    grid[BOARD_ROWS - 4] = [0, 1, 0, 1, 0, 1, 0, 1, 0, 1];
    grid[BOARD_ROWS - 3] = [1; 10];
    grid[BOARD_ROWS - 2] = [1, 0, 1, 0, 1, 0, 1, 0, 1, 0];
    grid[BOARD_ROWS - 1] = [1; 10];
    let mut board = Board::from_rows(grid);

    let expected_lines_cleared = 2;
    let mut expected_grid = empty_grid();
    expected_grid[BOARD_ROWS - 2] = [0, 1, 0, 1, 0, 1, 0, 1, 0, 1];
    expected_grid[BOARD_ROWS - 1] = [1, 0, 1, 0, 1, 0, 1, 0, 1, 0];
    let expected_board = Board::from_rows(expected_grid);

    let lines_cleared = board.clear_lines();

    assert_eq!(
        expected_lines_cleared, lines_cleared,
        "Expected {} lines cleared, but got {}",
        expected_lines_cleared, lines_cleared
    );

    assert_eq!(expected_board, board, "Cleared board did not match expected board");
}

#[test]
fn clear_lines_is_idempotent() {
    let mut grid = empty_grid();
    grid[BOARD_ROWS - 2] = [0, 1, 0, 1, 0, 1, 0, 1, 0, 1];
    grid[BOARD_ROWS - 1] = [1; 10];
    let mut board = Board::from_rows(grid);

    assert_eq!(1, board.clear_lines());
    let settled = board.clone();
    assert_eq!(0, board.clear_lines());
    assert_eq!(settled, board);
}

#[test]
fn cell_and_row_accessors_read_the_grid() {
    let mut grid = empty_grid();
    grid[5][7] = 2;
    let board = Board::from_rows(grid);

    assert_eq!(2, board.cell(5, 7));
    assert_eq!(0, board.cell(5, 6));
    let row = board.row(5);
    assert_eq!(BOARD_COLS, row.len());
    assert_eq!(2, row[7]);
}

#[test]
fn buffer_zone_occupancy_reads_lower_buffer_row() {
    let mut grid = empty_grid();
    let board = Board::from_rows(grid);
    assert!(!board.buffer_zone_occupied());

    grid[1][9] = 1;
    let board = Board::from_rows(grid);
    assert!(board.buffer_zone_occupied());
}
