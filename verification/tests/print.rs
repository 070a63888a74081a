use sudoku_rust::io::print::{
    add_all_candidates_labels, add_single_value_labels, write_candidate, write_candidates, write_givens,
    write_known_values, write_single_value,
};
use sudoku_rust::layout::board::Board;
use sudoku_rust::layout::cells::cell::Cell;
use sudoku_rust::layout::knowns::known::Known;

fn cell(label: &str) -> Cell {
    Cell::try_from(label).unwrap()
}

fn board_with_a_given_and_a_solution() -> Board {
    let mut board = Board::new();
    board.set_given(cell("A1"), Known::new(5));
    board.set_known(cell("B2"), Known::new(3));
    board
}

#[test]
fn single_value_grid_has_borders_and_block_rules() {
    let marks: Vec<char> = (0..81).map(|i| if i % 10 == 0 { '*' } else { ' ' }).collect();
    let grid = write_single_value(&marks);
    assert_eq!(13, grid.len());
    assert_eq!("┍───────┬───────┬───────┐", grid[0]);
    assert_eq!("│ *     │       │       │", grid[1]);
    assert_eq!("│   *   │       │       │", grid[2]);
    assert_eq!("├───────┼───────┼───────┤", grid[4]);
    assert_eq!("│       │ *     │       │", grid[5]);
    assert_eq!("├───────┼───────┼───────┤", grid[8]);
    assert_eq!("│       │       │     * │", grid[11]);
    assert_eq!("└───────┴───────┴───────┘", grid[12]);
}

#[test]
fn givens_show_other_solutions_as_missing() {
    let board = board_with_a_given_and_a_solution();
    let grid = write_givens(&board);
    assert_eq!("│ 5     │       │       │", grid[1]);
    assert_eq!("│   ·   │       │       │", grid[2]);
    let known = write_known_values(&board);
    assert_eq!("│ 5     │       │       │", known[1]);
    assert_eq!("│   3   │       │       │", known[2]);
}

#[test]
fn single_value_labels_frame_the_grid() {
    let board = board_with_a_given_and_a_solution();
    let lines = add_single_value_labels(write_known_values(&board));
    assert_eq!(15, lines.len());
    assert_eq!("    1 2 3   4 5 6   7 8 9    ", lines[0]);
    assert_eq!("  ┍───────┬───────┬───────┐  ", lines[1]);
    assert_eq!("A │ 5     │       │       │ A", lines[2]);
    assert_eq!("B │   3   │       │       │ B", lines[3]);
    assert_eq!("  ├───────┼───────┼───────┤  ", lines[5]);
    assert_eq!("J │       │       │       │ J", lines[12]);
    assert_eq!("  └───────┴───────┴───────┘  ", lines[13]);
    assert_eq!("    1 2 3   4 5 6   7 8 9    ", lines[14]);
}

#[test]
fn candidates_grid_shows_three_lines_per_row() {
    let grid = write_candidates(&Board::new());
    assert_eq!(37, grid.len());
    assert_eq!(
        "┍───────────────────────┬───────────────────────┬───────────────────────┐",
        grid[0]
    );
    assert_eq!(
        "│ 1 2 3   1 2 3   1 2 3 │ 1 2 3   1 2 3   1 2 3 │ 1 2 3   1 2 3   1 2 3 │",
        grid[1]
    );
    assert_eq!(
        "│ 7 8 9   7 8 9   7 8 9 │ 7 8 9   7 8 9   7 8 9 │ 7 8 9   7 8 9   7 8 9 │",
        grid[3]
    );
    assert_eq!(
        "│                       │                       │                       │",
        grid[4]
    );
    assert_eq!(
        "├───────────────────────┼───────────────────────┼───────────────────────┤",
        grid[12]
    );
    assert_eq!(
        "└───────────────────────┴───────────────────────┴───────────────────────┘",
        grid[36]
    );
}

#[test]
fn solved_cells_show_their_digit_and_givens_a_mark() {
    let board = board_with_a_given_and_a_solution();
    let grid = write_candidates(&board);
    let block = |a: &str, b: &str, c: &str| format!("│ {}  {}  {}│", a, b, c);
    assert!(grid[1].starts_with(&block("      ", "1 2 · ", "1 2 · ")));
    assert!(grid[2].starts_with(&block("  5   ", "4 · 6 ", "4 · 6 ")));
    assert!(grid[3].starts_with(&block("  ·   ", "7 8 9 ", "7 8 9 ")));
    assert!(grid[5].starts_with(&block("1 2 · ", "      ", "1 2 · ")));
    assert!(grid[6].starts_with(&block("4 · 6 ", "  3   ", "4 · 6 ")));
    assert!(grid[7].starts_with(&block("7 8 9 ", "      ", "7 8 9 ")));
}

#[test]
fn candidates_labels_mark_the_middle_line_of_each_row() {
    let lines = add_all_candidates_labels(write_candidates(&Board::new()));
    assert_eq!(39, lines.len());
    assert_eq!(
        "      1       2       3       4       5       6       7       8       9      ",
        lines[0]
    );
    assert!(lines[1].starts_with("  ┍───"));
    assert!(lines[2].starts_with("  │ 1 2 3"));
    assert!(lines[3].starts_with("A │ 4 5 6"));
    assert!(lines[3].ends_with("4 5 6 │ A"));
    assert!(lines[4].starts_with("  │ 7 8 9"));
    assert!(lines[5].starts_with("  │      "));
    assert!(lines[35].starts_with("J │ 4 5 6"));
    assert!(lines[37].starts_with("  └───"));
    assert_eq!(lines[0], lines[38]);
}

#[test]
fn candidate_grid_marks_cells_that_may_still_hold_it() {
    let board = board_with_a_given_and_a_solution();
    let grid = write_candidate(&board, Known::new(5), '*');
    assert_eq!(13, grid.len());
    assert_eq!("│ 5     │       │       │", grid[1]);
    assert_eq!("│       │ * * * │ * * * │", grid[2]);
    assert_eq!("│   * * │ * * * │ * * * │", grid[5]);
}
