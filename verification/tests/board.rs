use sudoku_rust::board::Board;
use sudoku_rust::cell_set::cell_from_label;
use sudoku_rust::known_set::UNKNOWN;

#[test]
fn new_returns_an_empty_board() {
    let board = Board::new();

    assert!(!board.is_solved());
    assert_eq!(board.known_count(), 0);
    for c in 0..81 {
        assert!(!board.is_known(c));
        assert_eq!(board.value(c), UNKNOWN);
        for k in 1..=9 {
            assert!(board.is_candidate(c, k));
        }
    }
}

#[test]
fn solve_cell() {
    let mut board = Board::new();
    let cell = cell_from_label("D3");

    board.set_known(cell, 5);
    assert!(!board.is_solved());
    assert!(board.is_known(cell));
    assert_eq!(board.value(cell), 5);
    assert!(!board.is_candidate(cell, 5));
}

#[test]
fn solving_a_cell_clears_the_known_from_its_peers() {
    let mut board = Board::new();
    let cell = cell_from_label("D3");

    board.set_given(cell, 5);
    assert!(board.is_given(cell));
    assert_eq!(board.given_count(), 1);
    assert!(!board.is_candidate(cell_from_label("D9"), 5));
    assert!(!board.is_candidate(cell_from_label("J3"), 5));
    assert!(!board.is_candidate(cell_from_label("E1"), 5));
    assert!(board.is_candidate(cell_from_label("E4"), 5));
    assert!(board.is_candidate(cell_from_label("D9"), 4));
}
