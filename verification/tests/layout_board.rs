use sudoku_rust::layout::board::Board;
use sudoku_rust::layout::cells::cell::Cell;
use sudoku_rust::layout::cells::cell_set::CellSet;
use sudoku_rust::layout::knowns::known::Known;
use sudoku_rust::layout::knowns::set::KnownSet;

fn cell(label: &str) -> Cell {
    Cell::try_from(label).unwrap()
}

#[test]
fn new_board_is_empty_and_valid() {
    let board = Board::new();

    assert!(board.is_valid());
    assert!(!board.is_solved());
    assert_eq!(0, board.known_count());
    assert_eq!(0, board.given_count());
    for c in 0..81 {
        assert_eq!(0, board.value(Cell::new(c)));
        assert_eq!(KnownSet::full(), board.candidates(Cell::new(c)));
    }
}

#[test]
fn set_known_removes_the_known_from_peers_only() {
    let mut board = Board::new();
    board.set_known(cell("E5"), Known::new(7));

    assert!(board.is_known(cell("E5")));
    assert!(!board.is_given(cell("E5")));
    assert_eq!(7, board.value(cell("E5")));
    assert!(board.candidates(cell("E5")).is_empty());
    assert!(!board.is_candidate(cell("E1"), Known::new(7)));
    assert!(!board.is_candidate(cell("A5"), Known::new(7)));
    assert!(!board.is_candidate(cell("F6"), Known::new(7)));
    assert!(board.is_candidate(cell("A1"), Known::new(7)));
    assert!(board.is_candidate(cell("E1"), Known::new(6)));

    // Setting the same value again changes nothing.
    let before = board;
    board.set_known(cell("E5"), Known::new(7));
    assert_eq!(before.known_count(), board.known_count());
}

#[test]
fn removing_the_last_candidate_invalidates_the_board() {
    let mut board = Board::new();
    let c = cell("A1");
    for k in 1..=8 {
        board.remove_candidate(c, Known::new(k));
        assert!(board.is_valid());
    }
    board.remove_candidate(c, Known::new(9));
    assert!(!board.is_valid());
}

#[test]
fn stranding_a_peer_invalidates_the_board() {
    let mut board = Board::new();
    for k in 1..=8 {
        board.remove_candidate(cell("A2"), Known::new(k));
    }
    assert!(board.is_valid());
    board.set_given(cell("A1"), Known::new(9));
    assert!(!board.is_valid());
    assert!(board.is_given(cell("A1")));
}

#[test]
fn all_candidates_joins_the_candidates_of_the_cells() {
    let mut board = Board::new();
    for k in 1..=9 {
        if k != 3 {
            board.remove_candidate(cell("A1"), Known::new(k));
        }
        if k != 4 && k != 5 {
            board.remove_candidate(cell("J9"), Known::new(k));
        }
    }
    let all = board.all_candidates(CellSet::from("A1 J9"));
    assert_eq!(KnownSet::from("3 4 5"), all);
    assert_eq!(KnownSet::empty(), board.all_candidates(CellSet::empty()));
}

#[test]
fn empty_board_text_is_nine_rows_of_dots() {
    let text = Board::new().to_string();
    assert_eq!(
        "......... ......... ......... ......... ......... ......... ......... ......... .........",
        text
    );
}

#[test]
fn board_text_shows_solved_digits_by_row() {
    let mut board = Board::new();
    board.set_given(Cell::new(0), Known::new(5));
    board.set_known(Cell::new(10), Known::new(3));
    board.set_known(Cell::new(80), Known::new(9));
    assert_eq!(
        "5........ .3....... ......... ......... ......... ......... ......... ......... ........9",
        board.to_string()
    );
}
