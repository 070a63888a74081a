use sudoku_rust::commands::history::BoardHistory;
use sudoku_rust::layout::board::Board;
use sudoku_rust::layout::cells::cell::Cell;
use sudoku_rust::layout::knowns::known::Known;

fn board_with(cells: &[(u8, u8)]) -> Board {
    let mut board = Board::new();
    for (c, k) in cells {
        board.set_known(Cell::new(*c), Known::new(*k));
    }
    board
}

fn text(history: &BoardHistory) -> Option<String> {
    history.current().map(|b| b.to_string())
}

#[test]
fn empty_history_has_no_board_and_cannot_move() {
    let mut history = BoardHistory::new();
    assert!(history.current().is_none());
    assert!(history.undo().messages.is_empty());
    assert!(history.redo().messages.is_empty());
}

#[test]
fn undo_after_push_restores_previous_board_and_redo_returns() {
    let first = board_with(&[(0, 5)]);
    let second = board_with(&[(0, 5), (80, 9)]);
    let mut history = BoardHistory::new();
    history.push_board(first);
    history.push_board(second);
    assert_eq!(Some(second.to_string()), text(&history));

    let out = history.undo();
    assert_eq!(vec!["Undoing last move".to_string()], out.messages);
    assert!(out.show_board);
    assert_eq!(Some(first.to_string()), text(&history));
    assert!(history.undo().messages.is_empty());

    let out = history.redo();
    assert_eq!(vec!["Redoing last move".to_string()], out.messages);
    assert_eq!(Some(second.to_string()), text(&history));
}

#[test]
fn push_clears_redo_history() {
    let a = board_with(&[(0, 1)]);
    let b = board_with(&[(0, 1), (40, 2)]);
    let c = board_with(&[(0, 1), (41, 3)]);
    let mut history = BoardHistory::new();
    history.push_board(a);
    history.push_board(b);
    history.undo();
    history.push_board(c);
    assert_eq!(Some(c.to_string()), text(&history));
    assert!(history.redo().messages.is_empty());
    history.undo();
    assert_eq!(Some(a.to_string()), text(&history));
}
