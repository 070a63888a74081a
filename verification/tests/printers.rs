use sudoku_rust::layout::board::Board;
use sudoku_rust::layout::cells::cell::Cell;
use sudoku_rust::layout::knowns::known::Known;
use sudoku_rust::printers::{write_candidates, write_values};

fn cell(label: &str) -> Cell {
    Cell::try_from(label).unwrap()
}

fn board_with_a_given_and_a_solution() -> Board {
    let mut board = Board::new();
    board.set_given(cell("A1"), Known::new(5));
    board.set_known(cell("B2"), Known::new(3));
    board
}

#[test]
fn values_show_digits_and_missing_marks() {
    let lines = write_values(&board_with_a_given_and_a_solution());
    assert_eq!(10, lines.len());
    assert_eq!("  ¹²³⁴⁵⁶⁷⁸⁹", lines[0]);
    assert_eq!("A 5········", lines[1]);
    assert_eq!("B ·3·······", lines[2]);
    assert_eq!("J ·········", lines[9]);
}

#[test]
fn candidates_of_an_empty_board() {
    let lines = write_candidates(&Board::new());
    assert_eq!(37, lines.len());
    assert_eq!("   ¹   ²   ³     ⁴   ⁵   ⁶     ⁷   ⁸   ⁹", lines[0]);
    assert_eq!("  123 123 123 │ 123 123 123 │ 123 123 123", lines[1]);
    assert_eq!("A 456 456 456 │ 456 456 456 │ 456 456 456 A", lines[2]);
    assert_eq!("  789 789 789 │ 789 789 789 │ 789 789 789", lines[3]);
    assert_eq!("              │             │", lines[4]);
    assert_eq!("  ────────────┼─────────────┼────────────", lines[12]);
    assert_eq!("J 456 456 456 │ 456 456 456 │ 456 456 456 J", lines[34]);
    assert_eq!("   ₁   ₂   ₃     ₄   ₅   ₆     ₇   ₈   ₉", lines[36]);
}

#[test]
fn candidates_show_solved_digits_and_erased_candidates() {
    let lines = write_candidates(&board_with_a_given_and_a_solution());
    assert_eq!("      12· 12· │ 123 123 123 │ 123 123 123", lines[1]);
    assert_eq!("A  5  4·6 4·6 │ 4·6 4·6 4·6 │ 4·6 4·6 4·6 A", lines[2]);
    assert_eq!("      789 789 │ 789 789 789 │ 789 789 789", lines[3]);
    assert_eq!("B 4·6  3  4·6 │ 456 456 456 │ 456 456 456 B", lines[6]);
}
