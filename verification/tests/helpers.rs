use sudoku_rust::commands::bingo::max_solutions_in_range;
use sudoku_rust::commands::play_core::{pluralize, ProgressStage};
use sudoku_rust::commands::solve::{dash_zero, format_column};
use sudoku_rust::commands::tui_text::{progress_bar, progress_lines};

#[test]
fn counts_are_pluralized() {
    assert_eq!("1 step", pluralize(1, "step"));
    assert_eq!("2 steps", pluralize(2, "step"));
    assert_eq!("3 brushes", pluralize(3, "brush"));
    assert_eq!("0 wishes", pluralize(0, "wish"));
    assert_eq!("1 brush", pluralize(1, "brush"));
}

#[test]
fn progress_is_a_bar_of_marks() {
    assert_eq!("###--", progress_bar(3, 5));
    assert_eq!("#####", progress_bar(9, 5));
    assert_eq!("", progress_bar(0, 0));
    let lines = progress_lines(ProgressStage::Find, 2);
    assert_eq!("Finding clues", lines[0]);
    assert_eq!(format!("##{}", "-".repeat(79)), lines[1]);
    assert_eq!("Generating solution", progress_lines(ProgressStage::Generate, 0)[0]);
}

#[test]
fn zero_counts_show_as_a_dash() {
    assert_eq!("-", dash_zero(0));
    assert_eq!("12", dash_zero(12));
    assert_eq!("-7", dash_zero(-7));
    assert_eq!("-2147483648", dash_zero(i32::MIN));
}

#[test]
fn columns_are_right_aligned() {
    assert_eq!(" 5", format_column("5", 3));
    assert_eq!("123", format_column("123", 3));
    assert_eq!("", format_column("", 0));
    assert_eq!("  ab", format_column("ab", 5));
}

#[test]
fn maximum_solutions_are_read_with_commas() {
    assert_eq!(Ok(1000), max_solutions_in_range("1,000"));
    assert_eq!(Ok(1_000_000), max_solutions_in_range("1,000,000"));
    assert_eq!(Err("must be in range 1-1000000".to_string()), max_solutions_in_range("0"));
    assert_eq!(
        Err("must be in range 1-1000000".to_string()),
        max_solutions_in_range("2,000,000")
    );
    assert_eq!(Err("`abc` must be an integer".to_string()), max_solutions_in_range("abc"));
    assert_eq!(Err("`,` must be an integer".to_string()), max_solutions_in_range(","));
}
