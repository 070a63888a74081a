use sudoku_rust::commands::play_core::{
    parse_cells, parse_command_line, parse_uppercase_command, play_help_text, FindFilter,
    NewPuzzleInput, Overlay, PlayCommand, PlayError, PlayOutput, PrintTarget,
};
use sudoku_rust::io::numbers::parse_usize;
use sudoku_rust::layout::cells::cell::Cell;
use sudoku_rust::layout::cells::cell_set::CellSet;
use sudoku_rust::layout::values::digit::Digit;
use sudoku_rust::layout::values::digit_set::DigitSet;
use sudoku_rust::puzzle::action::Strategy;
use sudoku_rust::text::split_words;

fn cell(label: &str) -> Cell {
    Cell::try_from(label).unwrap()
}

fn cells(labels: &[&str]) -> CellSet {
    let mut set = CellSet::empty();
    for label in labels {
        set.add(cell(label));
    }
    set
}

fn digit(value: u8) -> Digit {
    Digit::from_ordinal(value)
}

fn invalid(message: &str) -> Result<PlayCommand, PlayError> {
    Err(PlayError::InvalidArguments(message.to_string()))
}

#[test]
fn commands_are_case_insensitive() {
    assert_eq!(Ok(PlayCommand::Quit), parse_command_line("q"));
    assert_eq!(Ok(PlayCommand::Quit), parse_command_line("  Q  "));
    assert_eq!(
        Ok(PlayCommand::Solve { cells: cells(&["A2"]), digit: digit(4) }),
        parse_command_line("s a2 4")
    );
    assert_eq!(
        Ok(PlayCommand::Erase { cells: cells(&["D8"]), digits: DigitSet::of(digit(6)) }),
        parse_command_line("E D8 6")
    );
}

#[test]
fn simple_commands_take_no_arguments() {
    let expected = [
        ("n", PlayCommand::NewPuzzle { input: NewPuzzleInput::Puzzle, puzzle: None }),
        ("c", PlayCommand::CreatePuzzle),
        ("w", PlayCommand::Wiki),
        ("m", PlayCommand::Grid),
        ("v", PlayCommand::Verify),
        ("b", PlayCommand::Bingo),
        ("r", PlayCommand::Reset),
        ("z", PlayCommand::Undo),
        ("y", PlayCommand::Redo),
        ("?", PlayCommand::Help),
    ];
    for (line, command) in expected {
        assert_eq!(Ok(command), parse_command_line(line));
    }
}

#[test]
fn empty_line_is_missing_arguments() {
    assert_eq!(Err(PlayError::MissingArguments("")), parse_command_line(""));
    assert_eq!(Err(PlayError::MissingArguments("")), parse_command_line(" \t "));
    assert_eq!(Err(PlayError::MissingArguments("")), parse_uppercase_command("   "));
}

#[test]
fn unknown_command_is_reported_in_upper_case() {
    let result = parse_command_line("k 1");
    assert_eq!(Err(PlayError::UnknownCommand("K".to_string())), result);
    assert_eq!("Unknown command: K", result.unwrap_err().to_string());
    assert_eq!(
        Err(PlayError::UnknownCommand("QQ".to_string())),
        parse_command_line("qq")
    );
}

#[test]
fn set_given_parses_cells_and_digit() {
    assert_eq!(
        Ok(PlayCommand::SetGiven { cells: cells(&["A1", "B2"]), digit: digit(5) }),
        parse_command_line("g a1b2 5")
    );
    assert_eq!(
        Err(PlayError::MissingArguments("G <cells> <digit>")),
        parse_command_line("g a1")
    );
    assert_eq!(
        Err(PlayError::MissingArguments("S <cells> <digit>")),
        parse_command_line("s a1 2 3")
    );
    assert_eq!(
        invalid("Bad input: invalid row 'I' for cell \"I1\""),
        parse_command_line("g i1 5")
    );
    assert_eq!(
        invalid("Bad input: wrong length 1 for cell \"B\""),
        parse_command_line("g a1b 5")
    );
    assert_eq!(invalid("Bad input: invalid digit '0'"), parse_command_line("s a1 0"));
}

#[test]
fn erase_parses_cells_and_digits() {
    let mut digits = DigitSet::of(digit(1));
    digits.add(digit(3));
    assert_eq!(
        Ok(PlayCommand::Erase { cells: cells(&["J9"]), digits }),
        parse_command_line("e j9 13")
    );
    assert_eq!(
        Err(PlayError::MissingArguments("E <cells> <digits>")),
        parse_command_line("e j9")
    );
    assert_eq!(
        invalid("Bad input: invalid column '0' for cell \"A0\""),
        parse_command_line("e a0 1")
    );
    assert_eq!(
        invalid("Bad input: invalid digit 'X' (2nd)"),
        parse_command_line("e a1 1x")
    );
}

#[test]
fn print_takes_an_optional_target() {
    assert_eq!(Ok(PlayCommand::Print(None)), parse_command_line("p"));
    assert_eq!(
        Ok(PlayCommand::Print(Some(PrintTarget::Givens))),
        parse_command_line("p g")
    );
    assert_eq!(
        Ok(PlayCommand::Print(Some(PrintTarget::Solved))),
        parse_command_line("P solved")
    );
    assert_eq!(
        Ok(PlayCommand::Print(Some(PrintTarget::Candidate(digit(5))))),
        parse_command_line("p 5")
    );
    assert_eq!(invalid("Invalid candidate \"X\""), parse_command_line("p x"));
}

#[test]
fn export_takes_an_optional_character() {
    assert_eq!(Ok(PlayCommand::Export(None)), parse_command_line("x"));
    assert_eq!(Ok(PlayCommand::Export(Some('.'))), parse_command_line("x ."));
    assert_eq!(Ok(PlayCommand::Export(Some('A'))), parse_command_line("x abc"));
}

#[test]
fn find_tries_digit_then_cell_then_strategy() {
    assert_eq!(Ok(PlayCommand::Find(None)), parse_command_line("f"));
    assert_eq!(Ok(PlayCommand::Find(None)), parse_command_line("f 1 2"));
    assert_eq!(
        Ok(PlayCommand::Find(Some(FindFilter::Digit(digit(5))))),
        parse_command_line("f 5")
    );
    assert_eq!(
        Ok(PlayCommand::Find(Some(FindFilter::Cell(cell("C3"))))),
        parse_command_line("f c3")
    );
    assert_eq!(
        Ok(PlayCommand::Find(Some(FindFilter::Strategy(Strategy::XWing)))),
        parse_command_line("f xwing")
    );
    assert_eq!(invalid("Unknown strategy: BOGUS"), parse_command_line("f bogus"));
}

#[test]
fn highlight_and_apply_read_numbers() {
    assert_eq!(
        Err(PlayError::MissingArguments("H <num>")),
        parse_command_line("h")
    );
    assert_eq!(Ok(PlayCommand::Highlight { index: 12 }), parse_command_line("h 12"));
    assert_eq!(Ok(PlayCommand::Highlight { index: 0 }), parse_command_line("h x"));
    assert_eq!(Ok(PlayCommand::Apply(None)), parse_command_line("a"));
    assert_eq!(Ok(PlayCommand::Apply(Some(3))), parse_command_line("a +3"));
    assert_eq!(Ok(PlayCommand::Apply(Some(0))), parse_command_line("a -3"));
}

#[test]
fn options_keep_their_text() {
    assert_eq!(Ok(PlayCommand::ToggleOptions(None)), parse_command_line("o"));
    assert_eq!(
        Ok(PlayCommand::ToggleOptions(Some("HN".to_string()))),
        parse_command_line("o hn")
    );
}

#[test]
fn cells_are_labels_written_together() {
    assert_eq!(Ok(cells(&["A1", "J9", "E5"])), parse_cells("a1J9e5"));
    assert_eq!(Ok(CellSet::empty()), parse_cells(""));
    assert!(parse_cells("a1 ").is_err());
}

#[test]
fn numbers_read_like_usize_parse() {
    assert_eq!(Some(12), parse_usize("12"));
    assert_eq!(Some(7), parse_usize("+7"));
    assert_eq!(Some(0), parse_usize("000"));
    assert_eq!(None, parse_usize(""));
    assert_eq!(None, parse_usize("+"));
    assert_eq!(None, parse_usize("1a"));
    assert_eq!(None, parse_usize("-1"));
    assert_eq!(None, parse_usize("99999999999999999999999999"));
    assert_eq!(Some(usize::MAX), parse_usize(&usize::MAX.to_string()));
}

#[test]
fn words_split_on_white_space() {
    assert_eq!(vec!["S", "A2", "4"], split_words("  S A2\t4 "));
    assert!(split_words(" \n ").is_empty());
}

#[test]
fn help_text_lists_commands() {
    let help = play_help_text();
    assert!(help.starts_with("==> Help\n"));
    assert!(help.contains("  Q                             - quit\n"));
    assert!(help.ends_with("\"s a2 4\" and \"E D8 6\" are fine\n"));
}

#[test]
fn output_builders_set_their_fields() {
    let output = PlayOutput::default()
        .message("first".to_string())
        .with_overlay(Overlay::Help("help".to_string()))
        .with_show_board();
    assert_eq!(vec!["first".to_string()], output.messages);
    assert_eq!(Some(Overlay::Help("help".to_string())), output.overlay);
    assert!(output.show_board);
    assert!(!output.board_changed);
    assert!(!output.quit);
}
