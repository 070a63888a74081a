use sudoku_rust::commands::play_core::{parse_cells, parse_command_line, PlayCommand, PlayError};
use sudoku_rust::layout::cells::cell::{Cell, CellError};

#[test]
fn cell_label_length_is_counted_in_bytes() {
    let err = Cell::try_from("Aé").unwrap_err();
    assert_eq!(CellError::WrongLength("Aé".to_string()), err);
    assert_eq!("wrong length 3 for cell \"Aé\"", err.to_string());
}

#[test]
fn cell_label_of_two_ascii_characters_is_read() {
    assert_eq!(Cell::new(10), Cell::try_from(" B2 ").unwrap());
    assert_eq!(
        CellError::InvalidRow { label: "K2".to_string(), row: 'K' },
        Cell::try_from("K2").unwrap_err()
    );
}

#[test]
fn cells_token_with_a_wide_character_is_a_wrong_length() {
    let err = parse_cells("A1é").unwrap_err();
    assert_eq!(CellError::WrongLength("é".to_string()), err);
    assert_eq!("wrong length 2 for cell \"é\"", err.to_string());
}

#[test]
fn find_with_a_non_ascii_token_is_an_unknown_strategy() {
    match parse_command_line("f aé") {
        Err(PlayError::InvalidArguments(m)) => assert_eq!("Unknown strategy: AÉ", m),
        other => panic!("unexpected {:?}", other),
    }
    assert_eq!(
        Ok(PlayCommand::Find(Some(sudoku_rust::commands::play_core::FindFilter::Cell(Cell::new(10))))),
        parse_command_line("f b2")
    );
}
