use sudoku_rust::commands::play_core::{
    Overlay, PlayCommand, PlayOutput, PrintTarget, PLAY_HELP,
};
use sudoku_rust::commands::tui::{
    clean_line, command_spec, input_error, is_cell_char, normalize_char, remaining_prompt,
    token_valid, validate_buffer, ArgKind, KeyCode, KeyInput, OverlayState, TuiAction, TuiState,
};
use sudoku_rust::layout::cells::cell::Cell;
use sudoku_rust::layout::cells::cell_set::CellSet;
use sudoku_rust::layout::values::digit::Digit;

fn key(c: char) -> KeyInput {
    KeyInput { code: KeyCode::Char(c), control: false }
}

fn press(code: KeyCode) -> KeyInput {
    KeyInput { code, control: false }
}

fn typed(state: &TuiState) -> String {
    match &state.overlay {
        OverlayState::Input(input) => input.buffer.clone(),
        _ => panic!("no input box"),
    }
}

fn error(state: &TuiState) -> Option<String> {
    match &state.overlay {
        OverlayState::Input(input) => input.error.clone(),
        _ => panic!("no input box"),
    }
}

#[test]
fn command_specs_describe_arguments() {
    let spec = command_spec('G').unwrap();
    assert_eq!('G', spec.key);
    assert_eq!("Set Given", spec.name);
    assert_eq!(vec![ArgKind::Cells, ArgKind::Digit], spec.args);
    assert_eq!(vec!["cells", "digit"], spec.labels);
    assert!(!spec.allow_empty);
    assert!(command_spec('A').unwrap().allow_empty);
    assert_eq!("Find Deductions", command_spec('F').unwrap().name);
    assert!(command_spec('Q').is_none());
    assert!(command_spec('g').is_none());
}

#[test]
fn tokens_are_checked_by_kind() {
    assert!(token_valid(ArgKind::Cells, "A1B"));
    assert!(token_valid(ArgKind::Cells, "J9"));
    assert!(!token_valid(ArgKind::Cells, "I1"));
    assert!(!token_valid(ArgKind::Cells, "AA"));
    assert!(token_valid(ArgKind::Digit, "5"));
    assert!(!token_valid(ArgKind::Digit, "55"));
    assert!(!token_valid(ArgKind::Digit, "0"));
    assert!(token_valid(ArgKind::Digits, "159"));
    assert!(token_valid(ArgKind::Number, "012"));
    assert!(!token_valid(ArgKind::Number, "1a"));
    assert!(token_valid(ArgKind::OptionFlags, "NHI"));
    assert!(!token_valid(ArgKind::OptionFlags, "S"));
    assert!(token_valid(ArgKind::Char, "x"));
    assert!(!token_valid(ArgKind::Char, "é"));
    assert!(!token_valid(ArgKind::Char, "xy"));
    assert!(token_valid(ArgKind::Puzzle, "10.·"));
    assert!(token_valid(ArgKind::CellOrDigit, "C3"));
    assert!(!token_valid(ArgKind::CellOrDigit, "C33"));
    assert!(token_valid(ArgKind::Print, "G"));
    assert!(!token_valid(ArgKind::Print, "X"));
    assert!(is_cell_char('J'));
    assert!(!is_cell_char('I'));
}

#[test]
fn typed_characters_are_normalized() {
    assert_eq!(Some('A'), normalize_char('a'));
    assert_eq!(Some('.'), normalize_char('.'));
    assert_eq!(Some('é'), normalize_char('é'));
    assert_eq!(None, normalize_char('\t'));
    assert_eq!(None, normalize_char('\u{7f}'));
}

#[test]
fn buffers_are_checked_against_the_command() {
    let given = command_spec('G').unwrap();
    assert!(validate_buffer(&given, "A1 5"));
    assert!(validate_buffer(&given, "A1"));
    assert!(!validate_buffer(&given, "A1 5 6"));
    assert!(!validate_buffer(&given, "  "));
    let puzzle = command_spec('N').unwrap();
    assert!(validate_buffer(&puzzle, ""));
    assert!(validate_buffer(&puzzle, "12 .·"));
    assert!(!validate_buffer(&puzzle, "12a"));
}

#[test]
fn prompt_lists_the_arguments_left() {
    let given = command_spec('G').unwrap();
    assert_eq!("cells digit", remaining_prompt(&given, ""));
    assert_eq!(" digit", remaining_prompt(&given, "A1"));
    assert_eq!("digit", remaining_prompt(&given, "A1 "));
    assert_eq!("", remaining_prompt(&given, "A1 5"));
    assert_eq!("G, S, or digit", remaining_prompt(&command_spec('P').unwrap(), ""));
}

#[test]
fn input_errors_explain_what_is_wrong() {
    let given = command_spec('G').unwrap();
    assert_eq!(None, input_error(&given, ""));
    assert_eq!(None, input_error(&given, "A1"));
    assert_eq!(Some("Invalid input".to_string()), input_error(&given, "I1 5"));
    assert_eq!(None, input_error(&given, " A1 5 "));
    assert_eq!(
        Some("Bad input: wrong length 1 for cell \"A\"".to_string()),
        input_error(&given, "A 5")
    );
}

#[test]
fn leading_marker_is_cleaned() {
    assert_eq!("Hi", clean_line("==> Hi".to_string()));
    assert_eq!("==>Hi", clean_line("==>Hi".to_string()));
    assert_eq!("", clean_line("==> ".to_string()));
}

#[test]
fn typing_a_command_applies_it_on_enter() {
    let mut state = TuiState::new();
    let outcome = state.handle_key(key('g'));
    assert!(matches!(outcome.action, TuiAction::Nothing));
    for c in ['a', '1', ' ', '5'] {
        let outcome = state.handle_key(key(c));
        assert!(!outcome.beep);
    }
    assert_eq!("A1 5", typed(&state));
    let outcome = state.handle_key(press(KeyCode::Enter));
    let mut cells = CellSet::empty();
    cells.add(Cell::try_from("A1").unwrap());
    match outcome.action {
        TuiAction::Apply(command) => assert_eq!(
            PlayCommand::SetGiven { cells, digit: Digit::from_ordinal(5) },
            command
        ),
        _ => panic!("command not applied"),
    }
    assert!(matches!(state.overlay, OverlayState::Off));
}

#[test]
fn invalid_characters_beep_and_are_dropped() {
    let mut state = TuiState::new();
    state.handle_key(key('s'));
    let outcome = state.handle_key(key('x'));
    assert!(outcome.beep);
    assert_eq!("", typed(&state));
    assert_eq!(Some("Invalid input".to_string()), error(&state));
    state.handle_key(key('b'));
    state.handle_key(key('2'));
    assert_eq!("B2", typed(&state));
    assert_eq!(None, error(&state));
    state.handle_key(press(KeyCode::Backspace));
    assert_eq!("B", typed(&state));
    let outcome = state.handle_key(press(KeyCode::Esc));
    assert!(matches!(outcome.action, TuiAction::Nothing));
    assert!(matches!(state.overlay, OverlayState::Off));
}

#[test]
fn enter_with_missing_arguments_keeps_the_box() {
    let mut state = TuiState::new();
    state.handle_key(key('e'));
    state.handle_key(key('a'));
    state.handle_key(key('1'));
    let outcome = state.handle_key(press(KeyCode::Enter));
    assert!(!outcome.beep);
    assert!(matches!(outcome.action, TuiAction::Nothing));
    assert_eq!(Some("E <cells> <digits>".to_string()), error(&state));
}

#[test]
fn empty_highlight_highlights_all() {
    let mut state = TuiState::new();
    state.handle_key(key('h'));
    let outcome = state.handle_key(press(KeyCode::Enter));
    assert!(matches!(outcome.action, TuiAction::HighlightAll));
}

#[test]
fn first_print_target_applies_at_once() {
    let mut state = TuiState::new();
    state.handle_key(key('p'));
    let outcome = state.handle_key(key('g'));
    match outcome.action {
        TuiAction::Apply(command) => {
            assert_eq!(PlayCommand::Print(Some(PrintTarget::Givens)), command)
        }
        _ => panic!("print not applied"),
    }
}

#[test]
fn idle_keys_open_boxes_or_apply_commands() {
    let mut state = TuiState::new();
    assert!(matches!(state.handle_key(key('c')).action, TuiAction::CreatePuzzle));
    assert!(matches!(state.handle_key(key('w')).action, TuiAction::Wiki));
    assert!(matches!(state.handle_key(key('m')).action, TuiAction::Grid));
    match state.handle_key(key('q')).action {
        TuiAction::Apply(command) => assert_eq!(PlayCommand::Quit, command),
        _ => panic!("quit not applied"),
    }
    let control = KeyInput { code: KeyCode::Char('q'), control: true };
    assert!(matches!(state.handle_key(control).action, TuiAction::Nothing));
    state.handle_key(key('?'));
    match &state.overlay {
        OverlayState::Help(text) => assert_eq!(PLAY_HELP, text),
        _ => panic!("no help"),
    }
    let outcome = state.handle_key(key('z'));
    assert!(outcome.dismissed);
    match outcome.action {
        TuiAction::Apply(command) => assert_eq!(PlayCommand::Undo, command),
        _ => panic!("undo not applied"),
    }
}

#[test]
fn output_sets_status_and_overlay() {
    let mut state = TuiState::new();
    let output = PlayOutput::default()
        .message(String::new())
        .message("==> First\r\nSecond".to_string())
        .with_overlay(Overlay::Text {
            title: "Title",
            lines: vec!["==> one".to_string(), "two".to_string()],
        });
    state.apply_output(output);
    assert_eq!(Some("First".to_string()), state.status_message);
    match &state.overlay {
        OverlayState::Text { title, lines } => {
            assert_eq!("Title", title);
            assert_eq!(&vec!["one".to_string(), "two".to_string()], lines);
        }
        _ => panic!("no text overlay"),
    }
    state.apply_output(PlayOutput::default());
    assert_eq!(None, state.status_message);
    assert!(matches!(state.overlay, OverlayState::Off));
}
