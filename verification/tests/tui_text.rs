use sudoku_rust::commands::tui_text::{
    ansi_line_to_line, Color, Style,
    center_lines, center_lines_visible, insert_row_gaps, pad_ansi_line, pad_lines, strip_ansi,
    trim_ansi_trailing_spaces, visible_len,
};

fn strings(lines: &[&str]) -> Vec<String> {
    lines.iter().map(|line| line.to_string()).collect()
}

#[test]
fn codes_are_stripped() {
    assert_eq!("5 x", strip_ansi("\u{1b}[92m5\u{1b}[0m x"));
    assert_eq!("ab", strip_ansi("a\u{1b}b"));
    assert_eq!("a", strip_ansi("a\u{1b}[12"));
    assert_eq!(3, visible_len("\u{1b}[1;90mabc\u{1b}[0m"));
}

#[test]
fn lines_are_padded_to_visible_width() {
    assert_eq!("\u{1b}[1mab\u{1b}[0m  ", pad_ansi_line("\u{1b}[1mab\u{1b}[0m", 4));
    assert_eq!("abc", pad_ansi_line("abc", 2));
}

#[test]
fn trailing_spaces_after_the_last_code_are_trimmed() {
    assert_eq!("ab", trim_ansi_trailing_spaces("ab  "));
    assert_eq!(
        "\u{1b}[1mab \u{1b}[0m",
        trim_ansi_trailing_spaces("\u{1b}[1mab \u{1b}[0m  ")
    );
    assert_eq!("", trim_ansi_trailing_spaces("   "));
}

#[test]
fn padding_surrounds_lines() {
    assert_eq!(strings(&["", " ab ", ""]), pad_lines(&strings(&["ab"]), 1, 1));
    assert_eq!(strings(&["ab"]), pad_lines(&strings(&["ab"]), 0, 0));
}

#[test]
fn gaps_follow_the_first_two_blank_lines() {
    let lines = strings(&["a", " ", "b", "", "c", ""]);
    assert_eq!(
        strings(&["a", " ", "", "b", "", "", "c", ""]),
        insert_row_gaps(lines.clone(), 1)
    );
    assert_eq!(lines.clone(), insert_row_gaps(lines, 0));
}

#[test]
fn lines_are_centred_in_the_area() {
    let lines = strings(&["ab  ", "abcd"]);
    assert_eq!(
        strings(&["", "  ab    ", "  abcd  ", ""]),
        center_lines(&lines, 8, 4)
    );
    assert_eq!(strings(&["ab", "abcd"]), center_lines(&lines, 3, 1));
    assert_eq!(lines.clone(), center_lines(&lines, 0, 4));
}

#[test]
fn coloured_lines_are_centred_by_what_shows() {
    let lines = strings(&["\u{1b}[1mab\u{1b}[0m  ", "abcd"]);
    assert_eq!(
        strings(&["", "  \u{1b}[1mab\u{1b}[0m    ", "  abcd  ", ""]),
        center_lines_visible(&lines, 8, 4)
    );
    assert_eq!(
        strings(&["\u{1b}[1mab\u{1b}[0m", "abcd"]),
        center_lines_visible(&lines, 4, 2)
    );
}

fn pieces(line: &str) -> Vec<(String, Style)> {
    ansi_line_to_line(line).into_iter().map(|span| (span.text, span.style)).collect()
}

const PLAIN: Style = Style { fg: None, bold: false, blink: false };

#[test]
fn codes_become_styles() {
    assert_eq!(
        vec![
            ("ab".to_string(), Style { fg: Some(Color::LightGreen), ..PLAIN }),
            ("cd".to_string(), PLAIN),
        ],
        pieces("\u{1b}[92mab\u{1b}[0mcd")
    );
    assert_eq!(
        vec![
            ("x".to_string(), PLAIN),
            ("y".to_string(), Style { fg: Some(Color::LightYellow), bold: true, blink: true }),
        ],
        pieces("x\u{1b}[1;5;93my")
    );
    assert_eq!(Vec::<(String, Style)>::new(), pieces("\u{1b}[;;1m"));
    assert_eq!(vec![("a\u{1b}b".to_string(), PLAIN)], pieces("a\u{1b}b"));
    assert_eq!(vec![("a".to_string(), PLAIN)], pieces("a\u{1b}[1"));
    assert_eq!(vec![("z".to_string(), PLAIN)], pieces("\u{1b}[77mz"));
    assert_eq!(
        vec![("q".to_string(), Style { fg: Some(Color::DarkGray), ..PLAIN })],
        pieces("\u{1b}[90mq")
    );
}

#[test]
fn stripping_leaves_no_escape_and_is_idempotent() {
    for s in ["\u{1b}[90mab\u{1b}[0m c", "plain", "\u{1b}x\u{1b}[1;2", "a\u{1b}[31mb"] {
        let once = strip_ansi(s);
        assert!(!once.contains('\u{1b}'));
        assert_eq!(once, strip_ansi(&once));
    }
    assert_eq!("ab c", strip_ansi("\u{1b}[90mab\u{1b}[0m c"));
}
