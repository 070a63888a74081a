use sudoku_rust::commands::tui_text::{gray_line, gray_lines, strip_ansi};

fn force_colour() {
    colored::control::set_override(true);
}

#[test]
fn gray_line_colours_text_and_keeps_trailing_spaces_plain() {
    force_colour();
    assert_eq!(gray_line("ab  "), "\u{1b}[90mab\u{1b}[0m  ");
}

#[test]
fn gray_line_colours_whole_line_without_trailing_spaces() {
    force_colour();
    assert_eq!(gray_line("ab"), "\u{1b}[90mab\u{1b}[0m");
}

#[test]
fn gray_line_leaves_blank_line_alone() {
    force_colour();
    assert_eq!(gray_line("   "), "   ");
}

#[test]
fn gray_line_restores_colour_after_inner_reset() {
    force_colour();
    assert_eq!(
        gray_line("a\u{1b}[0mb"),
        "\u{1b}[90ma\u{1b}[0m\u{1b}[90mb\u{1b}[0m"
    );
}

#[test]
fn gray_lines_maps_each_line() {
    force_colour();
    let out = gray_lines(vec!["x ".to_string(), String::new()]);
    assert_eq!(
        out,
        vec![
            "\u{1b}[90mx\u{1b}[0m ".to_string(),
            "\u{1b}[90m\u{1b}[0m".to_string()
        ]
    );
}

#[test]
fn gray_line_keeps_text_once_codes_are_stripped() {
    force_colour();
    for line in ["ab  ", "│ 1 2 │", "   ", "", "x"] {
        assert_eq!(line, strip_ansi(&gray_line(line)));
    }
}
