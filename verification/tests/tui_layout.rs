use sudoku_rust::commands::tui::{command_spec, InputState};
use sudoku_rust::commands::tui_layout::{
    centered_rect_exact, choose_column_spacing, inner_rect, input_overlay_inner_width,
    input_overlay_lines, input_overlay_rect, overlay_dimensions, overlay_inset, overlay_rect_with_inset, row_spacing,
    split_main_areas,
    Area, Tone,
};

fn area(x: u16, y: u16, width: u16, height: u16) -> Area {
    Area { x, y, width, height }
}

#[test]
fn inner_area_is_inside_the_border() {
    assert_eq!(area(3, 4, 8, 2), inner_rect(area(2, 3, 10, 4)));
    assert_eq!(area(2, 3, 1, 4), inner_rect(area(2, 3, 1, 4)));
}

#[test]
fn areas_are_centred_and_cut_to_fit() {
    assert_eq!(area(13, 7, 4, 2), centered_rect_exact(4, 2, area(10, 5, 10, 6)));
    assert_eq!(area(10, 5, 10, 6), centered_rect_exact(40, 20, area(10, 5, 10, 6)));
}

#[test]
fn overlays_keep_a_margin() {
    assert_eq!(1, overlay_inset(area(0, 0, 80, 24)));
    assert_eq!(2, overlay_inset(area(0, 0, 120, 24)));
    assert_eq!(2, overlay_inset(area(0, 0, 80, 40)));
    assert_eq!(area(30, 9, 20, 6), overlay_rect_with_inset(area(0, 0, 80, 24), 20, 6));
    assert_eq!(area(1, 1, 78, 22), overlay_rect_with_inset(area(0, 0, 80, 24), 200, 60));
    assert_eq!(area(1, 1, 4, 4), overlay_rect_with_inset(area(0, 0, 3, 3), 10, 10));
}

#[test]
fn input_box_width_is_rounded_to_tens() {
    assert_eq!(30, input_overlay_inner_width(0));
    assert_eq!(30, input_overlay_inner_width(26));
    assert_eq!(40, input_overlay_inner_width(27));
    assert_eq!(40, input_overlay_inner_width(36));
    assert_eq!(50, input_overlay_inner_width(37));
}

#[test]
fn input_box_is_centred_on_the_screen() {
    assert_eq!(area(24, 8, 32, 8), input_overlay_rect(30, 6, area(0, 0, 80, 24)));
    assert_eq!(area(0, 1, 30, 3), input_overlay_rect(50, 6, area(0, 0, 30, 5)));
}

#[test]
fn column_spacing_needs_room() {
    assert_eq!(2, choose_column_spacing(30, 26));
    assert_eq!(1, choose_column_spacing(29, 26));
    assert_eq!(1, row_spacing(40, 10));
}

#[test]
fn input_box_lines_are_centred() {
    let input = InputState {
        spec: command_spec('G').unwrap(),
        buffer: "A1".to_string(),
        error: None,
    };
    let (lines, width, cursor) = input_overlay_lines(&input, "A1", " digit", 8);
    assert_eq!(30, width);
    assert_eq!(6, lines.len());
    assert_eq!(2, lines[0].spans.len());
    assert_eq!(" ".repeat(15), lines[0].spans[0].text);
    assert_eq!("", lines[0].spans[1].text);
    let typed = &lines[2].spans;
    assert_eq!(3, typed.len());
    assert_eq!(" ".repeat(11), typed[0].text);
    assert_eq!("A1", typed[1].text);
    assert_eq!(" digit", typed[2].text);
    assert_eq!(Tone::Hint, typed[2].tone);
    assert_eq!((13, 2), cursor);
}

#[test]
fn input_box_shows_the_error_and_explanation() {
    let input = InputState {
        spec: command_spec('N').unwrap(),
        buffer: String::new(),
        error: Some("Invalid input".to_string()),
    };
    let (lines, width, cursor) = input_overlay_lines(&input, "", "givens", 6);
    assert_eq!(50, width);
    assert_eq!(10, lines.len());
    assert_eq!("81 digits", lines[1].spans[1].text);
    assert_eq!("Invalid input", lines[8].spans[1].text);
    assert_eq!(Tone::Error, lines[8].spans[1].tone);
    assert_eq!((22, 6), cursor);
}

#[test]
fn panes_share_the_width_by_their_grids() {
    assert_eq!(
        (area(2, 1, 101, 30), area(103, 1, 99, 30)),
        split_main_areas(79, 25, area(2, 1, 200, 30))
    );
    assert_eq!(
        (area(0, 0, 50, 30), area(50, 0, 50, 30)),
        split_main_areas(79, 25, area(0, 0, 100, 30))
    );
    assert_eq!(
        (area(0, 0, 0, 30), area(0, 0, 0, 30)),
        split_main_areas(79, 25, area(0, 0, 0, 30))
    );
    assert_eq!(
        (area(0, 0, 1, 5), area(1, 0, 0, 5)),
        split_main_areas(0, 0, area(0, 0, 1, 5))
    );
}

#[test]
fn overlay_dimensions_fit_lines_and_border() {
    let lines = vec!["abc".to_string(), "hello".to_string()];
    assert_eq!(overlay_dimensions(&lines, area(0, 0, 80, 24)), (7, 4));
}

#[test]
fn overlay_dimensions_are_cut_to_screen() {
    let lines = vec!["a".repeat(100); 30];
    assert_eq!(overlay_dimensions(&lines, area(0, 0, 80, 24)), (78, 22));
    assert_eq!(overlay_dimensions(&lines, area(0, 0, 1, 2)), (0, 0));
}

#[test]
fn overlay_dimensions_count_bytes_of_wide_characters() {
    let lines = vec!["·∅".to_string()];
    assert_eq!(overlay_dimensions(&lines, area(0, 0, 80, 24)), (7, 3));
}

#[test]
fn overlay_dimensions_of_no_lines() {
    let lines: Vec<String> = Vec::new();
    assert_eq!(overlay_dimensions(&lines, area(0, 0, 80, 24)), (2, 2));
}
