use sudoku_rust::io::format::{
    format_for_console, format_for_fancy_console, format_for_url, format_for_wiki, format_grid,
    format_packed, Format, FormatPacked,
};
use sudoku_rust::io::parse::{check_clues_fit, Parse, ParsePacked};
use sudoku_rust::layout::board::Board;
use sudoku_rust::layout::cells::cell::Cell;
use sudoku_rust::layout::knowns::known::Known;

const PUZZLE: &str =
    "53..7....6..195....98....6.8...6...34..8.3..17...2...6.6....28....419..5....8..79";

#[test]
fn packed_formats_of_a_parsed_puzzle() {
    let board = Parse::packed().parse_simple(PUZZLE);

    assert_eq!(30, board.given_count());
    assert_eq!(
        "53..7.... 6..195... .98....6. 8...6...3 4..8.3..1 7...2...6 .6....28. ...419..5 ....8..79",
        format_for_console(&board)
    );
    assert_eq!(
        "530070000600195000098000060800060003400803001700020006060000280000419005000080079",
        format_for_url(&board)
    );
    assert_eq!(
        "53··7···· 6··195··· ·98····6· 8···6···3 4··8·3··1 7···2···6 ·6····28· ···419··5 ····8··79",
        format_for_fancy_console(&board)
    );
    assert_eq!(format_for_url(&board), format_packed(&board, '0', false));
    assert_eq!(format_for_console(&board), Format::console().format(&board));
    assert_eq!(
        "53xx7xxxx6xx195xxxx98xxxx6x8xxx6xxx34xx8x3xx17xxx2xxx6x6xxxx28xxxx419xx5xxxx8xx79",
        FormatPacked::new('.').unknown('x').format(&board)
    );
}

#[test]
fn wiki_format_marks_givens_and_candidates() {
    let board = Parse::packed().parse_simple("5");
    let wiki = format_for_wiki(&board);

    assert_eq!(162, wiki.len());
    // A1 is given 5: bit 5 plus one.
    assert_eq!("11", &wiki[0..2]);
    // B2 shares a block with A1 and lost candidate 5.
    assert_eq!("uu", &wiki[20..22]);
    // D4 sees nothing of A1 and keeps all nine candidates.
    assert_eq!("vu", &wiki[60..62]);
}

#[test]
fn grid_format_of_an_empty_board() {
    let grid = format_grid(&Board::new());
    let lines: Vec<&str> = grid.split('\n').collect();
    let border = "+-------------------------------".repeat(3) + "+";
    let line = "| 123456789 123456789 123456789 ".repeat(3) + "|";

    assert_eq!(13, lines.len());
    assert_eq!(border, lines[0]);
    assert_eq!(line, lines[1]);
    assert_eq!(border, lines[4]);
    assert_eq!(border, lines[12]);
}

#[test]
fn grid_format_pads_each_column_to_its_widest_cell() {
    let board = Parse::packed().parse_simple(PUZZLE);
    let grid = format_grid(&board);
    let lines: Vec<&str> = grid.split('\n').collect();

    assert_eq!(13, lines.len());
    assert!(lines[1].starts_with("| 5 "));
    assert!(lines[0].starts_with("+--"));
}

#[test]
fn parse_skips_conflicting_clues_or_stops_on_them() {
    let (board, failure) = Parse::packed().parse("55");
    assert!(failure.is_none());
    assert_eq!(1, board.known_count());
    assert_eq!(5, board.value(Cell::new(0)));
    assert_eq!(0, board.value(Cell::new(1)));

    let (board, failure) = ParsePacked::new_with_options(true).parse("5|_ 5");
    assert_eq!(Some((Cell::new(1), Known::new(5))), failure);
    assert_eq!(1, board.known_count());
}

#[test]
fn parse_ignores_separators_and_counts_other_marks_as_cells() {
    let board = Parse::packed().parse_simple(" 1 | x2");
    assert_eq!(1, board.value(Cell::new(0)));
    assert_eq!(0, board.value(Cell::new(1)));
    assert_eq!(2, board.value(Cell::new(2)));
    assert!(board.is_given(Cell::new(2)));
}

fn trim_grid_whitespace(input: &str) -> String {
    input
        .lines()
        .map(|line| line.trim())
        .filter(|line| !line.is_empty())
        .collect::<Vec<&str>>()
        .join("\n")
}

#[test]
fn test_format_for_console() {
    let board = Parse::packed_with_options(true).parse_simple(
        "
            .8.1.3.7.
            .9.5.6...
            ..14.8.2.
            578241639
            143659782
            926837451
            .379.52..
            ...3.4.97
            419782.6.
        ",
    );

    assert_eq!(
        ".8.1.3.7. .9.5.6... ..14.8.2. 578241639 143659782 926837451 .379.52.. ...3.4.97 419782.6.",
        format_for_console(&board)
    );
}

#[test]
fn test_format_packed() {
    let board = Parse::packed_with_options(true).parse_simple(
        "
            .8.1.3.7.
            .9.5.6...
            ..14.8.2.
            578241639
            143659782
            926837451
            .379.52..
            ...3.4.97
            419782.6.
        ",
    );

    assert_eq!(
        "-8-1-3-7--9-5-6-----14-8-2-578241639143659782926837451-379-52-----3-4-97419782-6-",
        FormatPacked::new('-').format(&board)
    );
}

#[test]
fn test_format_grid() {
    let board = Parse::packed_with_options(true).parse_simple(
        "
            ..2...376
            .1..3.5..
            .......9.
            9..85...1
            ...3.4...
            2...97..3
            .8.......
            ..3.4..6.
            147...2..
        ",
    );

    let want = trim_grid_whitespace(
        "
        +-------------------+---------------------+-----------------+
        | 458    59   2     | 1459   18    1589   | 3    7    6     |
        | 4678   1    4689  | 24679  3     2689   | 5    248  248   |
        | 345678 3567 4568  | 124567 12678 12568  | 148  9    248   |
        +-------------------+---------------------+-----------------+
        | 9      367  46    | 8      5     26     | 467  24   1     |
        | 5678   567  1568  | 3      126   4      | 6789 258  25789 |
        | 2      56   14568 | 16     9     7      | 468  458  3     |
        +-------------------+---------------------+-----------------+
        | 56     8    569   | 125679 1267  123569 | 1479 1345 4579  |
        | 5      259  3     | 12579  4     12589  | 1789 6    5789  |
        | 1      4    7     | 569    68    35689  | 2    358  589   |
        +-------------------+---------------------+-----------------+
    ",
    );

    assert_eq!(want, format_grid(&board));
}

#[test]
fn test_parse_grid() {
    let parser = Parse::grid().stop_on_error();
    let (board, failed) = parser.parse(
        "
            +---------------+-----------------+--------------+
            | 48  9   2     | 145   18   158  | 3   7   6    |
            | 478 1   468   | 24679 3    2689 | 5   248 248  |
            | 3   567 4568  | 24567 2678 2568 | 1   9   248  |
            +---------------+-----------------+--------------+
            | 9   3   46    | 8     5    26   | 7   24  1    |
            | 78  567 1568  | 3     126  4    | 689 258 2589 |
            | 2   56  14568 | 16    9    7    | 68  458 3    |
            +---------------+-----------------+--------------+
            | 6   8   9     | 257   27   3    | 4   1   57   |
            | 5   2   3     | 179   4    189  | 89  6   789  |
            | 1   4   7     | 569   68   5689 | 2   3   589  |
            +---------------+-----------------+--------------+
        ",
    );
    assert!(failed.is_none());
    assert!(board.is_valid());

    assert_eq!(
        "8gg0041i8292084020cg02agmk08q4108k8k0870bg7ke4b402g08kg0082g801024400k02c070b208260gq094p40430bi22g040a09g082080g05444080g0250100408k20go2o020s0020g40j0a0r00408p0",
        format_for_wiki(&board)
    );
}

#[test]
fn test_parse_wiki() {
    let parser = Parse::wiki().stop_on_error();
    let (board, failed) = parser.parse(
        "8gg0051i8292094121cg03agmk09q4118k8k0870bg7ke4b402g18kg1082g811124400k03c070b209260hq094p40530bi22g141a09g092081g05444080g0250100409k20ho2o021s0030h41j0a0r00508p0",
    );
    assert!(failed.is_none());
    assert!(board.is_valid());

    let want = trim_grid_whitespace(
        "
        +---------------+-----------------+--------------+
        | 48  9   2     | 145   18   158  | 3   7   6    |
        | 478 1   468   | 24679 3    2689 | 5   248 248  |
        | 3   567 4568  | 24567 2678 2568 | 1   9   248  |
        +---------------+-----------------+--------------+
        | 9   3   46    | 8     5    26   | 7   24  1    |
        | 78  567 1568  | 3     126  4    | 689 258 2589 |
        | 2   56  14568 | 16    9    7    | 68  458 3    |
        +---------------+-----------------+--------------+
        | 6   8   9     | 257   27   3    | 4   1   57   |
        | 5   2   3     | 179   4    189  | 89  6   789  |
        | 1   4   7     | 569   68   5689 | 2   3   589  |
        +---------------+-----------------+--------------+
    ",
    );

    assert_eq!(want, format_grid(&board));
}

#[test]
fn wiki_round_trip_keeps_givens() {
    let board = Parse::packed().parse_simple(PUZZLE);
    let wiki = format_for_wiki(&board);
    let again = Parse::wiki().parse_simple(&wiki);

    // Unsolved cells left with one candidate come back solved, so only the givens are kept
    // exactly.
    assert_eq!(30, again.given_count());
    for c in 0..81 {
        let cell = Cell::new(c);
        assert_eq!(board.is_given(cell), again.is_given(cell));
        if board.is_given(cell) {
            assert_eq!(board.value(cell), again.value(cell));
        }
    }
}

#[test]
fn packed_round_trip_gives_back_values_as_givens() {
    let mut board = Board::new();
    board.set_given(Cell::new(0), Known::new(5));
    board.set_known(Cell::new(10), Known::new(3));
    board.set_known(Cell::new(80), Known::new(9));
    for spaces in [false, true] {
        let text = format_packed(&board, '.', spaces);
        let (again, failed) = Parse::packed_with_options(true).parse(&text);
        assert!(failed.is_none());
        assert!(again.is_valid());
        assert_eq!(3, again.given_count());
        for c in 0..81 {
            let cell = Cell::new(c);
            assert_eq!(board.value(cell), again.value(cell));
            assert_eq!(board.is_known(cell), again.is_given(cell));
        }
    }
}

#[test]
fn clues_fit_counts_cells_but_not_separators() {
    assert!(check_clues_fit(PUZZLE));
    let long = format!("{}{}", ".".repeat(81), "5");
    assert!(!check_clues_fit(&long));
    let trailing = format!("{}{}", ".".repeat(81), "..");
    assert!(check_clues_fit(&trailing));
    let spaced = format!("{} | _ \r\n{}", ".".repeat(40), "5".repeat(41));
    assert!(check_clues_fit(&spaced));
}
