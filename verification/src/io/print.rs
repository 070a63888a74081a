//! Draws the state of a puzzle as lines of text for the console.
use vstd::prelude::*;

use crate::layout::board::Board;
use crate::layout::cells::cell::Cell;
use crate::layout::houses::coord::Coord;
use crate::layout::houses::house::{console_label_of, House};
use crate::layout::houses::shape::Shape;
use crate::layout::knowns::known::Known;
use crate::layout::values::value::MISSING;
use crate::text::{push_char, push_str, string_of};

verus! {

/// The text of each line.
pub open spec fn lines_view(lines: Seq<String>) -> Seq<Seq<char>> {
    lines.map_values(|s: String| s@)
}

/// The label of a solved value.
pub open spec fn value_label(v: u8) -> char {
    (48 + v) as char
}

/// The label of row `r` at the side of a grid.
pub open spec fn row_label(r: int) -> char {
    console_label_of(Shape::Row, r)
}

/// The cells of row `r` up to column `n`, one mark each, a bar after each block.
pub open spec fn single_cells(marks: Seq<char>, r: int, n: int) -> Seq<char>
    decreases n,
{
    if n <= 0 {
        Seq::empty()
    } else {
        single_cells(marks, r, n - 1) + seq![' ', marks[9 * r + n - 1]] + if (n - 1) % 3 == 2 {
            seq![' ', '│']
        } else {
            Seq::<char>::empty()
        }
    }
}

/// The line of row `r` in a grid of one mark per cell.
pub open spec fn single_row(marks: Seq<char>, r: int) -> Seq<char> {
    seq!['│'] + single_cells(marks, r, 9)
}

/// The grid of one mark per cell: a border, the rows with a rule between
/// blocks, and a border.
pub open spec fn single_value_grid(marks: Seq<char>) -> Seq<Seq<char>> {
    let rule = "├───────┼───────┼───────┤"@;
    seq![
        "┍───────┬───────┬───────┐"@,
        single_row(marks, 0),
        single_row(marks, 1),
        single_row(marks, 2),
        rule,
        single_row(marks, 3),
        single_row(marks, 4),
        single_row(marks, 5),
        rule,
        single_row(marks, 6),
        single_row(marks, 7),
        single_row(marks, 8),
        "└───────┴───────┴───────┘"@,
    ]
}

/// Returns the line of row `r` in a grid of one mark per cell.
fn write_single_row(marks: &Vec<char>, r: usize) -> (line: String)
    requires
        marks.len() == 81,
        r < 9,
    ensures
        line@ == single_row(marks@, r as int),
{
    let mut line = String::new();
    push_char(&mut line, '│');
    let mut c: usize = 0;
    while c < 9
        invariant
            marks.len() == 81,
            r < 9,
            c <= 9,
            line@ == seq!['│'] + single_cells(marks@, r as int, c as int),
        decreases 9 - c,
    {
        push_char(&mut line, ' ');
        push_char(&mut line, marks[9 * r + c]);
        if c % 3 == 2 {
            push_char(&mut line, ' ');
            push_char(&mut line, '│');
        }
        c += 1;
        proof {
            assert(line@ =~= seq!['│'] + single_cells(marks@, r as int, c as int));
        }
    }
    line
}

/// Returns the grid of one mark per cell, `marks` holding the marks of the
/// cells from left to right and top to bottom.
pub fn write_single_value(marks: &Vec<char>) -> (r: Vec<String>)
    requires
        marks.len() == 81,
    ensures
        lines_view(r@) == single_value_grid(marks@),
{
    let mut lines: Vec<String> = Vec::new();
    lines.push(string_of("┍───────┬───────┬───────┐"));
    lines.push(write_single_row(marks, 0));
    lines.push(write_single_row(marks, 1));
    lines.push(write_single_row(marks, 2));
    lines.push(string_of("├───────┼───────┼───────┤"));
    lines.push(write_single_row(marks, 3));
    lines.push(write_single_row(marks, 4));
    lines.push(write_single_row(marks, 5));
    lines.push(string_of("├───────┼───────┼───────┤"));
    lines.push(write_single_row(marks, 6));
    lines.push(write_single_row(marks, 7));
    lines.push(write_single_row(marks, 8));
    lines.push(string_of("└───────┴───────┴───────┘"));
    proof {
        assert(lines_view(lines@) =~= single_value_grid(marks@));
    }
    lines
}

/// The mark of cell `c` among the givens: its digit where given, `MISSING`
/// where solved otherwise, and a space where unsolved.
pub open spec fn given_mark(board: Board, c: int) -> char {
    if board.values()[c] == 0 {
        ' '
    } else if board.givens().contains(c) {
        value_label(board.values()[c])
    } else {
        MISSING
    }
}

/// The mark of cell `c` among the solved values: its digit, or a space.
pub open spec fn known_mark(board: Board, c: int) -> char {
    if board.values()[c] == 0 {
        ' '
    } else {
        value_label(board.values()[c])
    }
}

/// Returns the marks of the cells for the givens (where `givens`) or the solved values.
fn value_marks(board: &Board, givens: bool) -> (r: Vec<char>)
    ensures
        r.len() == 81,
        forall|c: int|
            0 <= c < 81 ==> #[trigger] r@[c] == if givens {
                given_mark(*board, c)
            } else {
                known_mark(*board, c)
            },
{
    let mut marks: Vec<char> = Vec::new();
    let mut i: u8 = 0;
    while i < 81
        invariant
            i <= 81,
            marks.len() == i,
            forall|c: int|
                0 <= c < i ==> #[trigger] marks@[c] == if givens {
                    given_mark(*board, c)
                } else {
                    known_mark(*board, c)
                },
        decreases 81 - i,
    {
        let cell = Cell::new(i);
        let value = board.value(cell);
        let mark = if value == 0 {
            ' '
        } else if givens && !board.is_given(cell) {
            MISSING
        } else {
            ((48 + value) as u8) as char
        };
        marks.push(mark);
        i += 1;
    }
    marks
}

/// Returns the grid of the givens: their digits, `MISSING` for the other solved
/// cells, and spaces for the unsolved ones.
pub fn write_givens(board: &Board) -> (r: Vec<String>)
    ensures
        lines_view(r@) == single_value_grid(Seq::new(81, |c: int| given_mark(*board, c))),
{
    let marks = value_marks(board, true);
    proof {
        assert(marks@ =~= Seq::new(81, |c: int| given_mark(*board, c)));
    }
    write_single_value(&marks)
}

/// The mark of cell `c` in the grid of one candidate `k`: `mark` where `k` is
/// still a candidate, the digit where the cell is solved as `k`, and a space
/// otherwise.
pub open spec fn candidate_grid_mark(board: Board, k: int, mark: char, c: int) -> char {
    if board.candidate_sets()[c].contains(k) {
        mark
    } else if board.values()[c] != 0 && board.values()[c] == k + 1 {
        value_label(board.values()[c])
    } else {
        ' '
    }
}

/// Returns the grid of one candidate: `mark` in each cell where `candidate`
/// may still go, its digit where a cell is solved as it, and spaces elsewhere.
/// `mark` is the symbol shown for a cell that holds the candidate.
pub fn write_candidate(board: &Board, candidate: Known, mark: char) -> (r: Vec<String>)
    ensures
        lines_view(r@) == single_value_grid(
            Seq::new(81, |c: int| candidate_grid_mark(*board, candidate@, mark, c)),
        ),
{
    let mut marks: Vec<char> = Vec::new();
    let mut i: u8 = 0;
    while i < 81
        invariant
            i <= 81,
            marks.len() == i,
            forall|c: int|
                0 <= c < i ==> #[trigger] marks@[c] == candidate_grid_mark(*board, candidate@, mark, c),
        decreases 81 - i,
    {
        let cell = Cell::new(i);
        let m = if board.is_candidate(cell, candidate) {
            mark
        } else {
            let value = board.value(cell);
            if value != 0 && value == candidate.value() {
                ((48 + value) as u8) as char
            } else {
                ' '
            }
        };
        marks.push(m);
        i += 1;
    }
    proof {
        assert(marks@ =~= Seq::new(81, |c: int| candidate_grid_mark(*board, candidate@, mark, c)));
    }
    write_single_value(&marks)
}

/// Returns the grid of the solved values, with spaces for the unsolved cells.
pub fn write_known_values(board: &Board) -> (r: Vec<String>)
    ensures
        lines_view(r@) == single_value_grid(Seq::new(81, |c: int| known_mark(*board, c))),
{
    let marks = value_marks(board, false);
    proof {
        assert(marks@ =~= Seq::new(81, |c: int| known_mark(*board, c)));
    }
    write_single_value(&marks)
}

/// The column numbers over and under a grid of one mark per cell.
pub open spec fn single_header() -> Seq<char> {
    "    1 2 3   4 5 6   7 8 9    "@
}

/// `line` with two spaces on each side.
pub open spec fn padded(line: Seq<char>) -> Seq<char> {
    seq![' ', ' '] + line + seq![' ', ' ']
}

/// `line` with the label of row `r` on each side.
pub open spec fn labelled(line: Seq<char>, r: int) -> Seq<char> {
    seq![row_label(r), ' '] + line + seq![' ', row_label(r)]
}

/// The grid `g` of one mark per cell with column numbers above and below and
/// row labels on both sides.
pub open spec fn single_labels(g: Seq<Seq<char>>) -> Seq<Seq<char>> {
    seq![
        single_header(),
        padded(g[0]),
        labelled(g[1], 0),
        labelled(g[2], 1),
        labelled(g[3], 2),
        padded(g[4]),
        labelled(g[5], 3),
        labelled(g[6], 4),
        labelled(g[7], 5),
        padded(g[8]),
        labelled(g[9], 6),
        labelled(g[10], 7),
        labelled(g[11], 8),
        padded(g[12]),
        single_header(),
    ]
}

fn pad_line(line: &str) -> (r: String)
    ensures
        r@ == padded(line@),
{
    let mut r = String::new();
    push_char(&mut r, ' ');
    push_char(&mut r, ' ');
    push_str(&mut r, line);
    push_char(&mut r, ' ');
    push_char(&mut r, ' ');
    proof {
        assert(r@ =~= padded(line@));
    }
    r
}

fn label_line(line: &str, r: u8) -> (s: String)
    requires
        r < 9,
    ensures
        s@ == labelled(line@, r as int),
{
    let label = House::row(Coord::new(r)).console_label();
    let mut s = String::new();
    push_char(&mut s, label);
    push_char(&mut s, ' ');
    push_str(&mut s, line);
    push_char(&mut s, ' ');
    push_char(&mut s, label);
    proof {
        assert(s@ =~= labelled(line@, r as int));
    }
    s
}

/// Returns the grid of one mark per cell with column numbers and row labels;
/// the grid has the thirteen lines that `write_single_value` draws.
pub fn add_single_value_labels(grid: Vec<String>) -> (r: Vec<String>)
    requires
        grid.len() >= 13,
    ensures
        lines_view(r@) == single_labels(lines_view(grid@)),
{
    let ghost g = lines_view(grid@);
    proof {
        assert forall|k: int| 0 <= k < 13 implies g[k] == (#[trigger] grid@[k])@ by {}
    }
    let mut lines: Vec<String> = Vec::new();
    lines.push(string_of("    1 2 3   4 5 6   7 8 9    "));
    lines.push(pad_line(grid[0].as_str()));
    lines.push(label_line(grid[1].as_str(), 0));
    lines.push(label_line(grid[2].as_str(), 1));
    lines.push(label_line(grid[3].as_str(), 2));
    lines.push(pad_line(grid[4].as_str()));
    lines.push(label_line(grid[5].as_str(), 3));
    lines.push(label_line(grid[6].as_str(), 4));
    lines.push(label_line(grid[7].as_str(), 5));
    lines.push(pad_line(grid[8].as_str()));
    lines.push(label_line(grid[9].as_str(), 6));
    lines.push(label_line(grid[10].as_str(), 7));
    lines.push(label_line(grid[11].as_str(), 8));
    lines.push(pad_line(grid[12].as_str()));
    lines.push(string_of("    1 2 3   4 5 6   7 8 9    "));
    proof {
        assert(lines_view(lines@) =~= single_labels(g));
    }
    lines
}

/// The mark of candidate `k` of an unsolved cell: its label, or `MISSING`
/// where it is no longer a candidate.
pub open spec fn candidate_mark(candidates: Set<int>, k: int) -> char {
    if candidates.contains(k) {
        (49 + k) as char
    } else {
        MISSING
    }
}

/// Six spaces.
pub open spec fn blank6() -> Seq<char> {
    seq![' ', ' ', ' ', ' ', ' ', ' ']
}

/// The six characters that cell `c` shows on line `l` of its row: three of its
/// candidates on each line while unsolved; its digit in the middle once solved,
/// with `MISSING` under a given.
pub open spec fn cell_part(board: Board, c: int, l: int) -> Seq<char> {
    let v = board.values()[c];
    if v == 0 {
        let cs = board.candidate_sets()[c];
        seq![
            candidate_mark(cs, 3 * l),
            ' ',
            candidate_mark(cs, 3 * l + 1),
            ' ',
            candidate_mark(cs, 3 * l + 2),
            ' ',
        ]
    } else if l == 1 {
        seq![' ', ' ', value_label(v), ' ', ' ', ' ']
    } else if l == 2 && board.givens().contains(c) {
        seq![' ', ' ', MISSING, ' ', ' ', ' ']
    } else {
        blank6()
    }
}

/// What follows the cell in column `col`: a bar after a block, a space
/// otherwise.
pub open spec fn column_end(col: int) -> Seq<char> {
    if col == 8 {
        seq!['│']
    } else if col % 3 == 2 {
        seq!['│', ' ']
    } else {
        seq![' ', ' ']
    }
}

/// Line `l` of row `r` up to column `n`.
pub open spec fn candidate_cells(board: Board, r: int, l: int, n: int) -> Seq<char>
    decreases n,
{
    if n <= 0 {
        Seq::empty()
    } else {
        candidate_cells(board, r, l, n - 1) + cell_part(board, 9 * r + n - 1, l) + column_end(
            n - 1,
        )
    }
}

/// Line `l` of row `r` in the grid of candidates.
pub open spec fn candidate_line(board: Board, r: int, l: int) -> Seq<char> {
    seq!['│', ' '] + candidate_cells(board, r, l, 9)
}

/// The line under row `r`: a rule under a block, a spacer otherwise.
pub open spec fn row_gap_line(r: int) -> Seq<char> {
    if r % 3 == 2 {
        "├───────────────────────┼───────────────────────┼───────────────────────┤"@
    } else {
        "│                       │                       │                       │"@
    }
}

/// The lines of the first `n` rows of the grid of candidates.
pub open spec fn candidate_rows(board: Board, n: int) -> Seq<Seq<char>>
    decreases n,
{
    if n <= 0 {
        Seq::empty()
    } else {
        candidate_rows(board, n - 1) + seq![
            candidate_line(board, n - 1, 0),
            candidate_line(board, n - 1, 1),
            candidate_line(board, n - 1, 2),
        ] + if n - 1 < 8 {
            seq![row_gap_line(n - 1)]
        } else {
            Seq::<Seq<char>>::empty()
        }
    }
}

/// The grid of the candidates of every cell, three lines per row.
pub open spec fn candidates_grid(board: Board) -> Seq<Seq<char>> {
    seq!["┍───────────────────────┬───────────────────────┬───────────────────────┐"@]
        + candidate_rows(board, 9) + seq![
        "└───────────────────────┴───────────────────────┴───────────────────────┘"@,
    ]
}

/// Appends what cell `cell` shows on line `l` of its row.
fn push_cell_part(line: &mut String, board: &Board, cell: Cell, l: u8)
    requires
        l < 3,
    ensures
        final(line)@ == old(line)@ + cell_part(*board, cell@, l as int),
{
    let value = board.value(cell);
    if value == 0 {
        let candidates = board.candidates(cell);
        let mut k: u8 = 3 * l;
        while k < 3 * l + 3
            invariant
                l < 3,
                3 * l <= k <= 3 * l + 3,
                candidates@ == board.candidate_sets()[cell@],
                line@ == old(line)@ + Seq::new(
                    2 * (k - 3 * l) as nat,
                    |j: int|
                        if j % 2 == 0 {
                            candidate_mark(candidates@, 3 * l + j / 2)
                        } else {
                            ' '
                        },
                ),
            decreases 3 * l + 3 - k,
        {
            let mark = if candidates.has(Known::new(k + 1)) {
                ((49 + k) as u8) as char
            } else {
                MISSING
            };
            push_char(line, mark);
            push_char(line, ' ');
            k += 1;
            proof {
                assert(line@ =~= old(line)@ + Seq::new(
                    2 * (k - 3 * l) as nat,
                    |j: int|
                        if j % 2 == 0 {
                            candidate_mark(candidates@, 3 * l + j / 2)
                        } else {
                            ' '
                        },
                ));
            }
        }
    } else {
        let mark = if l == 1 {
            ((48 + value) as u8) as char
        } else if l == 2 && board.is_given(cell) {
            MISSING
        } else {
            ' '
        };
        push_char(line, ' ');
        push_char(line, ' ');
        push_char(line, mark);
        push_char(line, ' ');
        push_char(line, ' ');
        push_char(line, ' ');
    }
    proof {
        assert(line@ =~= old(line)@ + cell_part(*board, cell@, l as int));
    }
}

/// Appends what follows the cell in column `col`.
fn push_column_end(line: &mut String, col: u8)
    requires
        col < 9,
    ensures
        final(line)@ == old(line)@ + column_end(col as int),
{
    if col == 8 {
        push_char(line, '│');
    } else if col % 3 == 2 {
        push_char(line, '│');
        push_char(line, ' ');
    } else {
        push_char(line, ' ');
        push_char(line, ' ');
    }
    proof {
        assert(line@ =~= old(line)@ + column_end(col as int));
    }
}

/// Returns line `l` of row `r` in the grid of candidates.
fn write_candidate_line(board: &Board, r: u8, l: u8) -> (line: String)
    requires
        r < 9,
        l < 3,
    ensures
        line@ == candidate_line(*board, r as int, l as int),
{
    let mut line = String::new();
    push_char(&mut line, '│');
    push_char(&mut line, ' ');
    let mut col: u8 = 0;
    while col < 9
        invariant
            r < 9,
            l < 3,
            col <= 9,
            line@ == seq!['│', ' '] + candidate_cells(*board, r as int, l as int, col as int),
        decreases 9 - col,
    {
        let cell = Cell::new(9 * r + col);
        push_cell_part(&mut line, board, cell, l);
        push_column_end(&mut line, col);
        col += 1;
        proof {
            assert(line@ =~= seq!['│', ' '] + candidate_cells(*board, r as int, l as int, col as int));
        }
    }
    line
}

/// Returns the grid of the candidates of every cell.
pub fn write_candidates(board: &Board) -> (r: Vec<String>)
    ensures
        lines_view(r@) == candidates_grid(*board),
{
    let mut lines: Vec<String> = Vec::new();
    lines.push(
        string_of("┍───────────────────────┬───────────────────────┬───────────────────────┐"),
    );
    let mut row: u8 = 0;
    while row < 9
        invariant
            row <= 9,
            lines_view(lines@) == seq![
                "┍───────────────────────┬───────────────────────┬───────────────────────┐"@,
            ] + candidate_rows(*board, row as int),
        decreases 9 - row,
    {
        let ghost before = lines_view(lines@);
        let first = write_candidate_line(board, row, 0);
        let second = write_candidate_line(board, row, 1);
        let third = write_candidate_line(board, row, 2);
        let ghost three = seq![first@, second@, third@];
        lines.push(first);
        lines.push(second);
        lines.push(third);
        proof {
            assert(lines_view(lines@) =~= before + three);
        }
        let ghost middle = lines_view(lines@);
        if row % 3 == 2 {
            if row != 8 {
                lines.push(
                    string_of(
                        "├───────────────────────┼───────────────────────┼───────────────────────┤",
                    ),
                );
            }
        } else {
            lines.push(
                string_of(
                    "│                       │                       │                       │",
                ),
            );
        }
        proof {
            if row < 8 {
                assert(lines_view(lines@) =~= middle.push(row_gap_line(row as int)));
            } else {
                assert(lines_view(lines@) =~= middle);
            }
        }
        row += 1;
        proof {
            assert(lines_view(lines@) =~= seq![
                "┍───────────────────────┬───────────────────────┬───────────────────────┐"@,
            ] + candidate_rows(*board, row as int));
        }
    }
    lines.push(
        string_of("└───────────────────────┴───────────────────────┴───────────────────────┘"),
    );
    proof {
        assert(lines_view(lines@) =~= candidates_grid(*board));
    }
    lines
}

/// The column numbers over and under the grid of candidates.
pub open spec fn candidates_header() -> Seq<char> {
    "      1       2       3       4       5       6       7       8       9      "@
}

/// The labelled lines of the first `n` rows of the grid of candidates `g`:
/// the row label beside the middle line of each.
pub open spec fn candidate_label_rows(g: Seq<Seq<char>>, n: int) -> Seq<Seq<char>>
    decreases n,
{
    if n <= 0 {
        Seq::empty()
    } else {
        let b = 4 * (n - 1);
        candidate_label_rows(g, n - 1) + seq![
            padded(g[b + 1]),
            labelled(g[b + 2], n - 1),
            padded(g[b + 3]),
            padded(g[b + 4]),
        ]
    }
}

/// The grid of candidates `g` with column numbers above and below and row
/// labels on both sides.
pub open spec fn candidates_labels(g: Seq<Seq<char>>) -> Seq<Seq<char>> {
    seq![candidates_header(), padded(g[0])] + candidate_label_rows(g, 9) + seq![
        candidates_header(),
    ]
}

/// Returns the grid of candidates with column numbers and row labels; the grid
/// has the lines that `write_candidates` draws.
pub fn add_all_candidates_labels(grid: Vec<String>) -> (r: Vec<String>)
    requires
        grid.len() >= 37,
    ensures
        lines_view(r@) == candidates_labels(lines_view(grid@)),
{
    let ghost g = lines_view(grid@);
    let mut lines: Vec<String> = Vec::new();
    lines.push(
        string_of("      1       2       3       4       5       6       7       8       9      "),
    );
    proof {
        assert(g[0] == grid@[0]@);
    }
    lines.push(pad_line(grid[0].as_str()));
    let mut row: u8 = 0;
    while row < 9
        invariant
            grid.len() >= 37,
            g == lines_view(grid@),
            row <= 9,
            lines_view(lines@) == seq![candidates_header(), padded(g[0])] + candidate_label_rows(
                g,
                row as int,
            ),
        decreases 9 - row,
    {
        let b: usize = 4 * row as usize;
        proof {
            assert(g[b + 1] == grid@[b + 1]@);
            assert(g[b + 2] == grid@[b + 2]@);
            assert(g[b + 3] == grid@[b + 3]@);
            assert(g[b + 4] == grid@[b + 4]@);
        }
        let ghost before = lines_view(lines@);
        let l1 = pad_line(grid[b + 1].as_str());
        let l2 = label_line(grid[b + 2].as_str(), row);
        let l3 = pad_line(grid[b + 3].as_str());
        let l4 = pad_line(grid[b + 4].as_str());
        let ghost four = seq![l1@, l2@, l3@, l4@];
        lines.push(l1);
        lines.push(l2);
        lines.push(l3);
        lines.push(l4);
        proof {
            assert(lines_view(lines@) =~= before + four);
        }
        row += 1;
        proof {
            assert(lines_view(lines@) =~= seq![candidates_header(), padded(g[0])]
                + candidate_label_rows(g, row as int));
        }
    }
    lines.push(
        string_of("      1       2       3       4       5       6       7       8       9      "),
    );
    proof {
        assert(lines_view(lines@) =~= candidates_labels(g));
    }
    lines
}

proof fn lemma_single_cells_len(marks: Seq<char>, r: int, n: int)
    requires
        0 <= n <= 9,
    ensures
        single_cells(marks, r, n).len() == 2 * n + 2 * (n / 3),
    decreases n,
{
    if n > 0 {
        lemma_single_cells_len(marks, r, n - 1);
    }
}

/// A grid of one mark per cell is a rectangle: thirteen lines of twenty-five
/// characters.
pub proof fn lemma_single_grid_shape(marks: Seq<char>)
    ensures
        single_value_grid(marks).len() == 13,
        forall|i: int| 0 <= i < 13 ==> (#[trigger] single_value_grid(marks)[i]).len() == 25,
{
    reveal_strlit("┍───────┬───────┬───────┐");
    reveal_strlit("├───────┼───────┼───────┤");
    reveal_strlit("└───────┴───────┴───────┘");
    assert forall|r: int| 0 <= r < 9 implies (#[trigger] single_row(marks, r)).len() == 25 by {
        lemma_single_cells_len(marks, r, 9);
    }
    let g = single_value_grid(marks);
    assert(g[1] == single_row(marks, 0));
    assert(g[2] == single_row(marks, 1));
    assert(g[3] == single_row(marks, 2));
    assert(g[5] == single_row(marks, 3));
    assert(g[6] == single_row(marks, 4));
    assert(g[7] == single_row(marks, 5));
    assert(g[9] == single_row(marks, 6));
    assert(g[10] == single_row(marks, 7));
    assert(g[11] == single_row(marks, 8));
}

proof fn lemma_candidate_cells_len(board: Board, r: int, l: int, n: int)
    requires
        0 <= n <= 9,
    ensures
        candidate_cells(board, r, l, n).len() == 8 * n - if n == 9 {
            1int
        } else {
            0
        },
    decreases n,
{
    if n > 0 {
        lemma_candidate_cells_len(board, r, l, n - 1);
    }
}

proof fn lemma_candidate_rows_shape(board: Board, n: int)
    requires
        0 <= n <= 9,
    ensures
        candidate_rows(board, n).len() == 4 * n - if n == 9 {
            1int
        } else {
            0
        },
        forall|i: int|
            0 <= i < candidate_rows(board, n).len() ==> (#[trigger] candidate_rows(board, n)[i]).len()
                == 73,
    decreases n,
{
    reveal_strlit("├───────────────────────┼───────────────────────┼───────────────────────┤");
    reveal_strlit("│                       │                       │                       │");
    if n > 0 {
        lemma_candidate_rows_shape(board, n - 1);
        assert forall|l: int| 0 <= l < 3 implies (#[trigger] candidate_line(board, n - 1, l)).len()
            == 73 by {
            lemma_candidate_cells_len(board, n - 1, l, 9);
        }
        let prev = candidate_rows(board, n - 1);
        let rows = candidate_rows(board, n);
        assert forall|i: int| 0 <= i < rows.len() implies (#[trigger] rows[i]).len() == 73 by {
            if i < prev.len() {
                assert(rows[i] == prev[i]);
            } else if i < prev.len() + 3 {
                assert(rows[i] == candidate_line(board, n - 1, i - prev.len()));
            } else {
                assert(rows[i] == row_gap_line(n - 1));
            }
        }
    }
}

/// The grid of candidates is a rectangle: thirty-seven lines of seventy-three
/// characters.
pub proof fn lemma_candidates_grid_shape(board: Board)
    ensures
        candidates_grid(board).len() == 37,
        forall|i: int| 0 <= i < 37 ==> (#[trigger] candidates_grid(board)[i]).len() == 73,
{
    reveal_strlit("┍───────────────────────┬───────────────────────┬───────────────────────┐");
    reveal_strlit("└───────────────────────┴───────────────────────┴───────────────────────┘");
    lemma_candidate_rows_shape(board, 9);
    let rows = candidate_rows(board, 9);
    let g = candidates_grid(board);
    assert forall|i: int| 0 <= i < 37 implies (#[trigger] g[i]).len() == 73 by {
        if 1 <= i < 36 {
            assert(g[i] == rows[i - 1]);
        }
    }
}

} // verus!
