//! Compact drawings of a puzzle for the console: one character per solved
//! value, and three lines of three candidates per row of cells.
use vstd::prelude::*;

use crate::io::print::{candidate_mark, lines_view, row_label, value_label};
use crate::layout::board::Board;
use crate::layout::cells::cell::Cell;
use crate::layout::houses::coord::Coord;
use crate::layout::houses::house::House;
use crate::layout::knowns::known::Known;
use crate::layout::values::value::MISSING;
use crate::text::{push_char, push_str, string_of};

verus! {

/// The label of the value of cell `c`: its digit, or `MISSING` while unsolved.
pub open spec fn value_mark(board: Board, c: int) -> char {
    if board.values()[c] == 0 {
        MISSING
    } else {
        value_label(board.values()[c])
    }
}

/// The line of row `r` among the values: its label, a space and the label of
/// the value of each of its cells.
pub open spec fn values_row(board: Board, r: int) -> Seq<char> {
    seq![row_label(r), ' '] + Seq::new(9, |j: int| value_mark(board, 9 * r + j))
}

/// The values of the board under a line of column numbers.
pub open spec fn values_lines(board: Board) -> Seq<Seq<char>> {
    seq!["  ¹²³⁴⁵⁶⁷⁸⁹"@] + Seq::new(9, |r: int| values_row(board, r))
}

/// Returns the values of the board under a line of column numbers.
pub fn write_values(board: &Board) -> (r: Vec<String>)
    ensures
        lines_view(r@) == values_lines(*board),
{
    let mut lines: Vec<String> = Vec::new();
    lines.push(string_of("  ¹²³⁴⁵⁶⁷⁸⁹"));
    let mut row: u8 = 0;
    while row < 9
        invariant
            row <= 9,
            lines_view(lines@) == values_lines(*board).take(row + 1),
        decreases 9 - row,
    {
        let mut line = String::new();
        push_char(&mut line, House::row(Coord::new(row)).console_label());
        push_char(&mut line, ' ');
        let mut col: u8 = 0;
        while col < 9
            invariant
                row < 9,
                col <= 9,
                line@ == seq![row_label(row as int), ' '] + Seq::new(
                    col as nat,
                    |j: int| value_mark(*board, 9 * row + j),
                ),
            decreases 9 - col,
        {
            let value = board.value(Cell::new(9 * row + col));
            let mark = if value == 0 {
                MISSING
            } else {
                ((48 + value) as u8) as char
            };
            push_char(&mut line, mark);
            col += 1;
            proof {
                assert(line@ =~= seq![row_label(row as int), ' '] + Seq::new(
                    col as nat,
                    |j: int| value_mark(*board, 9 * row + j),
                ));
            }
        }
        let ghost before = lines@;
        lines.push(line);
        row += 1;
        proof {
            assert(line@ =~= values_row(*board, row - 1));
            assert(lines@ =~= before.push(line));
            assert(values_lines(*board)[row as int] == values_row(*board, row - 1));
            assert(values_lines(*board).take(row + 1) =~= values_lines(*board).take(row as int).push(
                values_row(*board, row - 1),
            ));
            assert(lines_view(lines@) =~= lines_view(before).push(line@));
        }
    }
    proof {
        assert(values_lines(*board).take(10) =~= values_lines(*board));
    }
    lines
}

/// The three characters that cell `c` shows on line `l` of its row: three of
/// its candidates while unsolved, its digit in the middle once solved.
pub open spec fn compact_part(board: Board, c: int, l: int) -> Seq<char> {
    let v = board.values()[c];
    if v == 0 {
        let cs = board.candidate_sets()[c];
        seq![candidate_mark(cs, 3 * l), candidate_mark(cs, 3 * l + 1), candidate_mark(cs, 3 * l + 2)]
    } else if l == 1 {
        seq![' ', value_label(v), ' ']
    } else {
        seq![' ', ' ', ' ']
    }
}

/// What follows the cell in column `col`: a bar between blocks, nothing after
/// the last column, a space otherwise.
pub open spec fn compact_sep(col: int) -> Seq<char> {
    if col % 3 == 2 {
        if col == 8 {
            Seq::empty()
        } else {
            " │ "@
        }
    } else {
        seq![' ']
    }
}

/// Line `l` of row `r` up to column `n`, without its margins.
pub open spec fn compact_cells(board: Board, r: int, l: int, n: int) -> Seq<char>
    decreases n,
{
    if n <= 0 {
        Seq::empty()
    } else {
        compact_cells(board, r, l, n - 1) + compact_part(board, 9 * r + n - 1, l) + compact_sep(
            n - 1,
        )
    }
}

/// Line `l` of row `r`: the middle line carries the row's label on both sides.
pub open spec fn compact_line(board: Board, r: int, l: int) -> Seq<char> {
    if l == 1 {
        seq![row_label(r), ' '] + compact_cells(board, r, 1, 9) + seq![' ', row_label(r)]
    } else {
        seq![' ', ' '] + compact_cells(board, r, l, 9)
    }
}

/// The lines under row `r`: a rule under a block but the last, a spacer under
/// the other rows.
pub open spec fn compact_gap(r: int) -> Seq<Seq<char>> {
    if r % 3 == 2 {
        if r == 8 {
            Seq::empty()
        } else {
            seq!["  ────────────┼─────────────┼────────────"@]
        }
    } else {
        seq!["              │             │"@]
    }
}

/// The lines of the first `n` rows.
pub open spec fn compact_rows(board: Board, n: int) -> Seq<Seq<char>>
    decreases n,
{
    if n <= 0 {
        Seq::empty()
    } else {
        compact_rows(board, n - 1) + seq![
            compact_line(board, n - 1, 0),
            compact_line(board, n - 1, 1),
            compact_line(board, n - 1, 2),
        ] + compact_gap(n - 1)
    }
}

/// The candidates of the board between lines of column numbers.
pub open spec fn compact_grid(board: Board) -> Seq<Seq<char>> {
    seq!["   ¹   ²   ³     ⁴   ⁵   ⁶     ⁷   ⁸   ⁹"@] + compact_rows(board, 9) + seq![
        "   ₁   ₂   ₃     ₄   ₅   ₆     ₇   ₈   ₉"@,
    ]
}

/// Appends the three characters that `cell` shows on line `l` of its row.
fn push_compact_part(line: &mut String, board: &Board, cell: Cell, l: u8)
    requires
        l < 3,
    ensures
        final(line)@ == old(line)@ + compact_part(*board, cell@, l as int),
{
    let value = board.value(cell);
    if value == 0 {
        let candidates = board.candidates(cell);
        let mut k: u8 = 3 * l;
        while k < 3 * l + 3
            invariant
                l < 3,
                3 * l <= k <= 3 * l + 3,
                candidates@ == board.candidate_sets()[cell@],
                line@ == old(line)@ + Seq::new(
                    (k - 3 * l) as nat,
                    |j: int| candidate_mark(candidates@, 3 * l + j),
                ),
            decreases 3 * l + 3 - k,
        {
            let mark = if candidates.has(Known::new(k + 1)) {
                ((49 + k) as u8) as char
            } else {
                MISSING
            };
            push_char(line, mark);
            k += 1;
            proof {
                assert(line@ =~= old(line)@ + Seq::new(
                    (k - 3 * l) as nat,
                    |j: int| candidate_mark(candidates@, 3 * l + j),
                ));
            }
        }
    } else {
        let mark = if l == 1 {
            ((48 + value) as u8) as char
        } else {
            ' '
        };
        push_char(line, ' ');
        push_char(line, mark);
        push_char(line, ' ');
    }
    proof {
        assert(line@ =~= old(line)@ + compact_part(*board, cell@, l as int));
    }
}

/// Returns line `l` of row `r`.
fn write_compact_line(board: &Board, r: u8, l: u8) -> (line: String)
    requires
        r < 9,
        l < 3,
    ensures
        line@ == compact_line(*board, r as int, l as int),
{
    let label = House::row(Coord::new(r)).console_label();
    let mut line = String::new();
    if l == 1 {
        push_char(&mut line, label);
    } else {
        push_char(&mut line, ' ');
    }
    push_char(&mut line, ' ');
    let ghost start = line@;
    let mut col: u8 = 0;
    while col < 9
        invariant
            r < 9,
            l < 3,
            col <= 9,
            line@ == start + compact_cells(*board, r as int, l as int, col as int),
        decreases 9 - col,
    {
        push_compact_part(&mut line, board, Cell::new(9 * r + col), l);
        if col % 3 == 2 {
            if col != 8 {
                push_str(&mut line, " │ ");
            }
        } else {
            push_char(&mut line, ' ');
        }
        col += 1;
        proof {
            reveal_strlit(" │ ");
            assert(line@ =~= start + compact_cells(*board, r as int, l as int, col as int));
        }
    }
    if l == 1 {
        push_char(&mut line, ' ');
        push_char(&mut line, label);
    }
    proof {
        assert(line@ =~= compact_line(*board, r as int, l as int));
    }
    line
}

/// Returns the candidates of the board between lines of column numbers.
pub fn write_candidates(board: &Board) -> (r: Vec<String>)
    ensures
        lines_view(r@) == compact_grid(*board),
{
    let mut lines: Vec<String> = Vec::new();
    lines.push(string_of("   ¹   ²   ³     ⁴   ⁵   ⁶     ⁷   ⁸   ⁹"));
    let mut row: u8 = 0;
    while row < 9
        invariant
            row <= 9,
            lines_view(lines@) == seq!["   ¹   ²   ³     ⁴   ⁵   ⁶     ⁷   ⁸   ⁹"@] + compact_rows(
                *board,
                row as int,
            ),
        decreases 9 - row,
    {
        let ghost before = lines_view(lines@);
        let a = write_compact_line(board, row, 0);
        let b = write_compact_line(board, row, 1);
        let c = write_compact_line(board, row, 2);
        lines.push(a);
        lines.push(b);
        lines.push(c);
        proof {
            assert(lines_view(lines@) =~= before + seq![
                compact_line(*board, row as int, 0),
                compact_line(*board, row as int, 1),
                compact_line(*board, row as int, 2),
            ]);
        }
        let ghost middle = lines_view(lines@);
        if row % 3 == 2 {
            if row != 8 {
                lines.push(string_of("  ────────────┼─────────────┼────────────"));
            }
        } else {
            lines.push(string_of("              │             │"));
        }
        proof {
            assert(lines_view(lines@) =~= middle + compact_gap(row as int));
        }
        row += 1;
        proof {
            assert(lines_view(lines@) =~= seq!["   ¹   ²   ³     ⁴   ⁵   ⁶     ⁷   ⁸   ⁹"@]
                + compact_rows(*board, row as int));
        }
    }
    lines.push(string_of("   ₁   ₂   ₃     ₄   ₅   ₆     ₇   ₈   ₉"));
    proof {
        assert(lines_view(lines@) =~= compact_grid(*board));
    }
    lines
}

} // verus!
