//! Formats a board as a packed string, a SudokuWiki string or a grid of candidates.
use vstd::prelude::*;

use crate::layout::board::Board;
use crate::layout::cells::cell::Cell;
use crate::packed::{lemma_view16_ops, view16, MASK9};
use crate::text::push_char;

verus! {

/// The mark shown for an unsolved cell in the fancy console format.
pub const MISSING: char = '·';

/// A space before each row but the first when `spaces` is set; `c` is the cell that follows.
pub open spec fn row_gap(spaces: bool, c: int) -> Seq<char> {
    if spaces && c > 0 && c % 9 == 0 {
        seq![' ']
    } else {
        Seq::<char>::empty()
    }
}

/// The mark of cell `c` in a packed string: its digit, or `unknown` when unsolved.
pub open spec fn packed_mark(board: Board, unknown: char, c: int) -> char {
    if board.values()[c] != 0 {
        (48 + board.values()[c]) as char
    } else {
        unknown
    }
}

/// The packed marks of the first `n` cells.
pub open spec fn packed_text(board: Board, unknown: char, spaces: bool, n: int) -> Seq<char>
    decreases n,
{
    if n <= 0 {
        Seq::<char>::empty()
    } else {
        packed_text(board, unknown, spaces, n - 1) + row_gap(spaces, n - 1) + seq![
            packed_mark(board, unknown, n - 1),
        ]
    }
}

/// The base-32 digit of `d`: '0' to '9', then 'a' to 'v'.
pub open spec fn digit32(d: int) -> char {
    if d < 10 {
        (48 + d) as char
    } else {
        (87 + d) as char
    }
}

/// The two base-32 digits of `v`.
pub open spec fn wiki_pair(v: int) -> Seq<char> {
    if v < 32 {
        seq!['0', digit32(v)]
    } else {
        seq![digit32(v / 32), digit32(v % 32)]
    }
}

/// The nine-bit word whose members are `s`.
pub open spec fn word9(s: Set<int>) -> u16 {
    choose|b: u16| b <= MASK9 && view16(b) == s
}

/// The SudokuWiki code of cell `c`: the bit of its digit plus one when given, or the bits of
/// its candidates, each digit at its own bit.
pub open spec fn wiki_code(board: Board, c: int) -> int {
    if board.knowns().contains(c) {
        (1u32 << (board.values()[c] as u32)) + if board.givens().contains(c) {
            1int
        } else {
            0int
        }
    } else {
        2 * word9(board.candidate_sets()[c])
    }
}

/// The SudokuWiki codes of the first `n` cells.
pub open spec fn wiki_text(board: Board, spaces: bool, n: int) -> Seq<char>
    decreases n,
{
    if n <= 0 {
        Seq::<char>::empty()
    } else {
        wiki_text(board, spaces, n - 1) + row_gap(spaces, n - 1) + wiki_pair(wiki_code(board, n - 1))
    }
}

/// The digits of the members of `s` below `n`, in order.
pub open spec fn digits_of(s: Set<int>, n: int) -> Seq<char>
    decreases n,
{
    if n <= 0 {
        Seq::<char>::empty()
    } else {
        digits_of(s, n - 1) + if s.contains(n - 1) {
            seq![(49 + (n - 1)) as char]
        } else {
            Seq::<char>::empty()
        }
    }
}

/// The text of cell `c` in the grid: its digit when solved, else its candidates.
pub open spec fn cell_text(board: Board, c: int) -> Seq<char> {
    if board.knowns().contains(c) {
        seq![(48 + board.values()[c]) as char]
    } else {
        digits_of(board.candidate_sets()[c], 9)
    }
}

/// The width of cell `c` in the grid.
pub open spec fn cell_width(board: Board, c: int) -> int {
    if board.knowns().contains(c) {
        1
    } else {
        board.candidate_sets()[c].len() as int
    }
}

/// The widest of the first `n` cells of column `col`.
pub open spec fn widest(board: Board, col: int, n: int) -> int
    decreases n,
{
    if n <= 0 {
        0
    } else {
        let w = cell_width(board, 9 * (n - 1) + col);
        let m = widest(board, col, n - 1);
        if m >= w {
            m
        } else {
            w
        }
    }
}

/// The width of column `col` in the grid.
pub open spec fn column_width(board: Board, col: int) -> int {
    widest(board, col, 9)
}

/// `text` padded with spaces on the right to `width`.
pub open spec fn pad(text: Seq<char>, width: int) -> Seq<char> {
    if text.len() < width {
        text + Seq::new((width - text.len()) as nat, |i: int| ' ')
    } else {
        text
    }
}

/// The piece of grid line `r` for column `col`.
pub open spec fn line_piece(board: Board, r: int, col: int) -> Seq<char> {
    (if col % 3 == 0 {
        seq!['|', ' ']
    } else {
        Seq::<char>::empty()
    }) + pad(cell_text(board, 9 * r + col), column_width(board, col)) + seq![' '] + if col == 8 {
        seq!['|']
    } else {
        Seq::<char>::empty()
    }
}

/// The pieces of grid line `r` for the first `n` columns.
pub open spec fn grid_line(board: Board, r: int, n: int) -> Seq<char>
    decreases n,
{
    if n <= 0 {
        Seq::<char>::empty()
    } else {
        grid_line(board, r, n - 1) + line_piece(board, r, n - 1)
    }
}

/// The piece of the border for column `col`.
pub open spec fn border_piece(board: Board, col: int) -> Seq<char> {
    (if col % 3 == 0 {
        seq!['+', '-']
    } else {
        Seq::<char>::empty()
    }) + Seq::new((column_width(board, col) + 1) as nat, |i: int| '-') + if col == 8 {
        seq!['+']
    } else {
        Seq::<char>::empty()
    }
}

/// The pieces of the border for the first `n` columns.
pub open spec fn grid_border(board: Board, n: int) -> Seq<char>
    decreases n,
{
    if n <= 0 {
        Seq::<char>::empty()
    } else {
        grid_border(board, n - 1) + border_piece(board, n - 1)
    }
}

/// The grid: a border, three lines, a border, and so on, one per text line.
pub open spec fn grid_text(board: Board) -> Seq<char> {
    let b = grid_border(board, 9);
    let nl = seq!['\n'];
    b + nl + grid_line(board, 0, 9) + nl + grid_line(board, 1, 9) + nl + grid_line(board, 2, 9) + nl
        + b + nl + grid_line(board, 3, 9) + nl + grid_line(board, 4, 9) + nl + grid_line(board, 5, 9)
        + nl + b + nl + grid_line(board, 6, 9) + nl + grid_line(board, 7, 9) + nl + grid_line(
        board,
        8,
        9,
    ) + nl + b
}

proof fn lemma_packed_len_upto(board: Board, unknown: char, spaces: bool, n: int)
    requires
        1 <= n <= 81,
    ensures
        packed_text(board, unknown, spaces, n).len() == n + if spaces {
            (n - 1) / 9
        } else {
            0
        },
    decreases n,
{
    assert(packed_text(board, unknown, spaces, 0) =~= Seq::<char>::empty());
    if n > 1 {
        lemma_packed_len_upto(board, unknown, spaces, n - 1);
        assert(packed_text(board, unknown, spaces, n).len() == packed_text(board, unknown, spaces, n - 1).len()
            + row_gap(spaces, n - 1).len() + 1);
        assert((n - 1) / 9 == (n - 2) / 9 + if (n - 1) % 9 == 0 {
            1int
        } else {
            0int
        }) by (nonlinear_arith)
            requires
                n >= 2,
        ;
    }
}

/// A packed string has a mark for each of the 81 cells, and a space between rows when
/// `spaces` is set.
pub proof fn lemma_packed_len(board: Board, unknown: char, spaces: bool)
    ensures
        packed_text(board, unknown, spaces, 81).len() == if spaces {
            89int
        } else {
            81int
        },
{
    lemma_packed_len_upto(board, unknown, spaces, 81);
}

/// Mark `c` of a packed string without spaces is the digit of cell `c`, or `unknown` when
/// the cell is unsolved.
pub proof fn lemma_packed_mark(board: Board, unknown: char, c: int, n: int)
    requires
        0 <= c < n <= 81,
    ensures
        packed_text(board, unknown, false, n)[c] == packed_mark(board, unknown, c),
    decreases n,
{
    lemma_packed_len_upto(board, unknown, false, n);
    if c < n - 1 {
        lemma_packed_mark(board, unknown, c, n - 1);
        lemma_packed_len_upto(board, unknown, false, n - 1);
    }
}

proof fn lemma_wiki_len_upto(board: Board, n: int)
    requires
        0 <= n <= 81,
    ensures
        wiki_text(board, false, n).len() == 2 * n,
    decreases n,
{
    if n > 0 {
        lemma_wiki_len_upto(board, n - 1);
        assert(wiki_pair(wiki_code(board, n - 1)).len() == 2);
    }
}

/// A SudokuWiki string without spaces has two characters for each of the 81 cells.
pub proof fn lemma_wiki_len(board: Board)
    ensures
        wiki_text(board, false, 81).len() == 162,
{
    lemma_wiki_len_upto(board, 81);
}

/// Formats a board into a packed string with spacing and periods for unsolved cells.
pub fn format_for_console(board: &Board) -> (r: String)
    ensures
        r@ == packed_text(*board, '.', true, 81),
{
    Format::console().format(board)
}

/// Formats a board into a packed string with spacing and dots for unsolved cells.
pub fn format_for_fancy_console(board: &Board) -> (r: String)
    ensures
        r@ == packed_text(*board, MISSING, true, 81),
{
    Format::fancy().format(board)
}

/// Formats a board into a packed string with zeros for unsolved cells.
pub fn format_for_url(board: &Board) -> (r: String)
    ensures
        r@ == packed_text(*board, '0', false, 81),
{
    Format::url().format(board)
}

/// Formats a board into a packed string for the SudokuWiki site.
pub fn format_for_wiki(board: &Board) -> (r: String)
    ensures
        r@ == wiki_text(*board, false, 81),
{
    Format::wiki().format(board)
}

/// Formats a board into a packed string.
pub fn format_packed(board: &Board, unknown: char, spaces: bool) -> (r: String)
    ensures
        r@ == packed_text(*board, unknown, spaces, 81),
{
    let mut formatter = FormatPacked::new(unknown);
    if spaces {
        formatter = formatter.spaces();
    }
    formatter.format(board)
}

/// Formats a board into a grid showing all knowns and candidates.
pub fn format_grid(board: &Board) -> (r: String)
    ensures
        r@ == grid_text(*board),
{
    Format::grid().format(board)
}

/// Provides the formatters of the supported string formats.
pub struct Format {}

impl Format {
    /// Returns the packed formatter with spacing and periods for unsolved cells.
    pub fn console() -> (r: FormatPacked)
        ensures
            r.unknown == '.',
            r.spaces,
    {
        FormatPacked::new('.').spaces()
    }

    /// Returns the packed formatter with spacing and dots for unsolved cells.
    pub fn fancy() -> (r: FormatPacked)
        ensures
            r.unknown == MISSING,
            r.spaces,
    {
        FormatPacked::new(MISSING).spaces()
    }

    /// Returns the packed formatter with zeros for unsolved cells.
    pub fn url() -> (r: FormatPacked)
        ensures
            r.unknown == '0',
            !r.spaces,
    {
        FormatPacked::new('0')
    }

    /// Returns the SudokuWiki formatter.
    pub fn wiki() -> (r: FormatWiki)
        ensures
            !r.spaces,
    {
        FormatWiki::new()
    }

    /// Returns the grid formatter.
    pub fn grid() -> (r: FormatGrid) {
        FormatGrid::new()
    }
}

/// Produces a single-line packed string of a board's cells with a configured character for
/// every unsolved cell and an optional space between rows.
pub struct FormatPacked {
    pub unknown: char,
    pub spaces: bool,
}

impl FormatPacked {
    /// Returns a formatter that marks unsolved cells with `unknown`, without spaces.
    pub fn new(unknown: char) -> (r: Self)
        ensures
            r.unknown == unknown,
            !r.spaces,
    {
        FormatPacked { unknown, spaces: false }
    }

    /// Changes the character used for unsolved cells.
    pub fn unknown(self, unknown: char) -> (r: Self)
        ensures
            r.unknown == unknown,
            r.spaces == self.spaces,
    {
        FormatPacked { unknown, spaces: self.spaces }
    }

    /// Adds a space between rows.
    pub fn spaces(self) -> (r: Self)
        ensures
            r.unknown == self.unknown,
            r.spaces,
    {
        FormatPacked { unknown: self.unknown, spaces: true }
    }

    /// Returns the packed string of `board`.
    pub fn format(&self, board: &Board) -> (r: String)
        ensures
            r@ == packed_text(*board, self.unknown, self.spaces, 81),
    {
        let mut result = String::new();
        let mut c: u8 = 0;
        while c < 81
            invariant
                c <= 81,
                result@ == packed_text(*board, self.unknown, self.spaces, c as int),
            decreases 81 - c,
        {
            if self.spaces && c > 0 && c % 9 == 0 {
                push_char(&mut result, ' ');
            }
            let value = board.value(Cell::new(c));
            if value != 0 {
                push_char(&mut result, (48u8 + value) as char);
            } else {
                push_char(&mut result, self.unknown);
            }
            proof {
                assert(result@ =~= packed_text(*board, self.unknown, self.spaces, c + 1));
            }
            c = c + 1;
        }
        result
    }
}

/// Produces a grid of a board's cells showing the solution or the candidates of each cell.
pub struct FormatGrid {}

impl FormatGrid {
    /// Returns the grid formatter.
    pub fn new() -> (r: Self) {
        FormatGrid {}
    }

    /// Returns the grid of `board`.
    #[verifier::rlimit(40)]
    pub fn format(&self, board: &Board) -> (r: String)
        ensures
            r@ == grid_text(*board),
    {
        let widths = column_widths(board);
        let border = border_of(board, &widths);
        let mut out = String::new();
        let mut r: u8 = 0;
        while r < 9
            invariant
                r <= 9,
                forall|k: int| 0 <= k < 9 ==> #[trigger] widths[k] == column_width(*board, k),
                border@ == grid_border(*board, 9),
                out@ == grid_prefix(*board, r as int),
            decreases 9 - r,
        {
            if r % 3 == 0 {
                push_all(&mut out, &border);
                push_char(&mut out, '\n');
            }
            let line = line_of(board, &widths, r);
            push_all(&mut out, &line);
            push_char(&mut out, '\n');
            proof {
                assert(out@ =~= grid_prefix(*board, r + 1));
            }
            r = r + 1;
        }
        push_all(&mut out, &border);
        proof {
            reveal_with_fuel(grid_prefix, 10);
            assert(out@ =~= grid_text(*board));
        }
        out
    }
}

/// The first `r` lines of the grid with the borders above them, each line ended.
pub open spec fn grid_prefix(board: Board, r: int) -> Seq<char>
    decreases r,
{
    if r <= 0 {
        Seq::<char>::empty()
    } else {
        grid_prefix(board, r - 1) + (if (r - 1) % 3 == 0 {
            grid_border(board, 9) + seq!['\n']
        } else {
            Seq::<char>::empty()
        }) + grid_line(board, r - 1, 9) + seq!['\n']
    }
}

/// Appends the text of `t` to `s`.
fn push_all(s: &mut String, t: &String)
    ensures
        final(s)@ == old(s)@ + t@,
{
    crate::text::push_str(s, t.as_str());
}

/// Appends `n` copies of `c` to `s`.
fn push_repeat(s: &mut String, c: char, n: usize)
    ensures
        final(s)@ == old(s)@ + Seq::new(n as nat, |i: int| c),
{
    let mut i: usize = 0;
    while i < n
        invariant
            i <= n,
            s@ == old(s)@ + Seq::new(i as nat, |k: int| c),
        decreases n - i,
    {
        push_char(s, c);
        i = i + 1;
        proof {
            assert(s@ =~= old(s)@ + Seq::new(i as nat, |k: int| c));
        }
    }
}

/// Returns the width of each column of the grid.
fn column_widths(board: &Board) -> (r: [usize; 9])
    ensures
        forall|k: int| 0 <= k < 9 ==> #[trigger] r[k] == column_width(*board, k),
        forall|k: int| 0 <= k < 9 ==> #[trigger] r[k] <= 9,
{
    let mut widths: [usize; 9] = [0; 9];
    let mut col: u8 = 0;
    while col < 9
        invariant
            col <= 9,
            forall|k: int| 0 <= k < col ==> #[trigger] widths[k] == column_width(*board, k),
            forall|k: int| 0 <= k < 9 ==> #[trigger] widths[k] <= 9,
        decreases 9 - col,
    {
        let mut best: usize = 0;
        let mut row: u8 = 0;
        while row < 9
            invariant
                row <= 9,
                col < 9,
                best == widest(*board, col as int, row as int),
                best <= 9,
            decreases 9 - row,
        {
            let cell = Cell::new(9 * row + col);
            let w = if board.is_known(cell) {
                1
            } else {
                let cands = board.candidates(cell);
                proof {
                    cands.lemma_view();
                    vstd::set_lib::lemma_int_range(0, 9);
                    vstd::set_lib::lemma_len_subset(cands@, vstd::set_lib::set_int_range(0, 9));
                }
                cands.size() as usize
            };
            if best < w {
                best = w;
            }
            row = row + 1;
        }
        widths.set(col as usize, best);
        col = col + 1;
    }
    widths
}

/// Returns the border of the grid.
fn border_of(board: &Board, widths: &[usize; 9]) -> (r: String)
    requires
        forall|k: int| 0 <= k < 9 ==> #[trigger] widths[k] == column_width(*board, k),
        forall|k: int| 0 <= k < 9 ==> #[trigger] widths[k] <= 9,
    ensures
        r@ == grid_border(*board, 9),
{
    let mut border = String::new();
    let mut col: usize = 0;
    while col < 9
        invariant
            col <= 9,
            forall|k: int| 0 <= k < 9 ==> #[trigger] widths[k] == column_width(*board, k),
            forall|k: int| 0 <= k < 9 ==> #[trigger] widths[k] <= 9,
            border@ == grid_border(*board, col as int),
        decreases 9 - col,
    {
        let ghost before = border@;
        if col % 3 == 0 {
            push_char(&mut border, '+');
            push_char(&mut border, '-');
        }
        push_repeat(&mut border, '-', widths[col] + 1);
        if col == 8 {
            push_char(&mut border, '+');
        }
        proof {
            assert(border@ =~= grid_border(*board, col + 1));
        }
        col = col + 1;
    }
    border
}

/// Returns line `r` of the grid.
fn line_of(board: &Board, widths: &[usize; 9], r: u8) -> (s: String)
    requires
        r < 9,
        forall|k: int| 0 <= k < 9 ==> #[trigger] widths[k] == column_width(*board, k),
    ensures
        s@ == grid_line(*board, r as int, 9),
{
    let mut line = String::new();
    let mut col: u8 = 0;
    while col < 9
        invariant
            col <= 9,
            r < 9,
            forall|k: int| 0 <= k < 9 ==> #[trigger] widths[k] == column_width(*board, k),
            line@ == grid_line(*board, r as int, col as int),
        decreases 9 - col,
    {
        if col % 3 == 0 {
            push_char(&mut line, '|');
            push_char(&mut line, ' ');
        }
        let text = text_of(board, Cell::new(9 * r + col));
        let n = text.unicode_len();
        push_all(&mut line, &text);
        let width = widths[col as usize];
        if n < width {
            push_repeat(&mut line, ' ', width - n);
        }
        push_char(&mut line, ' ');
        if col == 8 {
            push_char(&mut line, '|');
        }
        proof {
            assert(line@ =~= grid_line(*board, r as int, col + 1));
        }
        col = col + 1;
    }
    line
}

/// Returns the text of `cell` in the grid.
fn text_of(board: &Board, cell: Cell) -> (r: String)
    ensures
        r@ == cell_text(*board, cell@),
{
    let mut text = String::new();
    if board.is_known(cell) {
        let v = board.value(cell);
        push_char(&mut text, (48u8 + v) as char);
        proof {
            assert(text@ =~= cell_text(*board, cell@));
        }
    } else {
        let cands = board.candidates(cell);
        let mut k: u8 = 0;
        while k < 9
            invariant
                k <= 9,
                cands@ == board.candidate_sets()[cell@],
                text@ == digits_of(cands@, k as int),
            decreases 9 - k,
        {
            if cands.has(crate::layout::knowns::known::Known::from_index(k)) {
                push_char(&mut text, (49u8 + k) as char);
            }
            proof {
                assert(text@ =~= digits_of(cands@, k + 1));
            }
            k = k + 1;
        }
    }
    text
}

/// Produces a single-line string of a board's cells for SudokuWiki with the givens, the
/// solved cells and the candidates of the others.
pub struct FormatWiki {
    pub spaces: bool,
}

proof fn lemma_codes()
    by (bit_vector)
    ensures
        forall|v: u32| 1 <= v <= 9 ==> #[trigger] (1u32 << v) <= 512,
{
}

impl FormatWiki {
    /// Returns the SudokuWiki formatter, without spaces.
    pub fn new() -> (r: Self)
        ensures
            !r.spaces,
    {
        FormatWiki { spaces: false }
    }

    /// Adds a space between rows.
    pub fn spaces(self) -> (r: Self)
        ensures
            r.spaces,
    {
        FormatWiki { spaces: true }
    }

    /// Returns the SudokuWiki string of `board`.
    pub fn format(&self, board: &Board) -> (r: String)
        ensures
            r@ == wiki_text(*board, self.spaces, 81),
    {
        let mut result = String::new();
        let mut c: u8 = 0;
        while c < 81
            invariant
                c <= 81,
                result@ == wiki_text(*board, self.spaces, c as int),
            decreases 81 - c,
        {
            if self.spaces && c > 0 && c % 9 == 0 {
                push_char(&mut result, ' ');
            }
            let cell = Cell::new(c);
            let mut value: u32;
            if board.is_known(cell) {
                let v = board.value(cell) as u32;
                proof {
                    lemma_codes();
                }
                value = 1u32 << v;
                if board.is_given(cell) {
                    value = value + 1;
                }
            } else {
                let bits = board.candidates(cell).bits();
                proof {
                    let s = board.candidate_sets()[c as int];
                    assert(view16(bits) == s);
                    let w = word9(s);
                    assert(w <= MASK9 && view16(w) == s);
                    lemma_view16_ops(bits, w);
                }
                value = (bits as u32) << 1u32;
                proof {
                    assert(value == 2 * bits) by (bit_vector)
                        requires
                            bits <= 0x1ffu16,
                            value == (bits as u32) << 1u32,
                    ;
                }
            }
            if value < 32 {
                push_char(&mut result, '0');
                push_char(&mut result, digit_char32(value));
            } else {
                push_char(&mut result, digit_char32(value / 32));
                push_char(&mut result, digit_char32(value % 32));
            }
            proof {
                assert(result@ =~= wiki_text(*board, self.spaces, c + 1));
            }
            c = c + 1;
        }
        result
    }
}

/// Returns the base-32 digit of `d`.
fn digit_char32(d: u32) -> (r: char)
    requires
        d < 32,
    ensures
        r == digit32(d as int),
{
    if d < 10 {
        (48u8 + d as u8) as char
    } else {
        (87u8 + d as u8) as char
    }
}

} // verus!
