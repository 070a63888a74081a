//! Parses packed puzzle strings into boards.
use vstd::prelude::*;

use crate::layout::board::{
    after_given, after_known, can_set, candidate_view, empty_model, Board, BoardModel,
};
use crate::layout::cells::cell::Cell;
use crate::layout::knowns::known::Known;
use crate::layout::knowns::set::KnownSet;
use crate::packed::view16;

verus! {

/// Characters that only make a puzzle string easier to read.
pub open spec fn is_separator(c: char) -> bool {
    c == ' ' || c == '\r' || c == '\n' || c == '|' || c == '_'
}

/// A digit that gives a cell its value.
pub open spec fn is_clue(c: char) -> bool {
    '1' <= c <= '9'
}

/// The number of cells read from the first `n` characters: every character but the
/// separators stands for a cell.
pub open spec fn cells_read(input: Seq<char>, n: int) -> int
    decreases n,
{
    if n <= 0 {
        0
    } else {
        cells_read(input, n - 1) + if is_separator(input[n - 1]) {
            0int
        } else {
            1int
        }
    }
}

/// Every clue of `input` falls on one of the 81 cells.
pub open spec fn clues_fit(input: Seq<char>) -> bool {
    forall|k: int| 0 <= k < input.len() && is_clue(#[trigger] input[k]) ==> cells_read(input, k) < 81
}

/// The board and the refused clue, if any, after reading the first `n` characters: each
/// clue is given to its cell unless the cell holds that value already; a clue that the cell
/// cannot take, or that leaves a cell without candidates, is skipped, or ends the reading
/// when `stop` is set.
pub open spec fn packed_read(input: Seq<char>, stop: bool, n: int) -> (BoardModel, Option<(int, int)>)
    decreases n,
{
    if n <= 0 {
        (empty_model(), None)
    } else {
        let prev = packed_read(input, stop, n - 1);
        let ch = input[n - 1];
        let c = cells_read(input, n - 1);
        let k = ch as int - 49;
        let m = prev.0;
        if prev.1 is Some || !is_clue(ch) || m.2[c] == k + 1 {
            prev
        } else if can_set(m, c, k) && after_given(m, c, k).4 {
            (after_given(m, c, k), None)
        } else if stop {
            (m, Some((c, k)))
        } else {
            prev
        }
    }
}

/// Returns whether every clue of `input` falls on one of the 81 cells.
pub fn check_clues_fit(input: &str) -> (r: bool)
    ensures
        r == clues_fit(input@),
{
    let n = input.unicode_len();
    let mut cells: usize = 0;
    let mut i: usize = 0;
    while i < n
        invariant
            n == input@.len(),
            i <= n,
            cells == cells_read(input@, i as int),
            cells <= i,
            forall|k: int| 0 <= k < i && is_clue(#[trigger] input@[k]) ==> cells_read(input@, k) < 81,
        decreases n - i,
    {
        let ch = input.get_char(i);
        if '1' <= ch && ch <= '9' && cells >= 81 {
            return false;
        }
        if !(ch == ' ' || ch == '\r' || ch == '\n' || ch == '|' || ch == '_') {
            cells = cells + 1;
        }
        i = i + 1;
    }
    true
}

/// Reading a packed string leaves the board valid: each character either
/// leaves the board as it was, or gives its cell a clue that the cell can take
/// without leaving any cell without candidates. Without stopping, no clue is
/// ever reported as refused.
pub proof fn lemma_packed_read_valid(input: Seq<char>, stop: bool, n: int)
    ensures
        packed_read(input, stop, n).0.4,
        !stop ==> packed_read(input, stop, n).1 is None,
        n > 0 ==> ({
            let prev = packed_read(input, stop, n - 1).0;
            let cur = packed_read(input, stop, n).0;
            let c = cells_read(input, n - 1);
            let k = input[n - 1] as int - 49;
            cur == prev || (is_clue(input[n - 1]) && can_set(prev, c, k) && cur == after_given(prev, c, k)
                && cur.4)
        }),
    decreases n,
{
    if n > 0 {
        lemma_packed_read_valid(input, stop, n - 1);
    }
}

proof fn lemma_stopped(input: Seq<char>, stop: bool, i: int, n: int)
    requires
        0 <= i <= n,
        packed_read(input, stop, i).1 is Some,
    ensures
        packed_read(input, stop, n) == packed_read(input, stop, i),
    decreases n - i,
{
    if n > i {
        lemma_stopped(input, stop, i, n - 1);
    }
}

/// The base-32 value of the digit or letter `c`, 0 for any other character.
pub open spec fn digit_value(c: char) -> int {
    if '0' <= c <= '9' {
        c as int - 48
    } else if 'A' <= c <= 'Z' {
        c as int - 55
    } else if 'a' <= c <= 'z' {
        c as int - 87
    } else {
        0
    }
}

/// The code of cell `i` in a SudokuWiki string: two base-32 digits.
pub open spec fn wiki_value(input: Seq<char>, i: int) -> int {
    32 * digit_value(input[2 * i]) + digit_value(input[2 * i + 1])
}

/// The knowns of the code `v`: its bits above the lowest, each for a digit.
pub open spec fn wiki_knowns(v: int) -> Set<int> {
    view16((v / 2) as u16)
}

/// The reading stops at cell `i`: its code is cut short or out of range, or it marks a
/// given without a single known.
pub open spec fn wiki_break(input: Seq<char>, i: int) -> bool {
    2 * i + 2 > input.len() || wiki_value(input, i) > 1022 || (wiki_value(input, i) % 2 == 1
        && wiki_knowns(wiki_value(input, i)).len() != 1)
}

/// The only member of a set of one.
pub open spec fn single_of(s: Set<int>) -> int {
    choose|k: int| s == set![k]
}

/// The model `m` with every candidate below `j` that is not in `keep` removed from `cell`, in
/// order, and the known whose removal emptied the cell when that stops the reading.
pub open spec fn strip(m: BoardModel, cell: int, keep: Set<int>, stop: bool, j: int) -> (BoardModel, Option<int>)
    decreases j,
{
    if j <= 0 {
        (m, None)
    } else {
        let prev = strip(m, cell, keep, stop, j - 1);
        if prev.1 is Some || keep.contains(j - 1) || !prev.0.3[cell].contains(j - 1) {
            prev
        } else {
            let b = prev.0;
            let left = b.3[cell].remove(j - 1);
            let next = (b.0, b.1, b.2, b.3.update(cell, left), left != Set::<int>::empty());
            if left == Set::<int>::empty() && stop {
                (next, Some(j - 1))
            } else {
                (next, None)
            }
        }
    }
}

/// The board, the refused clue if any, and whether the reading ended, after the first `n`
/// codes of a SudokuWiki string: a code with one known sets the cell (as a given when the code
/// is odd), one with more keeps only those knowns as candidates; a value the cell cannot take
/// or that leaves a cell without candidates is refused, which ends the reading when `stop` is
/// set.
pub open spec fn wiki_read(input: Seq<char>, stop: bool, n: int) -> (BoardModel, Option<(int, int)>, bool)
    decreases n,
{
    if n <= 0 {
        (empty_model(), None, false)
    } else {
        let prev = wiki_read(input, stop, n - 1);
        let c = n - 1;
        let m = prev.0;
        if prev.1 is Some || prev.2 {
            prev
        } else if wiki_break(input, c) {
            (m, None, true)
        } else {
            let v = wiki_value(input, c);
            let knowns = wiki_knowns(v);
            if knowns.len() == 1 {
                let k = single_of(knowns);
                let next = if !can_set(m, c, k) {
                    m
                } else if v % 2 == 1 {
                    after_given(m, c, k)
                } else {
                    after_known(m, c, k)
                };
                if (!can_set(m, c, k) || !next.4) && stop {
                    (next, Some((c, k)), false)
                } else {
                    (next, None, false)
                }
            } else {
                let r = strip(m, c, knowns, stop, 9);
                match r.1 {
                    Some(k) => (r.0, Some((c, k)), false),
                    None => (r.0, None, false),
                }
            }
        }
    }
}

/// The reading of a SudokuWiki string stops before it would need an 82nd cell: at a break
/// among the first 81 codes, or with the 82nd code cut short or out of range.
pub open spec fn wiki_fits(input: Seq<char>) -> bool {
    exists|i: int|
        0 <= i <= 81 && #[trigger] wiki_break(input, i) && (i < 81 || 2 * i + 2 > input.len()
            || wiki_value(input, i) > 1022)
}

proof fn lemma_strip_done(m: BoardModel, cell: int, keep: Set<int>, stop: bool, j: int, n: int)
    requires
        0 <= j <= n,
        strip(m, cell, keep, stop, j).1 is Some,
    ensures
        strip(m, cell, keep, stop, n) == strip(m, cell, keep, stop, j),
    decreases n - j,
{
    if n > j {
        lemma_strip_done(m, cell, keep, stop, j, n - 1);
    }
}

proof fn lemma_wiki_done(input: Seq<char>, stop: bool, i: int, n: int)
    requires
        0 <= i <= n,
        wiki_read(input, stop, i).1 is Some || wiki_read(input, stop, i).2,
    ensures
        wiki_read(input, stop, n) == wiki_read(input, stop, i),
    decreases n - i,
{
    if n > i {
        lemma_wiki_done(input, stop, i, n - 1);
    }
}

proof fn lemma_wiki_break_ends(input: Seq<char>, stop: bool, n: int)
    requires
        0 <= n,
        wiki_read(input, stop, n).1 is None,
        !wiki_read(input, stop, n).2,
    ensures
        forall|i: int| 0 <= i < n ==> !#[trigger] wiki_break(input, i),
    decreases n,
{
    if n > 0 {
        lemma_wiki_break_ends(input, stop, n - 1);
    }
}

/// Returns the base-32 value of the digit or letter `c`, 0 for any other character.
fn to_decimal(c: char) -> (r: u16)
    ensures
        r == digit_value(c),
        r <= 35,
{
    if '0' <= c && c <= '9' {
        (c as u32 - 48) as u16
    } else if 'A' <= c && c <= 'Z' {
        (c as u32 - 55) as u16
    } else if 'a' <= c && c <= 'z' {
        (c as u32 - 87) as u16
    } else {
        0
    }
}

/// Parses SudokuWiki strings into boards with their givens, solved cells and candidates.
///
/// See https://www.sudokuwiki.org/Sudoku_String_Definitions for more information.
pub struct ParseWiki {
    pub stop_on_error: bool,
}

impl ParseWiki {
    /// Returns a parser that keeps reading after a refused value.
    pub fn new() -> (r: Self)
        ensures
            !r.stop_on_error,
    {
        ParseWiki { stop_on_error: false }
    }

    /// Sets the parser to stop at the first refused value.
    pub fn stop_on_error(self) -> (r: Self)
        ensures
            r.stop_on_error,
    {
        ParseWiki { stop_on_error: true }
    }

    /// Builds a new board from `input` and returns it without the refused value.
    pub fn parse_simple(&self, input: &str) -> (r: Board)
        requires
            wiki_fits(input@),
        ensures
            r.model() == wiki_read(input@, self.stop_on_error, 82).0,
    {
        self.parse(input).0
    }

    /// Builds a new board from `input` and returns it with the value that stopped the
    /// reading, if any.
    pub fn parse(&self, input: &str) -> (r: (Board, Option<(Cell, Known)>))
        requires
            wiki_fits(input@),
        ensures
            r.0.model() == wiki_read(input@, self.stop_on_error, 82).0,
            r.1 is None <==> wiki_read(input@, self.stop_on_error, 82).1 is None,
            r.1 matches Some((cell, known)) ==> wiki_read(input@, self.stop_on_error, 82).1 == Some(
                (cell@, known@),
            ),
    {
        let ghost stop = self.stop_on_error;
        let mut board = Board::new();
        let n = input.unicode_len();
        let mut c: usize = 0;
        loop
            invariant
                c <= 81,
                n == input@.len(),
                wiki_fits(input@),
                stop == self.stop_on_error,
                board.model() == wiki_read(input@, stop, c as int).0,
                wiki_read(input@, stop, c as int).1 is None,
                !wiki_read(input@, stop, c as int).2,
            ensures
                board.model() == wiki_read(input@, stop, 82).0,
                wiki_read(input@, stop, 82).1 is None,
            decreases 82 - c,
        {
            proof {
                lemma_wiki_break_ends(input@, stop, c as int);
                if c == 81 {
                    let i = choose|i: int|
                        0 <= i <= 81 && #[trigger] wiki_break(input@, i) && (i < 81 || 2 * i + 2
                            > input@.len() || wiki_value(input@, i) > 1022);
                    assert(i == 81);
                }
            }
            if 2 * c + 2 > n {
                proof {
                    assert(wiki_break(input@, c as int));
                    lemma_wiki_done(input@, stop, c + 1, 82);
                }
                break;
            }
            let value = 32 * to_decimal(input.get_char(2 * c)) + to_decimal(input.get_char(2 * c + 1));
            proof {
                assert(value == wiki_value(input@, c as int));
            }
            if value > 1022 {
                proof {
                    lemma_wiki_done(input@, stop, c + 1, 82);
                }
                break;
            }
            let given = value % 2 == 1;
            proof {
                assert(value >> 1u16 <= 511) by (bit_vector)
                    requires
                        value <= 1022,
                ;
            }
            let knowns = KnownSet::new(value >> 1u16);
            proof {
                assert(value >> 1u16 == value / 2) by (bit_vector);
                assert(knowns@ == wiki_knowns(value as int));
            }
            let cell = Cell::new(c as u8);
            if knowns.size() == 1 {
                let mut k: u8 = 0;
                while k < 9
                    invariant
                        k <= 9,
                        knowns@.len() == 1,
                        forall|j: int| 0 <= j < k ==> !knowns@.contains(j),
                    ensures
                        k <= 9,
                        k < 9 ==> knowns@.contains(k as int),
                        forall|j: int| 0 <= j < k ==> !knowns@.contains(j),
                    decreases 9 - k,
                {
                    if knowns.has(Known::from_index(k)) {
                        break;
                    }
                    k = k + 1;
                }
                proof {
                    knowns.lemma_view();
                    if k == 9 {
                        let x = knowns@.choose();
                        assert(knowns@.contains(x));
                        assert(knowns@.subset_of(vstd::set_lib::set_int_range(0, 9)));
                    }
                }
                let solved = Known::from_index(k);
                proof {
                    knowns.lemma_view();
                    assert(knowns@ =~= set![k as int]) by {
                        if exists|x: int| knowns@.contains(x) && x != k {
                            let x = choose|x: int| knowns@.contains(x) && x != k;
                            assert(set![k as int, x].subset_of(knowns@));
                            vstd::set_lib::lemma_len_subset(set![k as int, x], knowns@);
                        }
                    }
                    assert(single_of(knowns@) == k);
                }
                let fits = board.value(cell) == solved.value() || (!board.is_known(cell) && board.is_candidate(cell, solved));
                if fits {
                    if given {
                        board.set_given(cell, solved);
                    } else {
                        board.set_known(cell, solved);
                    }
                }
                if (!fits || !board.is_valid()) && self.stop_on_error {
                    proof {
                        lemma_wiki_done(input@, stop, c + 1, 82);
                    }
                    return (board, Some((cell, solved)));
                }
            } else {
                if given {
                    proof {
                        lemma_wiki_done(input@, stop, c + 1, 82);
                    }
                    break;
                }
                let ghost m0 = board.model();
                let mut j: u8 = 0;
                while j < 9
                    invariant
                        j <= 9,
                        c < 81,
                        m0 == wiki_read(input@, stop, c as int).0,
                        wiki_read(input@, stop, c as int).1 is None,
                        !wiki_read(input@, stop, c as int).2,
                        !wiki_break(input@, c as int),
                        wiki_knowns(wiki_value(input@, c as int)) == knowns@,
                        knowns@.len() != 1,
                        cell@ == c,
                        stop == self.stop_on_error,
                        board.model() == strip(m0, c as int, knowns@, stop, j as int).0,
                        strip(m0, c as int, knowns@, stop, j as int).1 is None,
                    decreases 9 - j,
                {
                    let known = Known::from_index(j);
                    if !knowns.has(known) && board.is_candidate(cell, known) {
                        board.remove_candidate(cell, known);
                        proof {
                            board.lemma_shape();
                        }
                        if !board.is_valid() && self.stop_on_error {
                            proof {
                                assert(strip(m0, c as int, knowns@, stop, j + 1).1 == Some(j as int));
                                lemma_strip_done(m0, c as int, knowns@, stop, j + 1, 9);
                                assert(!wiki_break(input@, c as int));
                                assert(wiki_knowns(wiki_value(input@, c as int)) == knowns@);
                                assert(wiki_read(input@, stop, c + 1).1 == Some((c as int, j as int)));
                                lemma_wiki_done(input@, stop, c + 1, 82);
                            }
                            return (board, Some((cell, known)));
                        }
                    }
                    j = j + 1;
                }
            }
            c = c + 1;
        }
        (board, None)
    }
}

/// The candidates of each cell, the cell being read, whether a group of digits is being
/// read, and whether the reading ended, after the first `n` characters of a grid: each group
/// of digits lists the candidates of the next cell.
pub open spec fn grid_collect(input: Seq<char>, n: int) -> (Seq<Set<int>>, int, bool, bool)
    decreases n,
{
    if n <= 0 {
        (Seq::new(81, |i: int| Set::<int>::empty()), 0, false, false)
    } else {
        let prev = grid_collect(input, n - 1);
        let ch = input[n - 1];
        if prev.3 {
            prev
        } else if is_clue(ch) {
            (prev.0.update(prev.1, prev.0[prev.1].insert(ch as int - 49)), prev.1, true, false)
        } else if prev.2 {
            (prev.0, prev.1 + 1, false, prev.1 + 1 >= 81)
        } else {
            prev
        }
    }
}

/// The board and the refused value, if any, after setting the first `n` cells from their
/// candidates `sets`: a cell with one candidate is solved, the others keep only their
/// candidates; a value the cell cannot take, or a change that leaves a cell without candidates,
/// is refused, which ends the reading when `stop` is set.
pub open spec fn grid_apply(sets: Seq<Set<int>>, stop: bool, n: int) -> (BoardModel, Option<(int, int)>)
    decreases n,
{
    if n <= 0 {
        (empty_model(), None)
    } else {
        let prev = grid_apply(sets, stop, n - 1);
        let c = n - 1;
        let m = prev.0;
        let s = sets[c];
        if prev.1 is Some {
            prev
        } else if s.len() == 1 {
            let k = single_of(s);
            let next = if can_set(m, c, k) {
                after_known(m, c, k)
            } else {
                m
            };
            if (!can_set(m, c, k) || !next.4) && stop {
                (next, Some((c, k)))
            } else {
                (next, None)
            }
        } else {
            let r = strip(m, c, s, stop, 9);
            match r.1 {
                Some(k) => (r.0, Some((c, k))),
                None => (r.0, None),
            }
        }
    }
}

proof fn lemma_grid_done(sets: Seq<Set<int>>, stop: bool, i: int, n: int)
    requires
        0 <= i <= n,
        grid_apply(sets, stop, i).1 is Some,
    ensures
        grid_apply(sets, stop, n) == grid_apply(sets, stop, i),
    decreases n - i,
{
    if n > i {
        lemma_grid_done(sets, stop, i, n - 1);
    }
}

proof fn lemma_collect_ended(input: Seq<char>, i: int, n: int)
    requires
        0 <= i <= n,
        grid_collect(input, i).3,
    ensures
        grid_collect(input, n) == grid_collect(input, i),
    decreases n - i,
{
    if n > i {
        lemma_collect_ended(input, i, n - 1);
    }
}

proof fn lemma_collect_bounds(input: Seq<char>, n: int)
    requires
        0 <= n,
    ensures
        grid_collect(input, n).0.len() == 81,
        0 <= grid_collect(input, n).1 <= 81,
        !grid_collect(input, n).3 ==> grid_collect(input, n).1 < 81,
        forall|c: int| 0 <= c < 81 ==> (#[trigger] grid_collect(input, n).0[c]).subset_of(vstd::set_lib::set_int_range(0, 9)),
    decreases n,
{
    if n > 0 {
        lemma_collect_bounds(input, n - 1);
    }
}

/// Returns the one member of `set`, which must hold exactly one.
fn sole_known(set: &KnownSet) -> (r: Known)
    requires
        set@.len() == 1,
    ensures
        set@ == set![r@],
        r@ == single_of(set@),
{
    let mut k: u8 = 0;
    while k < 9
        invariant
            k <= 9,
            set@.len() == 1,
            forall|j: int| 0 <= j < k ==> !set@.contains(j),
        ensures
            k <= 9,
            k < 9 ==> set@.contains(k as int),
            forall|j: int| 0 <= j < k ==> !set@.contains(j),
        decreases 9 - k,
    {
        if set.has(Known::from_index(k)) {
            break;
        }
        k = k + 1;
    }
    proof {
        set.lemma_view();
        if k == 9 {
            let x = set@.choose();
            assert(set@.contains(x));
            assert(set@.subset_of(vstd::set_lib::set_int_range(0, 9)));
        }
        assert(set@ =~= set![k as int]) by {
            if exists|x: int| set@.contains(x) && x != k {
                let x = choose|x: int| set@.contains(x) && x != k;
                assert(set![k as int, x].subset_of(set@));
                vstd::set_lib::lemma_len_subset(set![k as int, x], set@);
            }
        }
    }
    Known::from_index(k)
}

/// Parses grids of candidates into boards with the exact solved cells and candidates.
pub struct ParseGrid {
    stop_on_error: bool,
}

impl ParseGrid {
    /// Whether this parser stops at the first refused value.
    pub closed spec fn stops(&self) -> bool {
        self.stop_on_error
    }

    /// Returns a parser that keeps reading after a refused value.
    pub fn new() -> (r: Self)
        ensures
            !r.stops(),
    {
        ParseGrid { stop_on_error: false }
    }

    /// Sets the parser to stop at the first refused value.
    pub fn stop_on_error(self) -> (r: Self)
        ensures
            r.stops(),
    {
        ParseGrid { stop_on_error: true }
    }

    /// Builds a new board from `input` and returns it without the refused value.
    pub fn parse_simple(&self, input: &str) -> (r: Board)
        ensures
            r.model() == grid_apply(grid_collect(input@, input@.len() as int).0, self.stops(), 81).0,
    {
        self.parse(input).0
    }

    /// Builds a new board from `input` and returns it with the value that stopped the
    /// reading, if any.
    pub fn parse(&self, input: &str) -> (r: (Board, Option<(Cell, Known)>))
        ensures
            ({
                let read = grid_apply(grid_collect(input@, input@.len() as int).0, self.stops(), 81);
                &&& r.0.model() == read.0
                &&& r.1 is None <==> read.1 is None
                &&& r.1 matches Some((cell, known)) ==> read.1 == Some((cell@, known@))
            }),
    {
        let ghost stop = self.stop_on_error;
        let n = input.unicode_len();
        let mut candidates = [KnownSet::empty();81];
        let mut c: usize = 0;
        let mut collecting = false;
        let mut i: usize = 0;
        proof {
            assert(candidate_view(candidates) =~= grid_collect(input@, 0).0);
        }
        while i < n
            invariant_except_break
                c < 81,
                grid_collect(input@, i as int) == (candidate_view(candidates), c as int, collecting, false),
            invariant
                i <= n,
                n == input@.len(),
            ensures
                grid_collect(input@, n as int).0 == candidate_view(candidates),
            decreases n - i,
        {
            let ch = input.get_char(i);
            if '1' <= ch && ch <= '9' {
                collecting = true;
                let mut set = candidates[c];
                set.add(Known::from_char(ch));
                candidates.set(c, set);
                proof {
                    assert(candidate_view(candidates) =~= grid_collect(input@, i + 1).0);
                }
            } else if collecting {
                collecting = false;
                c = c + 1;
                if c >= 81 {
                    proof {
                        assert(grid_collect(input@, i + 1).3);
                        assert(grid_collect(input@, i + 1).0 == candidate_view(candidates));
                        lemma_collect_ended(input@, i + 1, n as int);
                    }
                    break;
                }
            }
            i = i + 1;
        }
        let ghost sets = candidate_view(candidates);
        let mut board = Board::new();
        let mut c: u8 = 0;
        while c < 81
            invariant
                c <= 81,
                stop == self.stop_on_error,
                sets == candidate_view(candidates),
                sets == grid_collect(input@, input@.len() as int).0,
                board.model() == grid_apply(sets, stop, c as int).0,
                grid_apply(sets, stop, c as int).1 is None,
            decreases 81 - c,
        {
            let cell = Cell::new(c);
            let knowns = candidates[c as usize];
            proof {
                assert(knowns@ == sets[c as int]);
            }
            if knowns.size() == 1 {
                let solved = sole_known(&knowns);
                proof {
                    board.lemma_shape();
                }
                let fits = board.value(cell) == solved.value() || (!board.is_known(cell) && board.is_candidate(cell, solved));
                if fits {
                    board.set_known(cell, solved);
                }
                if (!fits || !board.is_valid()) && self.stop_on_error {
                    proof {
                        lemma_grid_done(sets, stop, c + 1, 81);
                    }
                    return (board, Some((cell, solved)));
                }
            } else {
                let ghost m0 = board.model();
                let mut j: u8 = 0;
                while j < 9
                    invariant
                        j <= 9,
                        c < 81,
                        cell@ == c,
                        stop == self.stop_on_error,
                        m0 == grid_apply(sets, stop, c as int).0,
                        sets == grid_collect(input@, input@.len() as int).0,
                        grid_apply(sets, stop, c as int).1 is None,
                        knowns@ == sets[c as int],
                        knowns@.len() != 1,
                        board.model() == strip(m0, c as int, knowns@, stop, j as int).0,
                        strip(m0, c as int, knowns@, stop, j as int).1 is None,
                    decreases 9 - j,
                {
                    let known = Known::from_index(j);
                    proof {
                        board.lemma_shape();
                    }
                    if !knowns.has(known) && board.is_candidate(cell, known) {
                        board.remove_candidate(cell, known);
                        if !board.is_valid() && self.stop_on_error {
                            proof {
                                assert(strip(m0, c as int, knowns@, stop, j + 1).1 == Some(j as int));
                                lemma_strip_done(m0, c as int, knowns@, stop, j + 1, 9);
                                assert(grid_apply(sets, stop, c + 1).1 == Some((c as int, j as int)));
                                lemma_grid_done(sets, stop, c + 1, 81);
                            }
                            return (board, Some((cell, known)));
                        }
                    }
                    j = j + 1;
                }
            }
            c = c + 1;
        }
        (board, None)
    }
}

/// Provides the parsers of the supported string formats.
pub struct Parse {}

impl Parse {
    /// Returns a packed parser that skips the clues it cannot set.
    pub fn packed() -> (r: ParsePacked)
        ensures
            !r.stop_on_error,
    {
        ParsePacked::new()
    }

    /// Returns a grid parser that keeps reading after a refused value.
    pub fn grid() -> (r: ParseGrid)
        ensures
            !r.stops(),
    {
        ParseGrid::new()
    }

    /// Returns a SudokuWiki parser that keeps reading after a refused value.
    pub fn wiki() -> (r: ParseWiki)
        ensures
            !r.stop_on_error,
    {
        ParseWiki::new()
    }

    /// Returns a packed parser that stops at the first clue it cannot set when
    /// `stop_on_error` is set.
    pub fn packed_with_options(stop_on_error: bool) -> (r: ParsePacked)
        ensures
            r.stop_on_error == stop_on_error,
    {
        ParsePacked::new_with_options(stop_on_error)
    }
}

/// Parses packed puzzle strings into boards, optionally stopping at the first clue that
/// cannot be set.
pub struct ParsePacked {
    pub stop_on_error: bool,
}

impl ParsePacked {
    /// Returns a parser that skips the clues it cannot set.
    pub fn new() -> (r: Self)
        ensures
            !r.stop_on_error,
    {
        ParsePacked { stop_on_error: false }
    }

    /// Returns a parser that stops at the first clue it cannot set when `stop_on_error` is
    /// set.
    pub fn new_with_options(stop_on_error: bool) -> (r: Self)
        ensures
            r.stop_on_error == stop_on_error,
    {
        ParsePacked { stop_on_error }
    }

    /// Builds a new board from `input` and returns it without the refused clue.
    pub fn parse_simple(&self, input: &str) -> (r: Board)
        requires
            clues_fit(input@),
        ensures
            r.model() == packed_read(input@, self.stop_on_error, input@.len() as int).0,
    {
        self.parse(input).0
    }

    /// Builds a new board from `input` and returns it with the clue that stopped the reading,
    /// if any.
    ///
    /// - Use a digit (1 to 9) to set a cell's value.
    /// - Use whitespace, pipes, and underscores for readability.
    /// - Use any other character to leave a cell unsolved.
    pub fn parse(&self, input: &str) -> (r: (Board, Option<(Cell, Known)>))
        requires
            clues_fit(input@),
        ensures
            r.0.model() == packed_read(input@, self.stop_on_error, input@.len() as int).0,
            r.1 is None <==> packed_read(input@, self.stop_on_error, input@.len() as int).1 is None,
            r.1 matches Some((cell, known)) ==> packed_read(
                input@,
                self.stop_on_error,
                input@.len() as int,
            ).1 == Some((cell@, known@)),
    {
        let mut board = Board::new();
        let n = input.unicode_len();
        let mut c: usize = 0;
        let mut i: usize = 0;
        while i < n
            invariant
                i <= n,
                n == input@.len(),
                clues_fit(input@),
                c == cells_read(input@, i as int),
                c <= i,
                board.model() == packed_read(input@, self.stop_on_error, i as int).0,
                board.valid(),
                packed_read(input@, self.stop_on_error, i as int).1 is None,
            decreases n - i,
        {
            let ch = input.get_char(i);
            if ch == ' ' || ch == '\r' || ch == '\n' || ch == '|' || ch == '_' {
                i = i + 1;
                continue;
            }
            if '1' <= ch && ch <= '9' {
                proof {
                    assert(is_clue(input@[i as int]));
                }
                let cell = Cell::new(c as u8);
                let known = Known::from_char(ch);
                let ghost m = board.model();
                proof {
                    board.lemma_shape();
                }
                if board.value(cell) != known.value() {
                    let fits = board.is_known(cell) == false && board.is_candidate(cell, known);
                    let mut next = board;
                    if fits {
                        next.set_given(cell, known);
                    }
                    if fits && next.is_valid() {
                        board = next;
                    } else if self.stop_on_error {
                        proof {
                            assert(packed_read(input@, self.stop_on_error, i + 1).1 == Some((c as int, known@)));
                            lemma_stopped(input@, self.stop_on_error, i + 1, n as int);
                        }
                        return (board, Some((cell, known)));
                    }
                }
            }
            c = c + 1;
            i = i + 1;
        }
        (board, None)
    }
}

} // verus!
