//! Shared command processing for console and TUI play modes.
use vstd::prelude::*;

use crate::layout::cells::cell::{cell_parsed, two_bytes_two_chars, Cell, CellError};
use crate::text::{all_ascii, ascii_upper, byte_len, lemma_byte_len_bounds, utf8_byte_len};
use crate::layout::cells::cell_set::CellSet;
use crate::layout::values::digit::{digit_parsed, Digit, DigitError};
use crate::layout::values::digit_set::{digit_set_parsed, DigitSet, DigitSetError};
use crate::io::numbers::{number_of, parse_usize};
use crate::puzzle::action::{strategy_label, Strategy};
use crate::text::{push_str, split_words, string_of, texts, to_uppercase, trim, trimmed, uppercase, words};

verus! {

/// How a new puzzle is to be entered.
#[derive(Debug, Clone, Copy, PartialEq, Eq, Structural)]
pub enum NewPuzzleInput {
    Cancel,
    Empty,
    Puzzle,
}

/// What to print of the board.
#[derive(Debug, Clone, Copy, PartialEq, Eq)]
pub enum PrintTarget {
    Givens,
    Solved,
    Candidate(Digit),
}

/// The stage of creating a puzzle that a progress report is about.
#[derive(Debug, Clone, Copy, PartialEq, Eq, Structural)]
pub enum ProgressStage {
    Generate,
    Find,
}

/// What to limit a search for deductions to.
#[derive(Debug, Clone, Copy, PartialEq, Eq)]
pub enum FindFilter {
    Cell(Cell),
    Digit(Digit),
    Strategy(Strategy),
}

/// A command entered while playing.
#[derive(Debug, Clone, PartialEq, Eq)]
pub enum PlayCommand {
    ToggleOptions(Option<String>),
    NewPuzzle { input: NewPuzzleInput, puzzle: Option<String> },
    CreatePuzzle,
    Print(Option<PrintTarget>),
    Export(Option<char>),
    Wiki,
    Grid,
    SetGiven { cells: CellSet, digit: Digit },
    Solve { cells: CellSet, digit: Digit },
    Erase { cells: CellSet, digits: DigitSet },
    Find(Option<FindFilter>),
    Highlight { index: usize },
    Apply(Option<usize>),
    Verify,
    Bingo,
    Reset,
    Undo,
    Redo,
    Help,
    Quit,
}

/// Text shown over the board.
#[derive(Debug, Clone, PartialEq, Eq)]
pub enum Overlay {
    Help(String),
    Board { title: &'static str, lines: Vec<String> },
    Text { title: &'static str, lines: Vec<String> },
}

/// What a command produced for the player to see.
#[derive(Debug)]
pub struct PlayOutput {
    pub messages: Vec<String>,
    pub overlay: Option<Overlay>,
    pub board_changed: bool,
    pub show_board: bool,
    pub quit: bool,
}

impl Default for PlayOutput {
    fn default() -> (r: Self)
        ensures
            r.messages@ == Seq::<String>::empty(),
            r.overlay is None,
            !r.board_changed,
            !r.show_board,
            !r.quit,
    {
        PlayOutput {
            messages: Vec::new(),
            overlay: None,
            board_changed: false,
            show_board: false,
            quit: false,
        }
    }
}

impl PlayOutput {
    /// Returns this output with `message` added after its messages.
    pub fn message(self, message: String) -> (r: Self)
        ensures
            r.messages@ == self.messages@.push(message),
            r.overlay == self.overlay,
            r.board_changed == self.board_changed,
            r.show_board == self.show_board,
            r.quit == self.quit,
    {
        let mut r = self;
        r.messages.push(message);
        r
    }

    /// Returns this output with `overlay` shown.
    pub fn with_overlay(self, overlay: Overlay) -> (r: Self)
        ensures
            r.messages == self.messages,
            r.overlay == Some(overlay),
            r.board_changed == self.board_changed,
            r.show_board == self.show_board,
            r.quit == self.quit,
    {
        let mut r = self;
        r.overlay = Some(overlay);
        r
    }

    /// Returns this output with the board shown.
    pub fn with_show_board(self) -> (r: Self)
        ensures
            r.messages == self.messages,
            r.overlay == self.overlay,
            r.board_changed == self.board_changed,
            r.show_board,
            r.quit == self.quit,
    {
        let mut r = self;
        r.show_board = true;
        r
    }
}

/// Why a command line could not be read.
#[derive(Debug, Clone, PartialEq, Eq)]
pub enum PlayError {
    MissingArguments(&'static str),
    InvalidArguments(String),
    UnknownCommand(String),
}

impl PlayError {
    /// The message that describes this error, as text.
    pub open spec fn message(&self) -> Seq<char> {
        match self {
            PlayError::MissingArguments(msg) => msg@,
            PlayError::InvalidArguments(msg) => msg@,
            PlayError::UnknownCommand(cmd) => "Unknown command: "@ + cmd@,
        }
    }

    /// The message that describes this error.
    pub fn to_string(&self) -> (r: String)
        ensures
            r@ == self.message(),
    {
        match self {
            PlayError::MissingArguments(msg) => crate::text::string_of(msg),
            PlayError::InvalidArguments(msg) => crate::text::string_of(msg.as_str()),
            PlayError::UnknownCommand(cmd) => {
                let mut s = crate::text::string_of("Unknown command: ");
                crate::text::push_str(&mut s, cmd.as_str());
                s
            },
        }
    }
}

/// The help shown to the player.
pub const PLAY_HELP: &'static str = "==> Help\n\n  O [option]                    - view or toggle an option\n  N                             - start or input a new puzzle\n  C                             - create a new random puzzle\n\n  P [G | S | digit]             - print the full puzzle (or givens, solutions, or single candidate)\n  X [char]                      - export the puzzle with optional character for unsolved cells\n  W                             - print URL to play on SudokuWiki.org\n  M                             - print the puzzle as a grid suitable for email\n\n  G <cells> <digit>             - set the given (clue) for the cell(s)\n  S <cells> <digit>             - solve the cell(s)\n  E <cells> <digits>            - erase the candidate(s) from the cell(s)\n\n  F [cell | digit | strategy]   - find deductions\n  H <num>                       - highlight a single deduction\n  A [num]                       - apply a single or all deductions\n  V                             - verify that puzzle is solvable\n  B                             - use Bowman's Bingo to solve the puzzle if possible\n  R                             - reset candidates based on solved cells\n  Z                             - undo last change\n  Y                             - redo last change\n\n  ?                             - this help message\n  Q                             - quit\n\n          <option> - H, N or I\n          <cell>   - A1 to J9\n          <digit>  - 1 to 9\n          <num>    - any positive number\n          <char>   - any single character\n          [...]    - optional\n\n  Commands and cells are case-insensitive - \"s a2 4\" and \"E D8 6\" are fine\n";

/// Returns the help shown to the player.
pub fn play_help_text() -> (r: String)
    ensures
        r@ == PLAY_HELP@,
{
    crate::text::string_of(PLAY_HELP)
}

/// The `k`-th label of a token of cell labels written one after another: two
/// characters, or the one left over at the end.
pub open spec fn chunk(token: Seq<char>, k: int) -> Seq<char> {
    token.subrange(
        2 * k,
        if 2 * k + 2 <= token.len() {
            2 * k + 2
        } else {
            token.len() as int
        },
    )
}

/// The number of labels in a token of cell labels.
pub open spec fn chunk_count(token: Seq<char>) -> int {
    (token.len() as int + 1) / 2
}

/// `label` names a cell.
pub open spec fn names_cell(label: Seq<char>) -> bool {
    exists|c: Cell| cell_parsed(label, Ok(c))
}

/// `r` is what parsing `token` as cell labels written one after another gives:
/// the cells named, or the error for the first label that names none.
pub open spec fn cells_parsed(token: Seq<char>, r: Result<CellSet, CellError>) -> bool {
    &&& (forall|k: int| 0 <= k < chunk_count(token) ==> names_cell(#[trigger] chunk(token, k)))
        <==> r is Ok
    &&& r matches Ok(set) ==> set@ == Set::new(
        |c: int|
            exists|k: int, cell: Cell|
                0 <= k < chunk_count(token) && #[trigger] cell_parsed(chunk(token, k), Ok(cell))
                    && cell@ == c,
    )
    &&& r matches Err(e) ==> exists|k: int|
        0 <= k < chunk_count(token) && (forall|j: int|
            0 <= j < k ==> names_cell(#[trigger] chunk(token, j))) && cell_parsed(
            #[trigger] chunk(token, k),
            Err(e),
        )
}

/// Parsing a label gives one cell at most.
proof fn lemma_cell_parsed_unique(label: Seq<char>, a: Cell, b: Cell)
    requires
        cell_parsed(label, Ok(a)),
        cell_parsed(label, Ok(b)),
    ensures
        a == b,
{
    Cell::lemma_view_eq(a, b);
}

/// A wrong length reported for a label of two characters at most fits in a word.
proof fn lemma_short_label(e: CellError)
    requires
        e matches CellError::WrongLength(l) ==> l@.len() <= 2,
    ensures
        e matches CellError::WrongLength(l) ==> byte_len(l@) <= usize::MAX,
{
    if let CellError::WrongLength(l) = e {
        lemma_byte_len_bounds(l@);
    }
}

/// Returns the cells named by `token`, cell labels written one after another.
pub fn parse_cells(token: &str) -> (r: Result<CellSet, CellError>)
    ensures
        cells_parsed(token@, r),
        r matches Err(CellError::WrongLength(l)) ==> l@.len() <= 2,
{
    let n = token.unicode_len();
    let mut set = CellSet::empty();
    let mut k: usize = 0;
    let mut start: usize = 0;
    while start < n
        invariant
            n == token@.len(),
            start <= n,
            2 * k <= n + 1,
            start == (if 2 * k <= n {
                2 * k
            } else {
                n as int
            }),
            forall|j: int| 0 <= j < k ==> names_cell(#[trigger] chunk(token@, j)),
            set@ == Set::new(
                |c: int|
                    exists|j: int, cell: Cell|
                        0 <= j < k && #[trigger] cell_parsed(chunk(token@, j), Ok(cell)) && cell@
                            == c,
            ),
        decreases n - start,
    {
        let end = if n - start >= 2 {
            start + 2
        } else {
            n
        };
        let label = token.substring_char(start, end);
        let ghost before = set@;
        let t = trim(label);
        proof {
            lemma_byte_len_bounds(t@);
            crate::text::lemma_trimmed_len(label@);
        }
        if t.unicode_len() == 1 && utf8_byte_len(t) == 2 {
            let e = CellError::WrongLength(string_of(t));
            proof {
                assert(label@ == chunk(token@, k as int));
                assert(cell_parsed(chunk(token@, k as int), Err(e)));
                assert(!names_cell(chunk(token@, k as int)));
            }
            return Err(e);
        }
        match Cell::try_from(label) {
            Ok(cell) => {
                set.add(cell);
                proof {
                    assert(label@ == chunk(token@, k as int));
                    assert(cell_parsed(chunk(token@, k as int), Ok(cell)));
                    let next = Set::new(
                        |c: int|
                            exists|j: int, x: Cell|
                                0 <= j < k + 1 && #[trigger] cell_parsed(chunk(token@, j), Ok(x))
                                    && x@ == c,
                    );
                    assert forall|c: int| set@.contains(c) == next.contains(c) by {
                        if c == cell@ {
                            assert(cell_parsed(chunk(token@, k as int), Ok(cell)));
                        }
                        if next.contains(c) {
                            let (j, x) = choose|j: int, x: Cell|
                                0 <= j < k + 1 && #[trigger] cell_parsed(chunk(token@, j), Ok(x))
                                    && x@ == c;
                            if j == k {
                                lemma_cell_parsed_unique(chunk(token@, j), x, cell);
                            } else {
                                assert(before.contains(c));
                            }
                        }
                    }
                    assert(set@ =~= next);
                }
            },
            Err(e) => {
                proof {
                    assert(label@ == chunk(token@, k as int));
                    assert(!names_cell(chunk(token@, k as int)));
                }
                return Err(e);
            },
        }
        k += 1;
        start = end;
    }
    proof {
        assert(k as int == chunk_count(token@));
        assert(set@ =~= Set::new(
            |c: int|
                exists|j: int, cell: Cell|
                    0 <= j < chunk_count(token@) && #[trigger] cell_parsed(chunk(token@, j), Ok(cell))
                        && cell@ == c,
        ));
    }
    Ok(set)
}

/// The number written in `word`, or zero where it holds none.
pub open spec fn number_or_zero(word: Seq<char>) -> nat {
    match number_of(word) {
        Some(n) => n,
        None => 0,
    }
}

/// `r` is the command `P` with the words `parts`.
pub open spec fn print_parsed(parts: Seq<Seq<char>>, r: Result<PlayCommand, PlayError>) -> bool {
    if parts.len() >= 2 {
        let c = parts[1][0];
        if c == 'G' {
            r == Ok::<PlayCommand, PlayError>(PlayCommand::Print(Some(PrintTarget::Givens)))
        } else if c == 'S' {
            r == Ok::<PlayCommand, PlayError>(PlayCommand::Print(Some(PrintTarget::Solved)))
        } else if '1' <= c <= '9' {
            r matches Ok(PlayCommand::Print(Some(PrintTarget::Candidate(d)))) && d@ == c as int - 49
        } else {
            r matches Err(PlayError::InvalidArguments(m)) && m@ == "Invalid candidate \""@ + seq![c]
                + "\""@
        }
    } else {
        r == Ok::<PlayCommand, PlayError>(PlayCommand::Print(None))
    }
}

/// `r` is the command `G` (where `given`) or `S` with the words `parts`.
pub open spec fn placing_parsed(
    parts: Seq<Seq<char>>,
    given: bool,
    r: Result<PlayCommand, PlayError>,
) -> bool {
    if parts.len() != 3 {
        r matches Err(PlayError::MissingArguments(m)) && m@ == (if given {
            "G <cells> <digit>"@
        } else {
            "S <cells> <digit>"@
        })
    } else {
        ||| exists|e: CellError|
            cells_parsed(parts[1], Err(e)) && (r matches Err(PlayError::InvalidArguments(m)) && m@
                == "Bad input: "@ + e.message())
        ||| exists|cells: CellSet, e: DigitError|
            cells_parsed(parts[1], Ok(cells)) && digit_parsed(parts[2], Err(e)) && (r matches Err(
                PlayError::InvalidArguments(m),
            ) && m@ == "Bad input: "@ + e.message())
        ||| exists|cells: CellSet, digit: Digit|
            cells_parsed(parts[1], Ok(cells)) && digit_parsed(parts[2], Ok(digit)) && r == (if given {
                Ok::<PlayCommand, PlayError>(PlayCommand::SetGiven { cells, digit })
            } else {
                Ok::<PlayCommand, PlayError>(PlayCommand::Solve { cells, digit })
            })
    }
}

/// `r` is the command `E` with the words `parts`.
pub open spec fn erase_parsed(parts: Seq<Seq<char>>, r: Result<PlayCommand, PlayError>) -> bool {
    if parts.len() != 3 {
        r matches Err(PlayError::MissingArguments(m)) && m@ == "E <cells> <digits>"@
    } else {
        ||| exists|e: CellError|
            cells_parsed(parts[1], Err(e)) && (r matches Err(PlayError::InvalidArguments(m)) && m@
                == "Bad input: "@ + e.message())
        ||| exists|cells: CellSet, e: DigitSetError|
            cells_parsed(parts[1], Ok(cells)) && digit_set_parsed(parts[2], Err(e)) && (r matches Err(
                PlayError::InvalidArguments(m),
            ) && m@ == "Bad input: "@ + e.message())
        ||| exists|cells: CellSet, digits: DigitSet|
            cells_parsed(parts[1], Ok(cells)) && digit_set_parsed(parts[2], Ok(digits)) && r
                == Ok::<PlayCommand, PlayError>(PlayCommand::Erase { cells, digits })
    }
}

/// `r` is the command `F` with the words `parts`: a word of one character is
/// tried as a digit, then one of two characters as a cell, then any word as the
/// name of a strategy.
pub open spec fn find_parsed(parts: Seq<Seq<char>>, r: Result<PlayCommand, PlayError>) -> bool {
    if parts.len() == 2 {
        let t = parts[1];
        if byte_len(t) == 1 && exists|d: Digit| digit_parsed(t, Ok(d)) {
            exists|d: Digit|
                digit_parsed(t, Ok(d)) && r == Ok::<PlayCommand, PlayError>(
                    PlayCommand::Find(Some(FindFilter::Digit(d))),
                )
        } else if two_bytes_two_chars(t) && exists|c: Cell| cell_parsed(t, Ok(c)) {
            exists|c: Cell|
                cell_parsed(t, Ok(c)) && r == Ok::<PlayCommand, PlayError>(
                    PlayCommand::Find(Some(FindFilter::Cell(c))),
                )
        } else if exists|s: Strategy| strategy_label(s) == t {
            exists|s: Strategy|
                strategy_label(s) == t && r == Ok::<PlayCommand, PlayError>(
                    PlayCommand::Find(Some(FindFilter::Strategy(s))),
                )
        } else {
            r matches Err(PlayError::InvalidArguments(m)) && m@ == "Unknown strategy: "@ + t
        }
    } else {
        r == Ok::<PlayCommand, PlayError>(PlayCommand::Find(None))
    }
}

/// `r` is the command that the words `parts` give: the first word picks the
/// command, the others are its arguments.
pub open spec fn parsed(parts: Seq<Seq<char>>, r: Result<PlayCommand, PlayError>) -> bool {
    let w = parts[0];
    let n = parts.len();
    if w == seq!['O'] {
        r matches Ok(PlayCommand::ToggleOptions(o)) && (if n >= 2 {
            o matches Some(s) && s@ == parts[1]
        } else {
            o is None
        })
    } else if w == seq!['N'] {
        r == Ok::<PlayCommand, PlayError>(
            PlayCommand::NewPuzzle { input: NewPuzzleInput::Puzzle, puzzle: None },
        )
    } else if w == seq!['C'] {
        r == Ok::<PlayCommand, PlayError>(PlayCommand::CreatePuzzle)
    } else if w == seq!['P'] {
        print_parsed(parts, r)
    } else if w == seq!['X'] {
        r == Ok::<PlayCommand, PlayError>(
            PlayCommand::Export(
                if n >= 2 {
                    Some(parts[1][0])
                } else {
                    None
                },
            ),
        )
    } else if w == seq!['W'] {
        r == Ok::<PlayCommand, PlayError>(PlayCommand::Wiki)
    } else if w == seq!['M'] {
        r == Ok::<PlayCommand, PlayError>(PlayCommand::Grid)
    } else if w == seq!['G'] {
        placing_parsed(parts, true, r)
    } else if w == seq!['S'] {
        placing_parsed(parts, false, r)
    } else if w == seq!['E'] {
        erase_parsed(parts, r)
    } else if w == seq!['F'] {
        find_parsed(parts, r)
    } else if w == seq!['H'] {
        if n != 2 {
            r matches Err(PlayError::MissingArguments(m)) && m@ == "H <num>"@
        } else {
            r matches Ok(PlayCommand::Highlight { index }) && index == number_or_zero(parts[1])
        }
    } else if w == seq!['A'] {
        r matches Ok(PlayCommand::Apply(i)) && (if n >= 2 {
            i matches Some(index) && index == number_or_zero(parts[1])
        } else {
            i is None
        })
    } else if w == seq!['V'] {
        r == Ok::<PlayCommand, PlayError>(PlayCommand::Verify)
    } else if w == seq!['B'] {
        r == Ok::<PlayCommand, PlayError>(PlayCommand::Bingo)
    } else if w == seq!['R'] {
        r == Ok::<PlayCommand, PlayError>(PlayCommand::Reset)
    } else if w == seq!['Z'] {
        r == Ok::<PlayCommand, PlayError>(PlayCommand::Undo)
    } else if w == seq!['Y'] {
        r == Ok::<PlayCommand, PlayError>(PlayCommand::Redo)
    } else if w == seq!['?'] {
        r == Ok::<PlayCommand, PlayError>(PlayCommand::Help)
    } else if w == seq!['Q'] {
        r == Ok::<PlayCommand, PlayError>(PlayCommand::Quit)
    } else {
        r matches Err(PlayError::UnknownCommand(c)) && c@ == w
    }
}

/// Returns "Bad input: " followed by `message`.
fn bad_input(message: String) -> (r: PlayError)
    ensures
        r matches PlayError::InvalidArguments(m) && m@ == "Bad input: "@ + message@,
{
    let mut m = string_of("Bad input: ");
    push_str(&mut m, message.as_str());
    PlayError::InvalidArguments(m)
}

/// Returns the number written in `word`, or zero where it holds none.
fn number_or_zero_of(word: &str) -> (r: usize)
    ensures
        r == number_or_zero(word@),
{
    match parse_usize(word) {
        Some(n) => n,
        None => 0,
    }
}

fn parse_print(parts: &Vec<&str>) -> (r: Result<PlayCommand, PlayError>)
    requires
        forall|k: int| 0 <= k < parts.len() ==> (#[trigger] parts[k])@.len() > 0,
    ensures
        print_parsed(texts(parts@), r),
{
    if parts.len() >= 2 {
        proof {
            assert(texts(parts@)[1] == parts[1]@);
        }
        let c = parts[1].get_char(0);
        if c == 'G' {
            Ok(PlayCommand::Print(Some(PrintTarget::Givens)))
        } else if c == 'S' {
            Ok(PlayCommand::Print(Some(PrintTarget::Solved)))
        } else if '1' <= c && c <= '9' {
            match Digit::try_from(c) {
                Ok(d) => Ok(PlayCommand::Print(Some(PrintTarget::Candidate(d)))),
                Err(e) => Err(bad_input(e.to_string())),
            }
        } else {
            let mut m = string_of("Invalid candidate \"");
            crate::text::push_char(&mut m, c);
            push_str(&mut m, "\"");
            proof {
                assert("Invalid candidate \""@.push(c) =~= "Invalid candidate \""@ + seq![c]);
            }
            Err(PlayError::InvalidArguments(m))
        }
    } else {
        Ok(PlayCommand::Print(None))
    }
}

fn parse_placing(parts: &Vec<&str>, given: bool) -> (r: Result<PlayCommand, PlayError>)
    ensures
        placing_parsed(texts(parts@), given, r),
{
    if parts.len() != 3 {
        return Err(PlayError::MissingArguments(
            if given {
                "G <cells> <digit>"
            } else {
                "S <cells> <digit>"
            },
        ));
    }
    proof {
        assert(texts(parts@)[1] == parts[1]@);
        assert(texts(parts@)[2] == parts[2]@);
    }
    let cells = match parse_cells(parts[1]) {
        Ok(cells) => cells,
        Err(e) => {
            proof {
                lemma_short_label(e);
            }
            return Err(bad_input(e.to_string()));
        },
    };
    let digit = match Digit::from_str(parts[2]) {
        Ok(digit) => digit,
        Err(e) => return Err(bad_input(e.to_string())),
    };
    if given {
        Ok(PlayCommand::SetGiven { cells, digit })
    } else {
        Ok(PlayCommand::Solve { cells, digit })
    }
}

fn parse_erase(parts: &Vec<&str>) -> (r: Result<PlayCommand, PlayError>)
    ensures
        erase_parsed(texts(parts@), r),
{
    if parts.len() != 3 {
        return Err(PlayError::MissingArguments("E <cells> <digits>"));
    }
    proof {
        assert(texts(parts@)[1] == parts[1]@);
        assert(texts(parts@)[2] == parts[2]@);
    }
    let cells = match parse_cells(parts[1]) {
        Ok(cells) => cells,
        Err(e) => {
            proof {
                lemma_short_label(e);
            }
            return Err(bad_input(e.to_string()));
        },
    };
    let digits = match DigitSet::try_from(parts[2]) {
        Ok(digits) => digits,
        Err(e) => return Err(bad_input(e.to_string())),
    };
    Ok(PlayCommand::Erase { cells, digits })
}

fn parse_find(parts: &Vec<&str>) -> (r: Result<PlayCommand, PlayError>)
    ensures
        find_parsed(texts(parts@), r),
{
    if parts.len() != 2 {
        return Ok(PlayCommand::Find(None));
    }
    let token = parts[1];
    proof {
        assert(texts(parts@)[1] == token@);
    }
    let n = token.unicode_len();
    proof {
        lemma_byte_len_bounds(token@);
    }
    let bytes = if n <= 2 {
        utf8_byte_len(token)
    } else {
        3
    };
    if bytes == 1 {
        if let Ok(digit) = Digit::from_str(token) {
            return Ok(PlayCommand::Find(Some(FindFilter::Digit(digit))));
        }
    }
    if bytes == 2 && n == 2 {
        proof {
            crate::text::lemma_trimmed_of_two(token@);
        }
        if let Ok(cell) = Cell::try_from(token) {
            return Ok(PlayCommand::Find(Some(FindFilter::Cell(cell))));
        }
    }
    match Strategy::from_label(token) {
        Some(strategy) => Ok(PlayCommand::Find(Some(FindFilter::Strategy(strategy)))),
        None => {
            let mut m = string_of("Unknown strategy: ");
            push_str(&mut m, token);
            Err(PlayError::InvalidArguments(m))
        },
    }
}

/// Returns the command that the words `parts` give.
fn parse_command(parts: &Vec<&str>) -> (r: Result<PlayCommand, PlayError>)
    requires
        parts.len() >= 1,
        forall|k: int| 0 <= k < parts.len() ==> (#[trigger] parts[k])@.len() > 0,
    ensures
        parsed(texts(parts@), r),
{
    let word = parts[0];
    proof {
        assert(texts(parts@)[0] == word@);
        if parts.len() >= 2 {
            assert(texts(parts@)[1] == parts[1]@);
        }
    }
    let letter = if word.unicode_len() == 1 {
        word.get_char(0)
    } else {
        '\0'
    };
    proof {
        if word@.len() == 1 {
            assert(word@ =~= seq![letter]);
        }
    }
    match letter {
        'O' => {
            let option = if parts.len() >= 2 {
                Some(string_of(parts[1]))
            } else {
                None
            };
            Ok(PlayCommand::ToggleOptions(option))
        },
        'N' => Ok(PlayCommand::NewPuzzle { input: NewPuzzleInput::Puzzle, puzzle: None }),
        'C' => Ok(PlayCommand::CreatePuzzle),
        'P' => parse_print(parts),
        'X' => {
            let ch = if parts.len() >= 2 {
                Some(parts[1].get_char(0))
            } else {
                None
            };
            Ok(PlayCommand::Export(ch))
        },
        'W' => Ok(PlayCommand::Wiki),
        'M' => Ok(PlayCommand::Grid),
        'G' => parse_placing(parts, true),
        'S' => parse_placing(parts, false),
        'E' => parse_erase(parts),
        'F' => parse_find(parts),
        'H' => {
            if parts.len() != 2 {
                return Err(PlayError::MissingArguments("H <num>"));
            }
            Ok(PlayCommand::Highlight { index: number_or_zero_of(parts[1]) })
        },
        'A' => {
            let index = if parts.len() >= 2 {
                Some(number_or_zero_of(parts[1]))
            } else {
                None
            };
            Ok(PlayCommand::Apply(index))
        },
        'V' => Ok(PlayCommand::Verify),
        'B' => Ok(PlayCommand::Bingo),
        'R' => Ok(PlayCommand::Reset),
        'Z' => Ok(PlayCommand::Undo),
        'Y' => Ok(PlayCommand::Redo),
        '?' => Ok(PlayCommand::Help),
        'Q' => Ok(PlayCommand::Quit),
        _ => Err(PlayError::UnknownCommand(string_of(word))),
    }
}

/// `r` is the command that the text `input`, already in upper case, gives.
pub open spec fn line_parsed(input: Seq<char>, r: Result<PlayCommand, PlayError>) -> bool {
    if words(input).len() == 0 {
        r matches Err(PlayError::MissingArguments(m)) && m@ == ""@
    } else {
        parsed(words(input), r)
    }
}

/// Returns the command written in `input`, which is in upper case.
pub fn parse_uppercase_command(input: &str) -> (r: Result<PlayCommand, PlayError>)
    ensures
        line_parsed(input@, r),
{
    let parts = split_words(input);
    if parts.len() == 0 {
        return Err(PlayError::MissingArguments(""));
    }
    proof {
        assert forall|k: int| 0 <= k < parts.len() implies (#[trigger] parts[k])@.len() > 0 by {
            crate::text::lemma_words_nonempty(input@, k);
            assert(texts(parts@)[k] == parts[k]@);
        }
    }
    parse_command(&parts)
}

/// `r` is the command written on `line`: nothing but white space is missing
/// arguments, and anything else is read in upper case.
pub open spec fn command_line_parsed(line: Seq<char>, r: Result<PlayCommand, PlayError>) -> bool {
    &&& trimmed(line).len() == 0 ==> (r matches Err(PlayError::MissingArguments(m)) && m@ == ""@)
    &&& trimmed(line).len() > 0 ==> line_parsed(uppercase(trimmed(line)), r)
}

/// `t` with each ASCII lower-case letter in upper case.
pub open spec fn ascii_uppercased(t: Seq<char>) -> Seq<char> {
    Seq::new(t.len(), |i: int| ascii_upper(t[i]))
}

/// Where `line` is ASCII text, `r` is the command that it gives once its
/// lower-case letters are made upper case.
pub open spec fn ascii_line_parsed(line: Seq<char>, r: Result<PlayCommand, PlayError>) -> bool {
    trimmed(line).len() > 0 && all_ascii(trimmed(line)) ==> line_parsed(
        ascii_uppercased(trimmed(line)),
        r,
    )
}

/// Returns the command written on `line`: a letter and its arguments,
/// separated by white space, in upper or lower case.
pub fn parse_command_line(line: &str) -> (r: Result<PlayCommand, PlayError>)
    ensures
        command_line_parsed(line@, r),
        ascii_line_parsed(line@, r),
{
    let t = trim(line);
    if t.unicode_len() == 0 {
        return Err(PlayError::MissingArguments(""));
    }
    let input = to_uppercase(t);
    parse_uppercase_command(input.as_str())
}

/// Commands and cells are read in upper case: two lines that are the same in
/// upper case once trimmed are read as the same command.
pub proof fn lemma_case_insensitive(a: Seq<char>, b: Seq<char>, r: Result<PlayCommand, PlayError>)
    requires
        (trimmed(a).len() == 0) == (trimmed(b).len() == 0),
        uppercase(trimmed(a)) == uppercase(trimmed(b)),
        command_line_parsed(a, r),
    ensures
        command_line_parsed(b, r),
{
}

/// `count` and `label`, the label made plural unless the count is one: "es"
/// after a label that ends in "sh", "s" after any other.
pub open spec fn pluralized(count: nat, label: Seq<char>) -> Seq<char> {
    let head = crate::io::numbers::decimal(count) + seq![' '] + label;
    if count == 1 {
        head
    } else if label.len() >= 2 && label.subrange(label.len() - 2, label.len() as int) == seq![
        's',
        'h',
    ] {
        head + seq!['e', 's']
    } else {
        head + seq!['s']
    }
}

/// Returns `count` and `label`, the label made plural unless the count is one.
pub fn pluralize(count: usize, label: &str) -> (r: String)
    ensures
        r@ == pluralized(count as nat, label@),
{
    let mut r = crate::io::numbers::decimal_string(count as u128);
    crate::text::push_char(&mut r, ' ');
    push_str(&mut r, label);
    if count == 1 {
        return r;
    }
    let n = label.unicode_len();
    if n >= 2 && label.get_char(n - 2) == 's' && label.get_char(n - 1) == 'h' {
        proof {
            assert(label@.subrange(n - 2, n as int) =~= seq!['s', 'h']);
        }
        crate::text::push_char(&mut r, 'e');
        crate::text::push_char(&mut r, 's');
        proof {
            assert(r@ =~= crate::io::numbers::decimal(count as nat) + seq![' '] + label@ + seq![
                'e',
                's',
            ]);
        }
    } else {
        proof {
            if n >= 2 {
                assert(label@.subrange(n - 2, n as int)[0] == label@[n - 2]);
                assert(label@.subrange(n - 2, n as int)[1] == label@[n - 1]);
            }
        }
        crate::text::push_char(&mut r, 's');
        proof {
            assert(r@ =~= crate::io::numbers::decimal(count as nat) + seq![' '] + label@ + seq!['s']);
        }
    }
    r
}

} // verus!
