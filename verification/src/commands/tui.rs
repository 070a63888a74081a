//! The rules of the command input in the full-screen player.
use vstd::prelude::*;

use crate::commands::play_core::{
    ascii_line_parsed, ascii_uppercased, command_line_parsed, line_parsed, parse_command_line,
    parsed, play_help_text, NewPuzzleInput, Overlay, PlayCommand, PlayError, PlayOutput, PLAY_HELP,
};
use crate::text::{
    ascii_upper, push_char, push_str, split_words, string_of, texts, trim, trimmed, words,
};

verus! {

/// What an argument of a command may be.
#[derive(Clone, Copy, Debug, PartialEq, Eq, Structural)]
pub enum ArgKind {
    Cells,
    Digit,
    Digits,
    Number,
    OptionFlags,
    Char,
    Puzzle,
    CellOrDigit,
    Print,
}

/// A command that takes arguments typed into an input box.
#[derive(Debug)]
pub struct CommandSpec {
    pub key: char,
    pub name: &'static str,
    pub args: Vec<ArgKind>,
    pub labels: Vec<&'static str>,
    pub allow_empty: bool,
}

/// A command in plain values.
pub struct CommandShape {
    pub name: Seq<char>,
    pub args: Seq<ArgKind>,
    pub labels: Seq<Seq<char>>,
    pub allow_empty: bool,
}

impl CommandSpec {
    pub open spec fn view(&self) -> CommandShape {
        CommandShape {
            name: self.name@,
            args: self.args@,
            labels: self.labels@.map_values(|l: &'static str| l@),
            allow_empty: self.allow_empty,
        }
    }
}

/// The command shape with the given parts.
pub open spec fn shape(
    name: Seq<char>,
    args: Seq<ArgKind>,
    labels: Seq<Seq<char>>,
    allow_empty: bool,
) -> CommandShape {
    CommandShape { name, args, labels, allow_empty }
}

/// The commands that open an input box, by key.
pub open spec fn command_table(key: char) -> Option<CommandShape> {
    if key == 'O' {
        Some(shape("Options"@, seq![ArgKind::OptionFlags], seq!["option"@], true))
    } else if key == 'N' {
        Some(shape("New Puzzle"@, seq![ArgKind::Puzzle], seq!["givens"@], true))
    } else if key == 'G' {
        Some(
            shape(
                "Set Given"@,
                seq![ArgKind::Cells, ArgKind::Digit],
                seq!["cells"@, "digit"@],
                false,
            ),
        )
    } else if key == 'S' {
        Some(
            shape(
                "Solve Cells"@,
                seq![ArgKind::Cells, ArgKind::Digit],
                seq!["cells"@, "digit"@],
                false,
            ),
        )
    } else if key == 'E' {
        Some(
            shape(
                "Erase Candidates"@,
                seq![ArgKind::Cells, ArgKind::Digits],
                seq!["cells"@, "digits"@],
                false,
            ),
        )
    } else if key == 'F' {
        Some(shape("Find Deductions"@, seq![ArgKind::CellOrDigit], seq!["cell or digit"@], true))
    } else if key == 'H' {
        Some(shape("Highlight Deduction"@, seq![ArgKind::Number], seq!["num"@], false))
    } else if key == 'A' {
        Some(shape("Apply Deductions"@, seq![ArgKind::Number], seq!["num"@], true))
    } else if key == 'P' {
        Some(shape("Print"@, seq![ArgKind::Print], seq!["G, S, or digit"@], true))
    } else if key == 'X' {
        Some(shape("Export"@, seq![ArgKind::Char], seq!["char"@], true))
    } else {
        None
    }
}

fn make_spec(
    key: char,
    name: &'static str,
    args: Vec<ArgKind>,
    labels: Vec<&'static str>,
    allow_empty: bool,
) -> (r: CommandSpec)
    ensures
        r.key == key,
        r.name == name,
        r.args == args,
        r.labels == labels,
        r.allow_empty == allow_empty,
{
    CommandSpec { key, name, args, labels, allow_empty }
}

/// Returns the command that `key` opens an input box for, if any.
pub fn command_spec(key: char) -> (r: Option<CommandSpec>)
    ensures
        match command_table(key) {
            Some(s) => r matches Some(c) && c.key == key && c@ == s,
            None => r is None,
        },
{
    let r = match key {
        'O' => make_spec(key, "Options", vec![ArgKind::OptionFlags], vec!["option"], true),
        'N' => make_spec(key, "New Puzzle", vec![ArgKind::Puzzle], vec!["givens"], true),
        'G' => make_spec(
            key,
            "Set Given",
            vec![ArgKind::Cells, ArgKind::Digit],
            vec!["cells", "digit"],
            false,
        ),
        'S' => make_spec(
            key,
            "Solve Cells",
            vec![ArgKind::Cells, ArgKind::Digit],
            vec!["cells", "digit"],
            false,
        ),
        'E' => make_spec(
            key,
            "Erase Candidates",
            vec![ArgKind::Cells, ArgKind::Digits],
            vec!["cells", "digits"],
            false,
        ),
        'F' => make_spec(
            key,
            "Find Deductions",
            vec![ArgKind::CellOrDigit],
            vec!["cell or digit"],
            true,
        ),
        'H' => make_spec(key, "Highlight Deduction", vec![ArgKind::Number], vec!["num"], false),
        'A' => make_spec(key, "Apply Deductions", vec![ArgKind::Number], vec!["num"], true),
        'P' => make_spec(key, "Print", vec![ArgKind::Print], vec!["G, S, or digit"], true),
        'X' => make_spec(key, "Export", vec![ArgKind::Char], vec!["char"], true),
        _ => return None,
    };
    proof {
        assert(r@.labels =~= command_table(key)->0.labels);
        assert(r@.args =~= command_table(key)->0.args);
    }
    Some(r)
}

/// `c` labels a row: 'A' to 'H', or 'J'.
pub open spec fn is_row_letter(c: char) -> bool {
    ('A' <= c <= 'H') || c == 'J'
}

/// `c` may appear in a cell label.
pub open spec fn is_cell_label_char(c: char) -> bool {
    ('1' <= c <= '9') || is_row_letter(c)
}

/// `t` alternates row letters and column digits, starting with a letter.
pub open spec fn cells_token_ok(t: Seq<char>) -> bool {
    forall|i: int|
        0 <= i < t.len() ==> if i % 2 == 0 {
            is_row_letter(#[trigger] t[i])
        } else {
            '1' <= t[i] <= '9'
        }
}

/// Every character of `t` meets `p`.
pub open spec fn all_chars(t: Seq<char>, p: spec_fn(char) -> bool) -> bool {
    forall|i: int| 0 <= i < t.len() ==> p(#[trigger] t[i])
}

/// `token` may stand, so far, for an argument of `kind`: typing may still be
/// going on, so a prefix of a valid argument passes.
pub open spec fn token_ok(kind: ArgKind, t: Seq<char>) -> bool {
    match kind {
        ArgKind::Cells => cells_token_ok(t),
        ArgKind::Digit => t.len() <= 1 && all_chars(t, |c: char| '1' <= c <= '9'),
        ArgKind::Digits => all_chars(t, |c: char| '1' <= c <= '9'),
        ArgKind::Number => all_chars(t, |c: char| '0' <= c <= '9'),
        ArgKind::OptionFlags => all_chars(t, |c: char| c == 'N' || c == 'H' || c == 'I'),
        ArgKind::Char => t.len() == 1 && (t[0] as u32) < 128,
        ArgKind::Puzzle => all_chars(t, |c: char| ('0' <= c <= '9') || c == '.' || c == '·'),
        ArgKind::CellOrDigit => t.len() <= 2 && all_chars(t, |c: char| is_cell_label_char(c)),
        ArgKind::Print => t.len() <= 1 && all_chars(
            t,
            |c: char| c == 'G' || c == 'S' || ('1' <= c <= '9'),
        ),
    }
}

/// Returns true if `ch` may appear in a cell label.
pub fn is_cell_char(ch: char) -> (r: bool)
    ensures
        r == is_cell_label_char(ch),
{
    ('1' <= ch && ch <= '9') || ('A' <= ch && ch <= 'H') || ch == 'J'
}

/// Returns true if `token` alternates row letters and column digits.
pub fn cells_token_valid(token: &str) -> (r: bool)
    ensures
        r == cells_token_ok(token@),
{
    let n = token.unicode_len();
    let mut expect_letter = true;
    let mut i: usize = 0;
    while i < n
        invariant
            n == token@.len(),
            i <= n,
            expect_letter == (i % 2 == 0),
            forall|k: int|
                0 <= k < i ==> if k % 2 == 0 {
                    is_row_letter(#[trigger] token@[k])
                } else {
                    '1' <= token@[k] <= '9'
                },
        decreases n - i,
    {
        let ch = token.get_char(i);
        if expect_letter {
            if !(('A' <= ch && ch <= 'H') || ch == 'J') {
                return false;
            }
        } else if !('1' <= ch && ch <= '9') {
            return false;
        }
        expect_letter = !expect_letter;
        i += 1;
    }
    true
}

/// Returns true if every character of `t` meets `p`; `p` is given by `test`.
fn all_of(t: &str, kind: ArgKind) -> (r: bool)
    requires
        kind != ArgKind::Cells,
        kind != ArgKind::Char,
    ensures
        r == all_chars(t@, char_rule(kind)),
{
    let n = t.unicode_len();
    let mut i: usize = 0;
    while i < n
        invariant
            n == t@.len(),
            i <= n,
            forall|k: int| 0 <= k < i ==> char_rule(kind)(#[trigger] t@[k]),
        decreases n - i,
    {
        if !char_ok(kind, t.get_char(i)) {
            return false;
        }
        i += 1;
    }
    true
}

/// The characters that an argument of `kind` is made of.
pub open spec fn char_rule(kind: ArgKind) -> spec_fn(char) -> bool {
    match kind {
        ArgKind::Digit | ArgKind::Digits => |c: char| '1' <= c <= '9',
        ArgKind::Number => |c: char| '0' <= c <= '9',
        ArgKind::OptionFlags => |c: char| c == 'N' || c == 'H' || c == 'I',
        ArgKind::Puzzle => |c: char| ('0' <= c <= '9') || c == '.' || c == '·',
        ArgKind::CellOrDigit => |c: char| is_cell_label_char(c),
        ArgKind::Print => |c: char| c == 'G' || c == 'S' || ('1' <= c <= '9'),
        _ => |c: char| true,
    }
}

fn char_ok(kind: ArgKind, c: char) -> (r: bool)
    ensures
        r == char_rule(kind)(c),
{
    match kind {
        ArgKind::Digit | ArgKind::Digits => '1' <= c && c <= '9',
        ArgKind::Number => '0' <= c && c <= '9',
        ArgKind::OptionFlags => c == 'N' || c == 'H' || c == 'I',
        ArgKind::Puzzle => ('0' <= c && c <= '9') || c == '.' || c == '·',
        ArgKind::CellOrDigit => is_cell_char(c),
        ArgKind::Print => c == 'G' || c == 'S' || ('1' <= c && c <= '9'),
        _ => true,
    }
}

/// Returns true if `token` may stand, so far, for an argument of `kind`.
pub fn token_valid(kind: ArgKind, token: &str) -> (r: bool)
    ensures
        r == token_ok(kind, token@),
{
    let n = token.unicode_len();
    let r = match kind {
        ArgKind::Cells => cells_token_valid(token),
        ArgKind::Digit => n <= 1 && all_of(token, kind),
        ArgKind::Digits => all_of(token, kind),
        ArgKind::Number => all_of(token, kind),
        ArgKind::OptionFlags => all_of(token, kind),
        ArgKind::Char => n == 1 && (token.get_char(0) as u32) < 128,
        ArgKind::Puzzle => all_of(token, kind),
        ArgKind::CellOrDigit => n <= 2 && all_of(token, kind),
        ArgKind::Print => n <= 1 && all_of(token, kind),
    };
    r
}

/// Returns `ch` as it is typed into an input box: nothing for an ASCII control
/// character, and an ASCII lower-case letter in upper case.
pub fn normalize_char(ch: char) -> (r: Option<char>)
    ensures
        ((ch as u32) < 32 || ch as u32 == 127) ==> r is None,
        !((ch as u32) < 32 || ch as u32 == 127) && 'a' <= ch <= 'z' ==> r == Some(
            ((ch as u32) - 32) as char,
        ),
        !((ch as u32) < 32 || ch as u32 == 127) && !('a' <= ch <= 'z') ==> r == Some(ch),
{
    let u = ch as u32;
    if u < 32 || u == 127 {
        None
    } else if 'a' <= ch && ch <= 'z' {
        Some(((u - 32) as u8) as char)
    } else {
        Some(ch)
    }
}

/// `c` may be typed as part of a puzzle.
pub open spec fn is_puzzle_input(c: char) -> bool {
    ('0' <= c <= '9') || c == '.' || c == '·' || c == ' '
}

/// `buffer` may stand, so far, for the arguments of `spec`: empty only where the
/// command takes no arguments, the characters of a puzzle, or no more words than
/// arguments, each of which may stand for its argument.
pub open spec fn buffer_ok(spec: CommandShape, buffer: Seq<char>) -> bool {
    if trimmed(buffer).len() == 0 {
        spec.allow_empty
    } else if spec.args.len() == 1 && spec.args[0] == ArgKind::Puzzle {
        forall|i: int| 0 <= i < buffer.len() ==> is_puzzle_input(#[trigger] buffer[i])
    } else {
        let tokens = words(buffer);
        tokens.len() <= spec.args.len() && forall|i: int|
            0 <= i < tokens.len() ==> token_ok(spec.args[i], #[trigger] tokens[i])
    }
}

/// Returns true if `buffer` may stand, so far, for the arguments of `spec`.
pub fn validate_buffer(spec: &CommandSpec, buffer: &str) -> (r: bool)
    ensures
        r == buffer_ok(spec@, buffer@),
{
    if trim(buffer).unicode_len() == 0 {
        return spec.allow_empty;
    }
    if spec.args.len() == 1 && spec.args[0] == ArgKind::Puzzle {
        let n = buffer.unicode_len();
        let mut i: usize = 0;
        while i < n
            invariant
                n == buffer@.len(),
                i <= n,
                trimmed(buffer@).len() != 0,
                spec.args.len() == 1 && spec.args[0] == ArgKind::Puzzle,
                forall|k: int| 0 <= k < i ==> is_puzzle_input(#[trigger] buffer@[k]),
            decreases n - i,
        {
            let c = buffer.get_char(i);
            if !(('0' <= c && c <= '9') || c == '.' || c == '·' || c == ' ') {
                proof {
                    assert(!is_puzzle_input(buffer@[i as int]));
                }
                return false;
            }
            i += 1;
        }
        return true;
    }
    let tokens = split_words(buffer);
    if tokens.len() > spec.args.len() {
        return false;
    }
    let n = tokens.len();
    let mut i: usize = 0;
    while i < n
        invariant
            n == tokens.len(),
            n <= spec.args.len(),
            trimmed(buffer@).len() != 0,
            !(spec.args.len() == 1 && spec.args[0] == ArgKind::Puzzle),
            texts(tokens@) == words(buffer@),
            i <= n,
            forall|k: int| 0 <= k < i ==> token_ok(spec.args[k], #[trigger] words(buffer@)[k]),
        decreases n - i,
    {
        proof {
            assert(texts(tokens@)[i as int] == tokens[i as int]@);
        }
        if !token_valid(spec.args[i], tokens[i]) {
            proof {
                assert(!token_ok(spec.args[i as int], words(buffer@)[i as int]));
            }
            return false;
        }
        i += 1;
    }
    true
}

/// The labels of `parts` joined by `sep`.
pub open spec fn joined(parts: Seq<Seq<char>>, sep: Seq<char>) -> Seq<char>
    decreases parts.len(),
{
    if parts.len() == 0 {
        Seq::empty()
    } else if parts.len() == 1 {
        parts[0]
    } else {
        parts[0] + sep + joined(parts.drop_first(), sep)
    }
}

proof fn lemma_joined_push(parts: Seq<Seq<char>>, x: Seq<char>, sep: Seq<char>)
    ensures
        joined(parts.push(x), sep) == if parts.len() == 0 {
            x
        } else {
            joined(parts, sep) + sep + x
        },
    decreases parts.len(),
{
    let p = parts.push(x);
    if parts.len() == 0 {
        assert(p.len() == 1);
        assert(p[0] == x);
    } else {
        assert(p.len() >= 2);
        assert(p[0] == parts[0]);
        let rest = parts.drop_first();
        assert(p.drop_first() =~= rest.push(x));
        lemma_joined_push(rest, x, sep);
        assert(joined(p, sep) == parts[0] + sep + joined(rest.push(x), sep));
        if parts.len() == 1 {
            assert(joined(parts, sep) == parts[0]);
            assert(joined(rest.push(x), sep) == x);
        } else {
            assert(joined(parts, sep) == parts[0] + sep + joined(rest, sep));
            assert(parts[0] + sep + (joined(rest, sep) + sep + x) =~= parts[0] + sep + joined(
                rest,
                sep,
            ) + sep + x);
        }
    }
}

/// The hint shown after what was typed for `spec`: the labels of the arguments
/// not yet begun, set apart from the typed text by a space.
pub open spec fn prompt_for(spec: CommandShape, buffer: Seq<char>) -> Seq<char> {
    if spec.labels.len() == 0 {
        Seq::empty()
    } else {
        let start = if words(buffer).len() < spec.labels.len() {
            words(buffer).len() as int
        } else {
            spec.labels.len() as int
        };
        let remaining = joined(spec.labels.skip(start), seq![' ']);
        if remaining.len() == 0 {
            Seq::empty()
        } else if buffer.len() == 0 || buffer.last() == ' ' {
            remaining
        } else {
            seq![' '] + remaining
        }
    }
}

/// Returns the hint shown after what was typed for `spec`.
pub fn remaining_prompt(spec: &CommandSpec, buffer: &str) -> (r: String)
    ensures
        r@ == prompt_for(spec@, buffer@),
{
    let count = spec.labels.len();
    if count == 0 {
        return String::new();
    }
    let tokens = split_words(buffer);
    let start = if tokens.len() < count {
        tokens.len()
    } else {
        count
    };
    let ghost labels = spec@.labels;
    let mut remaining = String::new();
    let mut i: usize = start;
    proof {
        assert(labels.subrange(start as int, start as int) =~= Seq::<Seq<char>>::empty());
    }
    while i < count
        invariant
            count == spec.labels.len(),
            labels == spec@.labels,
            start <= i <= count,
            remaining@ == joined(labels.subrange(start as int, i as int), seq![' ']),
        decreases count - i,
    {
        proof {
            assert(labels.subrange(start as int, i + 1) =~= labels.subrange(start as int, i as int).push(
                labels[i as int],
            ));
            lemma_joined_push(labels.subrange(start as int, i as int), labels[i as int], seq![' ']);
            assert(labels[i as int] == spec.labels[i as int]@);
        }
        if i > start {
            push_char(&mut remaining, ' ');
        }
        push_str(&mut remaining, spec.labels[i]);
        i += 1;
    }
    proof {
        assert(labels.subrange(start as int, count as int) =~= labels.skip(start as int));
    }
    if remaining.as_str().unicode_len() == 0 {
        return String::new();
    }
    let n = buffer.unicode_len();
    if n == 0 || buffer.get_char(n - 1) == ' ' {
        remaining
    } else {
        let mut r = string_of(" ");
        push_str(&mut r, remaining.as_str());
        proof {
            reveal_strlit(" ");
        }
        r
    }
}

/// `line` without a leading "==> ".
pub open spec fn cleaned(line: Seq<char>) -> Seq<char> {
    if line.len() >= 4 && line.take(4) == seq!['=', '=', '>', ' '] {
        line.skip(4)
    } else {
        line
    }
}

/// Returns `line` without a leading "==> ".
pub fn clean_line(line: String) -> (r: String)
    ensures
        r@ == cleaned(line@),
{
    let s = line.as_str();
    let n = s.unicode_len();
    if n >= 4 && s.get_char(0) == '=' && s.get_char(1) == '=' && s.get_char(2) == '>'
        && s.get_char(3) == ' ' {
        proof {
            assert(line@.take(4) =~= seq!['=', '=', '>', ' ']);
        }
        string_of(s.substring_char(4, n))
    } else {
        proof {
            if n >= 4 {
                assert(line@.take(4)[0] == line@[0]);
                assert(line@.take(4)[1] == line@[1]);
                assert(line@.take(4)[2] == line@[2]);
                assert(line@.take(4)[3] == line@[3]);
            }
        }
        line
    }
}

/// Typed `buffer` for `spec` holds an argument that cannot be one.
pub open spec fn has_bad_token(spec: CommandShape, buffer: Seq<char>) -> bool {
    let tokens = words(trimmed(buffer));
    exists|i: int| 0 <= i < tokens.len() && !token_ok(spec.args[i], #[trigger] tokens[i])
}

/// The line that the typed `buffer` for the command `key` stands for.
pub open spec fn command_line_of(key: char, buffer: Seq<char>) -> Seq<char> {
    seq![key, ' '] + trimmed(buffer)
}

/// `r` is the error to show for `buffer` typed for the command `key` with
/// `spec`: none while it is empty or arguments are still missing, "Invalid
/// input" for an argument that cannot be one, and otherwise the error, if any,
/// of the whole command.
pub open spec fn input_error_is(
    spec: CommandShape,
    key: char,
    buffer: Seq<char>,
    r: Option<String>,
) -> bool {
    &&& trimmed(buffer).len() == 0 ==> r is None
    &&& trimmed(buffer).len() > 0 && has_bad_token(spec, buffer) ==> (r matches Some(m) && m@
        == "Invalid input"@)
    &&& trimmed(buffer).len() > 0 && !has_bad_token(spec, buffer) && words(trimmed(buffer)).len()
        < spec.args.len() ==> r is None
    &&& trimmed(buffer).len() > 0 && !has_bad_token(spec, buffer) && words(trimmed(buffer)).len()
        == spec.args.len() ==> exists|res: Result<PlayCommand, PlayError>|
        command_line_parsed(command_line_of(key, buffer), res) && (res is Ok ==> r is None) && (
        res matches Err(e) ==> r matches Some(m) && m@ == cleaned(e.message()))
}

/// Returns the error to show for `buffer` typed for `spec`: none while it is
/// empty or arguments are still missing, "Invalid input" for an argument that
/// cannot be one, and otherwise the error, if any, of the whole command.
pub fn input_error(spec: &CommandSpec, buffer: &str) -> (r: Option<String>)
    requires
        words(trimmed(buffer@)).len() <= spec.args.len(),
    ensures
        input_error_is(spec@, spec.key, buffer@, r),
{
    let t = trim(buffer);
    if t.unicode_len() == 0 {
        return None;
    }
    let tokens = split_words(t);
    let n = tokens.len();
    let mut i: usize = 0;
    while i < n
        invariant
            n == tokens.len(),
            n <= spec.args.len(),
            texts(tokens@) == words(trimmed(buffer@)),
            i <= n,
            forall|k: int| 0 <= k < i ==> token_ok(spec.args[k], #[trigger] words(trimmed(buffer@))[k]),
        decreases n - i,
    {
        proof {
            assert(texts(tokens@)[i as int] == tokens[i as int]@);
        }
        if !token_valid(spec.args[i], tokens[i]) {
            proof {
                assert(!token_ok(spec.args[i as int], words(trimmed(buffer@))[i as int]));
            }
            return Some(string_of("Invalid input"));
        }
        i += 1;
    }
    if n < spec.args.len() {
        return None;
    }
    let mut line = crate::text::string_of_char(spec.key);
    push_char(&mut line, ' ');
    push_str(&mut line, t);
    proof {
        assert(line@ =~= command_line_of(spec.key, buffer@));
    }
    let res = parse_command_line(line.as_str());
    match res {
        Ok(_) => None,
        Err(e) => Some(clean_line(e.to_string())),
    }
}

/// The key that was pressed.
#[derive(Clone, Copy, Debug, PartialEq, Eq, Structural)]
pub enum KeyCode {
    Esc,
    Enter,
    Backspace,
    Char(char),
    Other,
}

/// A key press: the key, and whether the control key was held.
#[derive(Clone, Copy, Debug, PartialEq, Eq, Structural)]
pub struct KeyInput {
    pub code: KeyCode,
    pub control: bool,
}

/// The arguments being typed for a command.
#[derive(Debug)]
pub struct InputState {
    pub spec: CommandSpec,
    pub buffer: String,
    pub error: Option<String>,
}

/// What is shown over the board.
#[derive(Debug)]
pub enum OverlayState {
    Off,
    Input(InputState),
    Help(String),
    Board { title: String, lines: Vec<String> },
    Text { title: String, lines: Vec<String> },
    Progress { title: String, lines: Vec<String> },
}

/// What a key press asks of the player.
#[derive(Debug)]
pub enum TuiAction {
    Nothing,
    Apply(PlayCommand),
    HighlightAll,
    CreatePuzzle,
    Wiki,
    Grid,
}

fn to_ascii_upper(c: char) -> (r: char)
    ensures
        r == ascii_upper(c),
{
    if 'a' <= c && c <= 'z' {
        (((c as u32) - 32) as u8) as char
    } else {
        c
    }
}

/// `overlay` and `action` follow a key pressed while nothing is shown: '?'
/// shows the help, 'C', 'W' and 'M' ask for their actions, a command with
/// arguments opens its input box, and any other key is read as a command.
pub open spec fn idle_step(key: KeyInput, overlay: OverlayState, action: TuiAction) -> bool {
    match key.code {
        KeyCode::Char(ch) => if ch == '?' {
            overlay matches OverlayState::Help(t) && t@ == PLAY_HELP@ && action is Nothing
        } else if key.control {
            overlay is Off && action is Nothing
        } else {
            let u = ascii_upper(ch);
            if u == 'C' {
                overlay is Off && action is CreatePuzzle
            } else if u == 'W' {
                overlay is Off && action is Wiki
            } else if u == 'M' {
                overlay is Off && action is Grid
            } else if command_table(u) is Some {
                overlay matches OverlayState::Input(input) && input.spec.key == u && input.spec@
                    == command_table(u)->0 && input.buffer@.len() == 0 && input.error is None
                    && action is Nothing
            } else {
                overlay is Off && exists|res: Result<PlayCommand, PlayError>|
                    command_line_parsed(seq![u], res) && (res matches Ok(c) ==> action
                        == TuiAction::Apply(c)) && (res is Err ==> action is Nothing)
            }
        },
        _ => overlay is Off && action is Nothing,
    }
}

/// Returns what follows a key pressed while nothing is shown.
fn idle_key(key: KeyInput) -> (r: (OverlayState, TuiAction))
    ensures
        idle_step(key, r.0, r.1),
{
    match key.code {
        KeyCode::Char(ch) => {
            if ch == '?' {
                return (OverlayState::Help(play_help_text()), TuiAction::Nothing);
            }
            if key.control {
                return (OverlayState::Off, TuiAction::Nothing);
            }
            let command = to_ascii_upper(ch);
            if command == 'C' {
                return (OverlayState::Off, TuiAction::CreatePuzzle);
            }
            if command == 'W' {
                return (OverlayState::Off, TuiAction::Wiki);
            }
            if command == 'M' {
                return (OverlayState::Off, TuiAction::Grid);
            }
            if let Some(spec) = command_spec(command) {
                let input = InputState { spec, buffer: String::new(), error: None };
                return (OverlayState::Input(input), TuiAction::Nothing);
            }
            let line = crate::text::string_of_char(command);
            match parse_command_line(line.as_str()) {
                Ok(c) => (OverlayState::Off, TuiAction::Apply(c)),
                Err(_) => (OverlayState::Off, TuiAction::Nothing),
            }
        },
        _ => (OverlayState::Off, TuiAction::Nothing),
    }
}

/// `c` as typed into an input box: nothing for an ASCII control character,
/// an ASCII lower-case letter in upper case.
pub open spec fn normalized(c: char) -> Option<char> {
    if (c as u32) < 32 || c as u32 == 127 {
        None
    } else {
        Some(ascii_upper(c))
    }
}

/// `b` less its last character.
pub open spec fn popped(b: Seq<char>) -> Seq<char> {
    if b.len() == 0 {
        b
    } else {
        b.drop_last()
    }
}

/// `b` holds more words than `spec` has arguments.
pub open spec fn too_many_words(spec: CommandShape, b: Seq<char>) -> bool {
    words(trimmed(b)).len() > spec.args.len()
}

/// The key makes the input box check a text with more words than arguments, as
/// typing a space into a puzzle does: the check then reads past the arguments.
pub open spec fn key_overflows(input: InputState, key: KeyInput) -> bool {
    let spec = input.spec@;
    let b = input.buffer@;
    match key.code {
        KeyCode::Enter => !(trimmed(b).len() == 0 && !spec.allow_empty) && too_many_words(
            spec,
            trimmed(b),
        ),
        KeyCode::Backspace => too_many_words(spec, popped(b)),
        KeyCode::Char(ch) => !key.control && normalized(ch) is Some && buffer_ok(
            spec,
            b.push(normalized(ch)->0),
        ) && too_many_words(spec, b.push(normalized(ch)->0)),
        _ => false,
    }
}

/// The two optional texts are both absent or hold the same text.
pub open spec fn same_text_opt(a: Option<String>, b: Option<String>) -> bool {
    match (a, b) {
        (None, None) => true,
        (Some(x), Some(y)) => x@ == y@,
        _ => false,
    }
}

/// `o` is the input box of `input` with the text `b` and the error `e`.
pub open spec fn kept_input(o: OverlayState, input: InputState, b: Seq<char>, e: Option<String>) -> bool {
    o matches OverlayState::Input(i) && i.spec.key == input.spec.key && i.spec@ == input.spec@
        && i.buffer@ == b && same_text_opt(i.error, e)
}

/// The command line that Enter applies for the command `key` with the text `t`.
pub open spec fn enter_line(key: char, t: Seq<char>) -> Seq<char> {
    if t.len() == 0 {
        seq![key]
    } else {
        seq![key, ' '] + t
    }
}

/// The command line that a first character `c` typed for `key` applies.
pub open spec fn quick_line(key: char, c: char) -> Seq<char> {
    seq![key, ' ', c]
}

/// The argument kind that a single character typed first for `key` may apply
/// the command at once with.
pub open spec fn quick_kind(key: char) -> Option<ArgKind> {
    if key == 'O' {
        Some(ArgKind::OptionFlags)
    } else if key == 'P' {
        Some(ArgKind::Print)
    } else if key == 'X' {
        Some(ArgKind::Char)
    } else {
        None
    }
}

/// What follows `key` pressed in the input box `input`: Esc closes it; Enter
/// closes it and applies the command, unless the text is in error, when the
/// box stays with the error; Backspace drops the last character; a typed
/// character is added where the text may still become valid, a first option,
/// print target or export character applying the command at once.
pub open spec fn input_step(
    input: InputState,
    key: KeyInput,
    overlay: OverlayState,
    action: TuiAction,
    beep: bool,
) -> bool {
    let spec = input.spec@;
    let k = input.spec.key;
    let b = input.buffer@;
    match key.code {
        KeyCode::Esc => overlay is Off && action is Nothing && !beep,
        KeyCode::Enter => {
            let t = trimmed(b);
            if t.len() == 0 && !spec.allow_empty {
                overlay is Off && !beep && (if k == 'H' {
                    action is HighlightAll
                } else {
                    action is Nothing
                })
            } else {
                exists|err: Option<String>|
                    input_error_is(spec, k, t, err) && if err is Some {
                        kept_input(overlay, input, b, err) && action is Nothing && beep
                    } else if k == 'N' {
                        overlay is Off && !beep && (action matches TuiAction::Apply(
                            PlayCommand::NewPuzzle { input: ni, puzzle: p },
                        ) && if t.len() == 0 {
                            ni == NewPuzzleInput::Empty && p is None
                        } else {
                            ni == NewPuzzleInput::Puzzle && (p matches Some(g) && g@ == t)
                        })
                    } else {
                        exists|res: Result<PlayCommand, PlayError>|
                            #[trigger] command_line_parsed(enter_line(k, t), res) && !beep && match res {
                                Ok(c) => overlay is Off && action == TuiAction::Apply(c),
                                Err(e) => action is Nothing && (overlay matches OverlayState::Input(i)
                                    && i.spec.key == k && i.spec@ == spec && i.buffer@ == b
                                    && (i.error matches Some(m) && m@ == cleaned(e.message()))),
                            }
                    }
            }
        },
        KeyCode::Backspace => exists|err: Option<String>|
            input_error_is(spec, k, popped(b), err) && kept_input(overlay, input, popped(b), err)
                && action is Nothing && !beep,
        KeyCode::Char(ch) => if key.control || normalized(ch) is None {
            kept_input(overlay, input, b, input.error) && action is Nothing && !beep
        } else {
            let c = normalized(ch)->0;
            let next = b.push(c);
            let quick = b.len() == 0 && (quick_kind(k) matches Some(kind) && token_ok(kind, seq![c]));
            let typed = if buffer_ok(spec, next) {
                exists|err: Option<String>|
                    input_error_is(spec, k, next, err) && kept_input(overlay, input, next, err)
                        && action is Nothing && !beep
            } else {
                (overlay matches OverlayState::Input(i) && i.spec.key == k && i.spec@ == spec
                    && i.buffer@ == b && (i.error matches Some(m) && m@ == "Invalid input"@)
                    && action is Nothing && beep)
            };
            if quick {
                exists|res: Result<PlayCommand, PlayError>|
                    #[trigger] command_line_parsed(quick_line(k, c), res) && ascii_line_parsed(
                        quick_line(k, c),
                        res,
                    ) && match res {
                        Ok(cmd) => overlay is Off && action == TuiAction::Apply(cmd) && !beep,
                        Err(_) => typed,
                    }
            } else {
                typed
            }
        },
        KeyCode::Other => kept_input(overlay, input, b, input.error) && action is Nothing && !beep,
    }
}

/// Returns `b` less its last character.
fn pop_text(b: &str) -> (r: String)
    ensures
        r@ == popped(b@),
{
    let n = b.unicode_len();
    if n == 0 {
        string_of(b)
    } else {
        string_of(b.substring_char(0, n - 1))
    }
}

/// Returns what follows `key` pressed in the input box `input`, and whether to beep.
fn input_key(input: InputState, key: KeyInput) -> (r: (OverlayState, TuiAction, bool))
    requires
        !key_overflows(input, key),
    ensures
        input_step(input, key, r.0, r.1, r.2),
{
    let ghost before = input;
    let InputState { spec, buffer, error } = input;
    match key.code {
        KeyCode::Esc => (OverlayState::Off, TuiAction::Nothing, false),
        KeyCode::Enter => {
            let trimmed_buffer = trim(buffer.as_str());
            if trimmed_buffer.unicode_len() == 0 && !spec.allow_empty {
                if spec.key == 'H' {
                    return (OverlayState::Off, TuiAction::HighlightAll, false);
                }
                return (OverlayState::Off, TuiAction::Nothing, false);
            }
            let checked = input_error(&spec, trimmed_buffer);
            if let Some(e) = checked {
                let kept = InputState { spec, buffer, error: Some(e) };
                return (OverlayState::Input(kept), TuiAction::Nothing, true);
            }
            if spec.key == 'N' {
                let command = if trimmed_buffer.unicode_len() == 0 {
                    PlayCommand::NewPuzzle { input: NewPuzzleInput::Empty, puzzle: None }
                } else {
                    PlayCommand::NewPuzzle {
                        input: NewPuzzleInput::Puzzle,
                        puzzle: Some(string_of(trimmed_buffer)),
                    }
                };
                return (OverlayState::Off, TuiAction::Apply(command), false);
            }
            let mut line = crate::text::string_of_char(spec.key);
            if trimmed_buffer.unicode_len() > 0 {
                push_char(&mut line, ' ');
                push_str(&mut line, trimmed_buffer);
            }
            proof {
                if trimmed_buffer@.len() == 0 {
                    assert(line@ =~= seq![spec.key]);
                } else {
                    assert(line@ =~= seq![spec.key, ' '] + trimmed_buffer@);
                }
                assert(line@ == enter_line(spec.key, trimmed_buffer@));
            }
            match parse_command_line(line.as_str()) {
                Ok(command) => (OverlayState::Off, TuiAction::Apply(command), false),
                Err(e) => {
                    let message = clean_line(e.to_string());
                    let kept = InputState { spec, buffer, error: Some(message) };
                    (OverlayState::Input(kept), TuiAction::Nothing, false)
                },
            }
        },
        KeyCode::Backspace => {
            let shorter = pop_text(buffer.as_str());
            let checked = input_error(&spec, shorter.as_str());
            let kept = InputState { spec, buffer: shorter, error: checked };
            (OverlayState::Input(kept), TuiAction::Nothing, false)
        },
        KeyCode::Char(ch) => {
            if key.control {
                return (OverlayState::Input(InputState { spec, buffer, error }), TuiAction::Nothing, false);
            }
            let c = match normalize_char(ch) {
                Some(c) => c,
                None => {
                    return (
                        OverlayState::Input(InputState { spec, buffer, error }),
                        TuiAction::Nothing,
                        false,
                    );
                },
            };
            let quick = if buffer.as_str().unicode_len() == 0 {
                if spec.key == 'O' {
                    Some(ArgKind::OptionFlags)
                } else if spec.key == 'P' {
                    Some(ArgKind::Print)
                } else if spec.key == 'X' {
                    Some(ArgKind::Char)
                } else {
                    None
                }
            } else {
                None
            };
            if let Some(kind) = quick {
                let token = crate::text::string_of_char(c);
                if token_valid(kind, token.as_str()) {
                    let mut line = crate::text::string_of_char(spec.key);
                    push_char(&mut line, ' ');
                    push_char(&mut line, c);
                    proof {
                        assert(line@ =~= seq![spec.key, ' ', c]);
                        assert(line@ == quick_line(spec.key, c));
                        assert(token@ =~= seq![c]);
                    }
                    if let Ok(command) = parse_command_line(line.as_str()) {
                        return (OverlayState::Off, TuiAction::Apply(command), false);
                    }
                }
            }
            let mut next = string_of(buffer.as_str());
            push_char(&mut next, c);
            if validate_buffer(&spec, next.as_str()) {
                let checked = input_error(&spec, next.as_str());
                let kept = InputState { spec, buffer: next, error: checked };
                (OverlayState::Input(kept), TuiAction::Nothing, false)
            } else {
                let kept = InputState { spec, buffer, error: Some(string_of("Invalid input")) };
                (OverlayState::Input(kept), TuiAction::Nothing, true)
            }
        },
        KeyCode::Other => (OverlayState::Input(InputState { spec, buffer, error }), TuiAction::Nothing, false),
    }
}

/// What a key press led to.
#[derive(Debug)]
pub struct KeyOutcome {
    pub action: TuiAction,
    /// The player typed what cannot be.
    pub beep: bool,
    /// A help, board or text overlay was closed, which ends its display time
    /// and releases the clipboard.
    pub dismissed: bool,
}

/// The state of the full-screen player between key presses.
#[derive(Debug)]
pub struct TuiState {
    pub overlay: OverlayState,
    pub status_message: Option<String>,
}

/// The number of characters of `s` before its first new line.
pub open spec fn line_end(s: Seq<char>) -> nat
    decreases s.len(),
{
    if s.len() == 0 || s[0] == '\n' {
        0
    } else {
        1 + line_end(s.drop_first())
    }
}

/// The first line of `s` as `str::lines` gives it: up to the first new line,
/// less a carriage return just before it.
pub open spec fn first_line_of(s: Seq<char>) -> Seq<char> {
    let i = line_end(s) as int;
    if i < s.len() && i > 0 && s[i - 1] == '\r' {
        s.take(i - 1)
    } else {
        s.take(i)
    }
}

/// The status to show for `messages`: the first line of the first message that
/// has one, without a leading "==> ".
pub open spec fn status_of(messages: Seq<Seq<char>>) -> Option<Seq<char>>
    decreases messages.len(),
{
    if messages.len() == 0 {
        None
    } else if messages[0].len() > 0 {
        Some(cleaned(first_line_of(messages[0])))
    } else {
        status_of(messages.drop_first())
    }
}

proof fn lemma_line_end(s: Seq<char>)
    ensures
        line_end(s) <= s.len(),
        forall|k: int| 0 <= k < line_end(s) ==> s[k] != '\n',
        line_end(s) < s.len() ==> s[line_end(s) as int] == '\n',
    decreases s.len(),
{
    if s.len() > 0 && s[0] != '\n' {
        lemma_line_end(s.drop_first());
        assert forall|k: int| 0 <= k < line_end(s) implies s[k] != '\n' by {
            if k > 0 {
                assert(s[k] == s.drop_first()[k - 1]);
            }
        }
        if line_end(s) < s.len() {
            assert(s[line_end(s) as int] == s.drop_first()[line_end(s) - 1]);
        }
    }
}

/// Returns the first line of `s`.
fn first_line(s: &str) -> (r: String)
    ensures
        r@ == first_line_of(s@),
{
    let n = s.unicode_len();
    let mut i: usize = 0;
    proof {
        assert(s@.skip(0) =~= s@);
    }
    while i < n && s.get_char(i) != '\n'
        invariant
            n == s@.len(),
            i <= n,
            line_end(s@) == i + line_end(s@.skip(i as int)),
        decreases n - i,
    {
        proof {
            assert(s@.skip(i as int)[0] == s@[i as int]);
            assert(s@.skip(i as int).drop_first() =~= s@.skip(i + 1));
        }
        i += 1;
    }
    proof {
        if i < n {
            assert(s@.skip(i as int)[0] == s@[i as int]);
        }
        assert(line_end(s@.skip(i as int)) == 0);
    }
    if i < n && i > 0 && s.get_char(i - 1) == '\r' {
        string_of(s.substring_char(0, i - 1))
    } else {
        string_of(s.substring_char(0, i))
    }
}

/// Returns the texts of `lines` without a leading "==> ".
fn clean_lines(lines: Vec<String>) -> (r: Vec<String>)
    ensures
        r.len() == lines.len(),
        forall|k: int| 0 <= k < lines.len() ==> (#[trigger] r[k])@ == cleaned(lines[k]@),
{
    let n = lines.len();
    let mut r: Vec<String> = Vec::new();
    let mut i: usize = 0;
    while i < n
        invariant
            n == lines.len(),
            i <= n,
            r.len() == i,
            forall|k: int| 0 <= k < i ==> (#[trigger] r[k])@ == cleaned(lines[k]@),
        decreases n - i,
    {
        r.push(clean_line(string_of(lines[i].as_str())));
        i += 1;
    }
    r
}

/// The text of each message.
pub open spec fn message_texts(messages: Seq<String>) -> Seq<Seq<char>> {
    messages.map_values(|m: String| m@)
}

/// Returns the status to show for `messages`.
fn status_for(messages: &Vec<String>) -> (r: Option<String>)
    ensures
        match status_of(message_texts(messages@)) {
            Some(t) => r matches Some(m) && m@ == t,
            None => r is None,
        },
{
    let ghost all = message_texts(messages@);
    let n = messages.len();
    let mut i: usize = 0;
    proof {
        assert(all.skip(0) =~= all);
    }
    while i < n
        invariant
            n == messages.len(),
            all == message_texts(messages@),
            i <= n,
            status_of(all) == status_of(all.skip(i as int)),
        decreases n - i,
    {
        let ghost rest = all.skip(i as int);
        proof {
            assert(rest[0] == messages[i as int]@);
            assert(rest.drop_first() =~= all.skip(i + 1));
        }
        if messages[i].as_str().unicode_len() > 0 {
            return Some(clean_line(first_line(messages[i].as_str())));
        }
        i += 1;
    }
    proof {
        assert(all.skip(n as int) =~= Seq::<Seq<char>>::empty());
    }
    None
}

impl TuiState {
    /// Returns the state with nothing shown.
    pub fn new() -> (r: Self)
        ensures
            r.overlay is Off,
            r.status_message is None,
    {
        TuiState { overlay: OverlayState::Off, status_message: None }
    }

    /// Shows what a command produced: its first message line as the status and
    /// its overlay, if any.
    pub fn apply_output(&mut self, output: PlayOutput)
        ensures
            match status_of(message_texts(output.messages@)) {
                Some(t) => final(self).status_message matches Some(m) && m@ == t,
                None => final(self).status_message is None,
            },
            match output.overlay {
                Some(Overlay::Help(text)) => final(self).overlay matches OverlayState::Help(t) && t@
                    == text@,
                Some(Overlay::Board { title, lines }) => final(self).overlay matches OverlayState::Board {
                    title: t,
                    lines: l,
                } && t@ == title@ && l == lines,
                Some(Overlay::Text { title, lines }) => final(self).overlay matches OverlayState::Text {
                    title: t,
                    lines: l,
                } && t@ == title@ && l.len() == lines.len() && forall|k: int|
                    0 <= k < lines.len() ==> (#[trigger] l[k])@ == cleaned(lines[k]@),
                None => final(self).overlay is Off,
            },
    {
        let PlayOutput { messages, overlay, .. } = output;
        let status = status_for(&messages);
        self.status_message = status;
        self.overlay = match overlay {
            Some(Overlay::Help(text)) => OverlayState::Help(text),
            Some(Overlay::Board { title, lines }) => OverlayState::Board {
                title: string_of(title),
                lines,
            },
            Some(Overlay::Text { title, lines }) => OverlayState::Text {
                title: string_of(title),
                lines: clean_lines(lines),
            },
            None => OverlayState::Off,
        };
    }

    /// Handles a key press: in an input box by its rules; over a help, board
    /// or text overlay by closing it and then, for any key but Esc, as a key
    /// pressed with nothing shown; and with nothing shown by opening or
    /// applying the command it names.
    pub fn handle_key(&mut self, key: KeyInput) -> (r: KeyOutcome)
        requires
            old(self).overlay matches OverlayState::Input(input) ==> !key_overflows(input, key),
        ensures
            final(self).status_message == old(self).status_message,
            match old(self).overlay {
                OverlayState::Input(input) => input_step(
                    input,
                    key,
                    final(self).overlay,
                    r.action,
                    r.beep,
                ) && !r.dismissed,
                OverlayState::Off => idle_step(key, final(self).overlay, r.action) && !r.beep
                    && !r.dismissed,
                _ => r.dismissed && !r.beep && if key.code is Esc {
                    final(self).overlay is Off && r.action is Nothing
                } else {
                    idle_step(key, final(self).overlay, r.action)
                },
            },
    {
        let mut overlay = OverlayState::Off;
        std::mem::swap(&mut overlay, &mut self.overlay);
        match overlay {
            OverlayState::Input(input) => {
                let (next, action, beep) = input_key(input, key);
                self.overlay = next;
                KeyOutcome { action, beep, dismissed: false }
            },
            OverlayState::Off => {
                let (next, action) = idle_key(key);
                self.overlay = next;
                KeyOutcome { action, beep: false, dismissed: false }
            },
            _ => {
                if key.code == KeyCode::Esc {
                    return KeyOutcome { action: TuiAction::Nothing, beep: false, dismissed: true };
                }
                let (next, action) = idle_key(key);
                self.overlay = next;
                KeyOutcome { action, beep: false, dismissed: true }
            },
        }
    }
}

/// The words of a command letter, a space and one more character.
proof fn lemma_words_of_letter_and_char(line: Seq<char>, a: char, c: char)
    requires
        line == seq![a, ' ', c],
        !crate::text::is_space(a),
        !crate::text::is_space(c),
    ensures
        trimmed(line) == line,
        words(line) == seq![seq![a], seq![c]],
{
    let last = seq![c];
    assert(last.drop_first() =~= Seq::<char>::empty());
    assert(crate::text::word_len(last.drop_first()) == 0);
    assert(crate::text::word_len(last) == 1);
    assert(last.take(1) =~= last);
    assert(last.skip(1) =~= Seq::<char>::empty());
    assert(words(Seq::<char>::empty()) == Seq::<Seq<char>>::empty());
    assert(words(last) == seq![last.take(1)] + words(last.skip(1)));
    assert(words(last) =~= seq![last]);
    let rest = seq![' ', c];
    assert(rest.drop_first() =~= last);
    assert(words(rest) == words(last));
    assert(line.drop_first() =~= rest);
    assert(crate::text::word_len(rest) == 0);
    assert(crate::text::word_len(line) == 1);
    assert(line.take(1) =~= seq![a]);
    assert(line.skip(1) =~= rest);
    assert(words(line) =~= seq![seq![a], seq![c]]);
    assert(crate::text::leading_spaces(line) == 0);
    assert(line.subrange(0, 3) =~= line);
    assert(crate::text::trailing_spaces(line) == 0);
    assert(line.subrange(0, 3 - 0) =~= line);
}

/// In the Export box, a first character that is a printable ASCII character
/// other than a space closes the box and applies the Export command with that
/// character, as a first option flag or print target does for its command.
pub proof fn lemma_export_char_applies(
    input: InputState,
    key: KeyInput,
    ch: char,
    overlay: OverlayState,
    action: TuiAction,
    beep: bool,
)
    requires
        input.spec.key == 'X',
        input.buffer@.len() == 0,
        key.code == KeyCode::Char(ch),
        !key.control,
        normalized(ch) is Some,
        (normalized(ch)->0 as u32) < 128,
        normalized(ch)->0 != ' ',
        input_step(input, key, overlay, action, beep),
    ensures
        overlay is Off,
        action == TuiAction::Apply(PlayCommand::Export(Some(normalized(ch)->0))),
        !beep,
{
    let c = normalized(ch)->0;
    let line = quick_line('X', c);
    assert(line == seq!['X', ' ', c]);
    assert(!crate::text::is_space(c));
    lemma_words_of_letter_and_char(line, 'X', c);
    assert(token_ok(ArgKind::Char, seq![c]));
    assert(quick_kind('X') == Some(ArgKind::Char));
    assert(crate::text::all_ascii(line));
    let up = ascii_uppercased(line);
    assert(ascii_upper(c) == c);
    assert(up =~= line);
    let res = choose|res: Result<PlayCommand, PlayError>|
        #[trigger] command_line_parsed(quick_line('X', c), res) && ascii_line_parsed(quick_line('X', c), res)
            && match res {
            Ok(cmd) => overlay is Off && action == TuiAction::Apply(cmd) && !beep,
            Err(_) => true,
        };
    assert(line_parsed(up, res));
    assert(words(up).len() == 2);
    assert(words(up)[0] == seq!['X']);
    assert(words(up)[1][0] == c);
    assert(parsed(words(up), res));
    let w = words(up)[0];
    assert(w[0] == 'X');
    assert(w != seq!['O']) by { assert(seq!['O'][0] == 'O'); }
    assert(w != seq!['N']) by { assert(seq!['N'][0] == 'N'); }
    assert(w != seq!['C']) by { assert(seq!['C'][0] == 'C'); }
    assert(w != seq!['P']) by { assert(seq!['P'][0] == 'P'); }
    assert(w == seq!['X']);
    assert(res == Ok::<PlayCommand, PlayError>(PlayCommand::Export(Some(c))));
}

} // verus!
