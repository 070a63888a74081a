//! Text helpers of the full-screen player: lines that may hold ANSI colour
//! codes, and lines padded or centred in an area.
use vstd::prelude::*;

use crate::commands::play_core::ProgressStage;
use crate::text::{push_char, push_str, string_of, trim, trimmed};

verus! {

/// The escape character that starts an ANSI code.
pub const ESC: char = '\u{1b}';

/// The number of characters of `t` up to and including the first 'm', or all
/// of them where there is none.
pub open spec fn code_len(t: Seq<char>) -> nat
    decreases t.len(),
{
    if t.len() == 0 {
        0
    } else if t[0] == 'm' {
        1
    } else {
        1 + code_len(t.drop_first())
    }
}

/// `s` starts an ANSI code: an escape followed by '['.
pub open spec fn starts_code(s: Seq<char>) -> bool {
    s.len() >= 2 && s[0] == ESC && s[1] == '['
}

/// The length of the ANSI code that starts `s`: the escape, the '[' and what
/// follows up to and including 'm'.
pub open spec fn code_at(s: Seq<char>) -> nat {
    2 + code_len(s.skip(2))
}

/// A code ends within `t`, and takes at least one character of it.
pub proof fn lemma_code_len(t: Seq<char>)
    ensures
        code_len(t) <= t.len(),
        t.len() > 0 ==> code_len(t) >= 1,
    decreases t.len(),
{
    if t.len() > 0 && t[0] != 'm' {
        lemma_code_len(t.drop_first());
    }
}

/// `s` without its ANSI codes; an escape not followed by '[' is dropped alone.
pub open spec fn stripped(s: Seq<char>) -> Seq<char>
    decreases s.len(),
{
    if s.len() == 0 {
        Seq::empty()
    } else if starts_code(s) {
        proof {
            lemma_code_len(s.skip(2));
        }
        stripped(s.skip(code_at(s) as int))
    } else if s[0] == ESC {
        stripped(s.drop_first())
    } else {
        seq![s[0]] + stripped(s.drop_first())
    }
}

/// Returns the length of the ANSI code that starts `s` at `i`.
fn code_end(s: &str, i: usize) -> (end: usize)
    requires
        i + 2 <= s@.len(),
    ensures
        end == i + 2 + code_len(s@.skip(i + 2)),
        end <= s@.len(),
        forall|k: int| i + 2 <= k < end - 1 ==> s@[k] != 'm',
        end > i + 2 && s@[end - 1] != 'm' ==> end == s@.len(),
        end == i + 2 ==> end == s@.len(),
{
    let n = s.unicode_len();
    let mut j: usize = i + 2;
    proof {
        lemma_code_len(s@.skip(i + 2));
    }
    while j < n && s.get_char(j) != 'm'
        invariant
            n == s@.len(),
            i + 2 <= j <= n,
            code_len(s@.skip(i + 2)) == (j - i - 2) + code_len(s@.skip(j as int)),
            forall|k: int| i + 2 <= k < j ==> s@[k] != 'm',
        decreases n - j,
    {
        proof {
            assert(s@.skip(j as int).drop_first() =~= s@.skip(j + 1));
        }
        j += 1;
    }
    proof {
        if j < n {
            assert(s@.skip(j as int)[0] == 'm');
        } else {
            assert(s@.skip(j as int).len() == 0);
        }
    }
    if j < n {
        j + 1
    } else {
        j
    }
}

/// Returns `input` without its ANSI codes.
pub fn strip_ansi(input: &str) -> (r: String)
    ensures
        r@ == stripped(input@),
{
    let n = input.unicode_len();
    let mut out = String::new();
    let mut i: usize = 0;
    proof {
        assert(input@.skip(0) =~= input@);
    }
    while i < n
        invariant
            n == input@.len(),
            i <= n,
            out@ + stripped(input@.skip(i as int)) == stripped(input@),
        decreases n - i,
    {
        let ghost rest = input@.skip(i as int);
        let ch = input.get_char(i);
        if ch == ESC && i + 1 < n && input.get_char(i + 1) == '[' {
            let end = code_end(input, i);
            proof {
                assert(starts_code(rest));
                assert(rest.skip(2) =~= input@.skip(i + 2));
                assert(rest.skip(code_at(rest) as int) =~= input@.skip(end as int));
            }
            i = end;
        } else if ch == ESC {
            proof {
                assert(rest.drop_first() =~= input@.skip(i + 1));
            }
            i += 1;
        } else {
            let ghost before = out@;
            push_char(&mut out, ch);
            proof {
                assert(rest.drop_first() =~= input@.skip(i + 1));
                assert(before + stripped(rest) =~= out@ + stripped(input@.skip(i + 1)));
            }
            i += 1;
        }
    }
    proof {
        assert(input@.skip(n as int) =~= Seq::<char>::empty());
        assert(out@ + Seq::<char>::empty() =~= out@);
    }
    out
}

/// Returns the number of characters of `input` that show, its ANSI codes left out.
pub fn visible_len(input: &str) -> (r: usize)
    ensures
        r == stripped(input@).len(),
{
    strip_ansi(input).as_str().unicode_len()
}

/// Returns `input` with spaces after it up to `width` visible characters.
pub fn pad_ansi_line(input: &str, width: usize) -> (r: String)
    ensures
        stripped(input@).len() >= width ==> r@ == input@,
        stripped(input@).len() < width ==> r@ == input@ + Seq::new(
            (width - stripped(input@).len()) as nat,
            |i: int| ' ',
        ),
{
    let len = visible_len(input);
    let mut r = string_of(input);
    if len < width {
        let mut k: usize = 0;
        while k < width - len
            invariant
                len < width,
                k <= width - len,
                r@ == input@ + Seq::new(k as nat, |i: int| ' '),
            decreases width - len - k,
        {
            push_char(&mut r, ' ');
            k += 1;
            proof {
                assert(r@ =~= input@ + Seq::new(k as nat, |i: int| ' '));
            }
        }
    }
    r
}

/// The tokens of `s`: each ANSI code whole, and each other character alone,
/// with whether it is a code.
pub open spec fn tokens(s: Seq<char>) -> Seq<(Seq<char>, bool)>
    decreases s.len(),
{
    if s.len() == 0 {
        Seq::empty()
    } else if starts_code(s) {
        proof {
            lemma_code_len(s.skip(2));
        }
        seq![(s.take(code_at(s) as int), true)] + tokens(s.skip(code_at(s) as int))
    } else {
        seq![(seq![s[0]], false)] + tokens(s.drop_first())
    }
}

/// The number of tokens at the end of `ts` that are single spaces, not codes.
pub open spec fn trailing_space_tokens(ts: Seq<(Seq<char>, bool)>) -> nat
    decreases ts.len(),
{
    if ts.len() > 0 && !ts.last().1 && ts.last().0 == seq![' '] {
        1 + trailing_space_tokens(ts.drop_last())
    } else {
        0
    }
}

/// The text of the tokens `ts`, one after another.
pub open spec fn tokens_text(ts: Seq<(Seq<char>, bool)>) -> Seq<char>
    decreases ts.len(),
{
    if ts.len() == 0 {
        Seq::empty()
    } else {
        tokens_text(ts.drop_last()) + ts.last().0
    }
}

/// `s` without the spaces that end it after its last ANSI code.
pub open spec fn trimmed_ansi(s: Seq<char>) -> Seq<char> {
    let ts = tokens(s);
    tokens_text(ts.take(ts.len() - trailing_space_tokens(ts)))
}

proof fn lemma_trailing_bound(ts: Seq<(Seq<char>, bool)>)
    ensures
        trailing_space_tokens(ts) <= ts.len(),
    decreases ts.len(),
{
    if ts.len() > 0 && !ts.last().1 && ts.last().0 == seq![' '] {
        lemma_trailing_bound(ts.drop_last());
    }
}

/// Returns the tokens of `input`.
fn tokenize(input: &str) -> (r: Vec<(String, bool)>)
    ensures
        r@.map_values(|t: (String, bool)| (t.0@, t.1)) == tokens(input@),
{
    let n = input.unicode_len();
    let mut out: Vec<(String, bool)> = Vec::new();
    let mut i: usize = 0;
    proof {
        assert(input@.skip(0) =~= input@);
    }
    while i < n
        invariant
            n == input@.len(),
            i <= n,
            out@.map_values(|t: (String, bool)| (t.0@, t.1)) + tokens(input@.skip(i as int))
                == tokens(input@),
        decreases n - i,
    {
        let ghost rest = input@.skip(i as int);
        let ghost before = out@.map_values(|t: (String, bool)| (t.0@, t.1));
        let ch = input.get_char(i);
        if ch == ESC && i + 1 < n && input.get_char(i + 1) == '[' {
            let end = code_end(input, i);
            let code = string_of(input.substring_char(i, end));
            proof {
                assert(starts_code(rest));
                assert(rest.skip(2) =~= input@.skip(i + 2));
                assert(rest.skip(code_at(rest) as int) =~= input@.skip(end as int));
                assert(rest.take(code_at(rest) as int) =~= code@);
            }
            out.push((code, true));
            proof {
                assert(out@.map_values(|t: (String, bool)| (t.0@, t.1)) =~= before.push(
                    (code@, true),
                ));
                assert(before.push((code@, true)) + tokens(input@.skip(end as int)) =~= before
                    + tokens(rest));
            }
            i = end;
        } else {
            let single = crate::text::string_of_char(ch);
            out.push((single, false));
            proof {
                assert(rest[0] == ch);
                assert(rest.drop_first() =~= input@.skip(i + 1));
                assert(out@.map_values(|t: (String, bool)| (t.0@, t.1)) =~= before.push(
                    (seq![ch], false),
                ));
                assert(before.push((seq![ch], false)) + tokens(input@.skip(i + 1)) =~= before
                    + tokens(rest));
            }
            i += 1;
        }
    }
    proof {
        assert(input@.skip(n as int) =~= Seq::<char>::empty());
        assert(out@.map_values(|t: (String, bool)| (t.0@, t.1)) + Seq::<(Seq<char>, bool)>::empty()
            =~= out@.map_values(|t: (String, bool)| (t.0@, t.1)));
    }
    out
}

/// Returns `input` without the spaces that end it after its last ANSI code.
pub fn trim_ansi_trailing_spaces(input: &str) -> (r: String)
    ensures
        r@ == trimmed_ansi(input@),
{
    let tokens_vec = tokenize(input);
    let ghost ts = tokens(input@);
    let mut keep = tokens_vec.len();
    proof {
        assert(ts.take(keep as int) =~= ts);
        lemma_trailing_bound(ts);
    }
    while keep > 0 && !tokens_vec[keep - 1].1 && same_space(tokens_vec[keep - 1].0.as_str())
        invariant
            keep <= tokens_vec.len(),
            ts == tokens_vec@.map_values(|t: (String, bool)| (t.0@, t.1)),
            trailing_space_tokens(ts) == (ts.len() - keep) + trailing_space_tokens(
                ts.take(keep as int),
            ),
        decreases keep,
    {
        proof {
            assert(ts.take(keep as int).last() == ts[keep - 1]);
            assert(ts.take(keep as int).drop_last() =~= ts.take(keep - 1));
        }
        keep -= 1;
    }
    proof {
        if keep > 0 {
            assert(ts.take(keep as int).last() == ts[keep - 1]);
        }
        assert(trailing_space_tokens(ts.take(keep as int)) == 0);
    }
    let mut r = String::new();
    let mut i: usize = 0;
    while i < keep
        invariant
            keep <= tokens_vec.len(),
            ts == tokens_vec@.map_values(|t: (String, bool)| (t.0@, t.1)),
            i <= keep,
            r@ == tokens_text(ts.take(i as int)),
        decreases keep - i,
    {
        push_str(&mut r, tokens_vec[i].0.as_str());
        i += 1;
        proof {
            assert(ts.take(i as int).drop_last() =~= ts.take(i - 1));
        }
    }
    r
}

/// Returns true if `s` is a single space.
fn same_space(s: &str) -> (r: bool)
    ensures
        r == (s@ == seq![' ']),
{
    let r = s.unicode_len() == 1 && s.get_char(0) == ' ';
    proof {
        if s@.len() == 1 && s@[0] == ' ' {
            assert(s@ =~= seq![' ']);
        }
    }
    r
}

/// `n` spaces.
pub open spec fn spaces(n: nat) -> Seq<char> {
    Seq::new(n, |i: int| ' ')
}

/// `n` empty lines.
pub open spec fn blank_lines(n: nat) -> Seq<Seq<char>> {
    Seq::new(n, |i: int| Seq::<char>::empty())
}

/// The text of each line.
pub open spec fn texts_of(lines: Seq<String>) -> Seq<Seq<char>> {
    lines.map_values(|l: String| l@)
}

fn push_spaces(s: &mut String, n: usize)
    ensures
        final(s)@ == old(s)@ + spaces(n as nat),
{
    let mut k: usize = 0;
    while k < n
        invariant
            k <= n,
            s@ == old(s)@ + spaces(k as nat),
        decreases n - k,
    {
        push_char(s, ' ');
        k += 1;
        proof {
            assert(s@ =~= old(s)@ + spaces(k as nat));
        }
    }
}

fn push_blank_lines(lines: &mut Vec<String>, n: usize)
    ensures
        texts_of(final(lines)@) == texts_of(old(lines)@) + blank_lines(n as nat),
{
    let mut k: usize = 0;
    proof {
        assert(texts_of(lines@) =~= texts_of(old(lines)@) + blank_lines(0));
    }
    while k < n
        invariant
            k <= n,
            texts_of(lines@) == texts_of(old(lines)@) + blank_lines(k as nat),
        decreases n - k,
    {
        let blank = String::new();
        let ghost before = texts_of(lines@);
        lines.push(blank);
        k += 1;
        proof {
            assert(texts_of(lines@) =~= before.push(blank@));
            assert(texts_of(lines@) =~= texts_of(old(lines)@) + blank_lines(k as nat));
        }
    }
}

/// `lines` with `pad_h` spaces on each side and `pad_v` empty lines above and below.
pub open spec fn padded_lines(lines: Seq<Seq<char>>, pad_h: nat, pad_v: nat) -> Seq<Seq<char>> {
    blank_lines(pad_v) + lines.map_values(|l: Seq<char>| spaces(pad_h) + l + spaces(pad_h))
        + blank_lines(pad_v)
}

/// Returns `lines` with `pad_h` spaces on each side and `pad_v` empty lines
/// above and below.
pub fn pad_lines(lines: &Vec<String>, pad_h: usize, pad_v: usize) -> (r: Vec<String>)
    ensures
        texts_of(r@) == padded_lines(texts_of(lines@), pad_h as nat, pad_v as nat),
{
    let mut padded: Vec<String> = Vec::new();
    push_blank_lines(&mut padded, pad_v);
    let ghost top = texts_of(padded@);
    let n = lines.len();
    let mut i: usize = 0;
    while i < n
        invariant
            n == lines.len(),
            i <= n,
            top == blank_lines(pad_v as nat),
            texts_of(padded@) == top + texts_of(lines@).take(i as int).map_values(
                |l: Seq<char>| spaces(pad_h as nat) + l + spaces(pad_h as nat),
            ),
        decreases n - i,
    {
        let mut line = String::new();
        push_spaces(&mut line, pad_h);
        push_str(&mut line, lines[i].as_str());
        push_spaces(&mut line, pad_h);
        let ghost before = texts_of(padded@);
        padded.push(line);
        i += 1;
        proof {
            assert(texts_of(padded@) =~= before.push(line@));
            assert(texts_of(lines@).take(i as int) =~= texts_of(lines@).take(i - 1).push(
                lines[i - 1]@,
            ));
            assert(texts_of(padded@) =~= top + texts_of(lines@).take(i as int).map_values(
                |l: Seq<char>| spaces(pad_h as nat) + l + spaces(pad_h as nat),
            ));
        }
    }
    proof {
        assert(texts_of(lines@).take(n as int) =~= texts_of(lines@));
    }
    let ghost middle = texts_of(padded@);
    push_blank_lines(&mut padded, pad_v);
    padded
}

/// `lines` with `extra` empty lines after each of the first two blank ones,
/// `seps` blank lines having been seen before.
pub open spec fn gapped(lines: Seq<Seq<char>>, extra: nat, seps: nat) -> Seq<Seq<char>>
    decreases lines.len(),
{
    if lines.len() == 0 {
        Seq::empty()
    } else if trimmed(lines[0]).len() == 0 && seps < 2 {
        seq![lines[0]] + blank_lines(extra) + gapped(lines.drop_first(), extra, seps + 1)
    } else {
        seq![lines[0]] + gapped(lines.drop_first(), extra, seps)
    }
}

/// Returns `lines` with `extra` empty lines after each of the first two blank ones.
pub fn insert_row_gaps(lines: Vec<String>, extra: usize) -> (r: Vec<String>)
    ensures
        texts_of(r@) == gapped(texts_of(lines@), extra as nat, 0),
{
    let ghost all = texts_of(lines@);
    let mut out: Vec<String> = Vec::new();
    let mut separators: usize = 0;
    let n = lines.len();
    let mut i: usize = 0;
    proof {
        assert(all.skip(0) =~= all);
    }
    while i < n
        invariant
            n == lines.len(),
            all == texts_of(lines@),
            i <= n,
            separators <= 2,
            texts_of(out@) + gapped(all.skip(i as int), extra as nat, separators as nat) == gapped(
                all,
                extra as nat,
                0,
            ),
        decreases n - i,
    {
        let ghost rest = all.skip(i as int);
        let ghost before = texts_of(out@);
        let line = string_of(lines[i].as_str());
        let is_separator = trim(line.as_str()).unicode_len() == 0;
        proof {
            assert(rest[0] == line@);
            assert(rest.drop_first() =~= all.skip(i + 1));
        }
        out.push(line);
        proof {
            assert(texts_of(out@) =~= before.push(line@));
        }
        if is_separator && separators < 2 {
            push_blank_lines(&mut out, extra);
            separators += 1;
            proof {
                assert(before + (seq![line@] + blank_lines(extra as nat) + gapped(
                    all.skip(i + 1),
                    extra as nat,
                    separators as nat,
                )) =~= texts_of(out@) + gapped(all.skip(i + 1), extra as nat, separators as nat));
            }
        } else {
            proof {
                assert(before + (seq![line@] + gapped(
                    all.skip(i + 1),
                    extra as nat,
                    separators as nat,
                )) =~= texts_of(out@) + gapped(all.skip(i + 1), extra as nat, separators as nat));
            }
        }
        i += 1;
    }
    proof {
        assert(all.skip(n as int) =~= Seq::<Seq<char>>::empty());
        assert(texts_of(out@) + Seq::<Seq<char>>::empty() =~= texts_of(out@));
    }
    out
}

/// The number of spaces that end `l`.
pub open spec fn trailing_blanks(l: Seq<char>) -> nat
    decreases l.len(),
{
    if l.len() > 0 && l.last() == ' ' {
        1 + trailing_blanks(l.drop_last())
    } else {
        0
    }
}

proof fn lemma_trailing_blanks(l: Seq<char>)
    ensures
        trailing_blanks(l) <= l.len(),
    decreases l.len(),
{
    if l.len() > 0 && l.last() == ' ' {
        lemma_trailing_blanks(l.drop_last());
    }
}

/// `l` without the spaces that end it.
pub open spec fn right_trimmed(l: Seq<char>) -> Seq<char> {
    l.take(l.len() - trailing_blanks(l))
}

/// Returns `l` without the spaces that end it.
fn trim_end_spaces(l: &str) -> (r: String)
    ensures
        r@ == right_trimmed(l@),
{
    let n = l.unicode_len();
    let mut end = n;
    proof {
        lemma_trailing_blanks(l@);
        assert(l@.take(n as int) =~= l@);
    }
    while end > 0 && l.get_char(end - 1) == ' '
        invariant
            n == l@.len(),
            end <= n,
            trailing_blanks(l@) == (n - end) + trailing_blanks(l@.take(end as int)),
        decreases end,
    {
        proof {
            assert(l@.take(end as int).drop_last() =~= l@.take(end - 1));
        }
        end -= 1;
    }
    proof {
        if end > 0 {
            assert(l@.take(end as int).last() == l@[end - 1]);
        }
    }
    string_of(l.substring_char(0, end))
}

/// The longest of the lines `ls` without their ending spaces.
pub open spec fn widest(ls: Seq<Seq<char>>) -> nat
    decreases ls.len(),
{
    if ls.len() == 0 {
        0
    } else {
        let w = right_trimmed(ls.last()).len();
        let rest = widest(ls.drop_last());
        if w > rest {
            w
        } else {
            rest
        }
    }
}

/// `s` with spaces after it up to `width` characters.
pub open spec fn padded_to(s: Seq<char>, width: nat) -> Seq<char> {
    if s.len() >= width {
        s
    } else {
        s + spaces((width - s.len()) as nat)
    }
}

/// Line `l` placed in an area `width` wide, `left` spaces in, where the widest
/// line is `widest` long.
pub open spec fn centered_line(l: Seq<char>, width: nat, left: nat, widest: nat) -> Seq<char> {
    if widest >= width {
        right_trimmed(l)
    } else {
        padded_to(spaces(left) + right_trimmed(l), width)
    }
}

/// `lines` centred in an area of `width` by `height` characters: empty lines
/// above and below, and each line, less its ending spaces, moved in and padded
/// to the width; an empty area leaves the lines as they are.
pub open spec fn centered(lines: Seq<Seq<char>>, width: nat, height: nat) -> Seq<Seq<char>> {
    if width == 0 || height == 0 {
        lines
    } else {
        let m = widest(lines);
        let left: nat = if width > m {
            ((width - m) / 2) as nat
        } else {
            0
        };
        let n = lines.len();
        let top: nat = if height > n {
            ((height - n) / 2) as nat
        } else {
            0
        };
        let bottom: nat = if height > top + n {
            (height - (top + n)) as nat
        } else {
            0
        };
        blank_lines(top) + lines.map_values(|l: Seq<char>| centered_line(l, width, left, m))
            + blank_lines(bottom)
    }
}

/// Returns `lines` centred in an area of `width` by `height` characters.
pub fn center_lines(lines: &Vec<String>, width: u16, height: u16) -> (r: Vec<String>)
    ensures
        texts_of(r@) == centered(texts_of(lines@), width as nat, height as nat),
{
    let ghost all = texts_of(lines@);
    let n = lines.len();
    if width == 0 || height == 0 {
        let mut copy: Vec<String> = Vec::new();
        let mut i: usize = 0;
        while i < n
            invariant
                n == lines.len(),
                all == texts_of(lines@),
                i <= n,
                texts_of(copy@) == all.take(i as int),
            decreases n - i,
        {
            let ghost before = texts_of(copy@);
            let line = string_of(lines[i].as_str());
            copy.push(line);
            i += 1;
            proof {
                assert(texts_of(copy@) =~= before.push(line@));
                assert(all.take(i as int) =~= all.take(i - 1).push(all[i - 1]));
            }
        }
        proof {
            assert(all.take(n as int) =~= all);
        }
        return copy;
    }
    let w = width as usize;
    let h = height as usize;
    let mut widest_len: usize = 0;
    let mut i: usize = 0;
    while i < n
        invariant
            n == lines.len(),
            all == texts_of(lines@),
            i <= n,
            widest_len == widest(all.take(i as int)),
        decreases n - i,
    {
        let trimmed_line = trim_end_spaces(lines[i].as_str());
        let len = trimmed_line.as_str().unicode_len();
        proof {
            assert(all.take(i + 1).drop_last() =~= all.take(i as int));
            assert(all.take(i + 1).last() == lines[i as int]@);
        }
        if len > widest_len {
            widest_len = len;
        }
        i += 1;
    }
    proof {
        assert(all.take(n as int) =~= all);
    }
    let left = if w > widest_len {
        (w - widest_len) / 2
    } else {
        0
    };
    let top = if h > n {
        (h - n) / 2
    } else {
        0
    };
    let mut centered_lines: Vec<String> = Vec::new();
    push_blank_lines(&mut centered_lines, top);
    let ghost head = texts_of(centered_lines@);
    let mut i: usize = 0;
    while i < n
        invariant
            n == lines.len(),
            all == texts_of(lines@),
            i <= n,
            w == width,
            head == blank_lines(top as nat),
            texts_of(centered_lines@) == head + all.take(i as int).map_values(
                |l: Seq<char>| centered_line(l, w as nat, left as nat, widest_len as nat),
            ),
        decreases n - i,
    {
        let trimmed_line = trim_end_spaces(lines[i].as_str());
        let line = if widest_len >= w {
            trimmed_line
        } else {
            let mut moved = String::new();
            push_spaces(&mut moved, left);
            push_str(&mut moved, trimmed_line.as_str());
            let len = moved.as_str().unicode_len();
            if len < w {
                push_spaces(&mut moved, w - len);
            }
            moved
        };
        let ghost before = texts_of(centered_lines@);
        proof {
            assert(line@ == centered_line(all[i as int], w as nat, left as nat, widest_len as nat));
        }
        centered_lines.push(line);
        i += 1;
        proof {
            assert(texts_of(centered_lines@) =~= before.push(line@));
            assert(all.take(i as int) =~= all.take(i - 1).push(all[i - 1]));
            assert(texts_of(centered_lines@) =~= head + all.take(i as int).map_values(
                |l: Seq<char>| centered_line(l, w as nat, left as nat, widest_len as nat),
            ));
        }
    }
    proof {
        assert(all.take(n as int) =~= all);
    }
    let filled = top + n;
    if h > filled {
        push_blank_lines(&mut centered_lines, h - filled);
    } else {
        proof {
            assert(texts_of(centered_lines@) =~= texts_of(centered_lines@) + blank_lines(0));
        }
    }
    centered_lines
}

/// A bar of `total` marks: '#' for each of the first `value`, '-' for the rest.
pub open spec fn bar(value: nat, total: nat) -> Seq<char> {
    let filled = if value < total {
        value
    } else {
        total
    };
    Seq::new(filled, |i: int| '#') + Seq::new((total - filled) as nat, |i: int| '-')
}

/// Returns a bar of `total` marks, `value` of them filled.
pub fn progress_bar(value: usize, total: usize) -> (r: String)
    ensures
        r@ == bar(value as nat, total as nat),
{
    let filled = if value < total {
        value
    } else {
        total
    };
    let mut r = String::new();
    let mut k: usize = 0;
    while k < filled
        invariant
            k <= filled,
            r@ == Seq::new(k as nat, |i: int| '#'),
        decreases filled - k,
    {
        push_char(&mut r, '#');
        k += 1;
        proof {
            assert(r@ =~= Seq::new(k as nat, |i: int| '#'));
        }
    }
    let ghost head = r@;
    let mut k: usize = 0;
    while k < total - filled
        invariant
            filled <= total,
            k <= total - filled,
            head == Seq::new(filled as nat, |i: int| '#'),
            r@ == head + Seq::new(k as nat, |i: int| '-'),
        decreases total - filled - k,
    {
        push_char(&mut r, '-');
        k += 1;
        proof {
            assert(r@ =~= head + Seq::new(k as nat, |i: int| '-'));
        }
    }
    r
}

/// The title of the progress shown for `stage`.
pub open spec fn progress_title(stage: ProgressStage) -> Seq<char> {
    match stage {
        ProgressStage::Generate => "Generating solution"@,
        ProgressStage::Find => "Finding clues"@,
    }
}

/// Returns the lines that show the progress `value` of 81 in `stage`.
pub fn progress_lines(stage: ProgressStage, value: usize) -> (r: Vec<String>)
    ensures
        texts_of(r@) == seq![progress_title(stage), bar(value as nat, 81)],
{
    let label = match stage {
        ProgressStage::Generate => "Generating solution",
        ProgressStage::Find => "Finding clues",
    };
    let lines = vec![string_of(label), progress_bar(value, 81)];
    proof {
        assert(texts_of(lines@) =~= seq![progress_title(stage), bar(value as nat, 81)]);
    }
    lines
}

/// The longest of the lines `ls` as shown: without codes, after dropping the
/// spaces that end them.
pub open spec fn widest_visible(ls: Seq<Seq<char>>) -> nat
    decreases ls.len(),
{
    if ls.len() == 0 {
        0
    } else {
        let w = stripped(trimmed_ansi(ls.last())).len();
        let rest = widest_visible(ls.drop_last());
        if w > rest {
            w
        } else {
            rest
        }
    }
}

/// `s` with spaces after it up to `width` characters as shown.
pub open spec fn padded_visible(s: Seq<char>, width: nat) -> Seq<char> {
    if stripped(s).len() >= width {
        s
    } else {
        s + spaces((width - stripped(s).len()) as nat)
    }
}

/// Line `l`, which may hold codes, placed in an area `width` wide, `left`
/// spaces in, where the widest line shows `widest` characters.
pub open spec fn centered_visible_line(l: Seq<char>, width: nat, left: nat, widest: nat) -> Seq<char> {
    if widest >= width {
        trimmed_ansi(l)
    } else {
        padded_visible(spaces(left) + trimmed_ansi(l), width)
    }
}

/// `lines`, which may hold codes, centred in an area of `width` by `height`
/// characters as they are shown.
pub open spec fn centered_visible(lines: Seq<Seq<char>>, width: nat, height: nat) -> Seq<Seq<char>> {
    if width == 0 || height == 0 {
        lines
    } else {
        let m = widest_visible(lines);
        let left: nat = if width > m {
            ((width - m) / 2) as nat
        } else {
            0
        };
        let n = lines.len();
        let top: nat = if height > n {
            ((height - n) / 2) as nat
        } else {
            0
        };
        let bottom: nat = if height > top + n {
            (height - (top + n)) as nat
        } else {
            0
        };
        blank_lines(top) + lines.map_values(
            |l: Seq<char>| centered_visible_line(l, width, left, m),
        ) + blank_lines(bottom)
    }
}

/// Returns `lines`, which may hold codes, centred in an area of `width` by
/// `height` characters as they are shown.
pub fn center_lines_visible(lines: &Vec<String>, width: u16, height: u16) -> (r: Vec<String>)
    ensures
        texts_of(r@) == centered_visible(texts_of(lines@), width as nat, height as nat),
{
    let ghost all = texts_of(lines@);
    let n = lines.len();
    if width == 0 || height == 0 {
        let mut copy: Vec<String> = Vec::new();
        let mut i: usize = 0;
        while i < n
            invariant
                n == lines.len(),
                all == texts_of(lines@),
                i <= n,
                texts_of(copy@) == all.take(i as int),
            decreases n - i,
        {
            let ghost before = texts_of(copy@);
            let line = string_of(lines[i].as_str());
            copy.push(line);
            i += 1;
            proof {
                assert(texts_of(copy@) =~= before.push(line@));
                assert(all.take(i as int) =~= all.take(i - 1).push(all[i - 1]));
            }
        }
        proof {
            assert(all.take(n as int) =~= all);
        }
        return copy;
    }
    let w = width as usize;
    let h = height as usize;
    let mut widest_len: usize = 0;
    let mut i: usize = 0;
    while i < n
        invariant
            n == lines.len(),
            all == texts_of(lines@),
            i <= n,
            widest_len == widest_visible(all.take(i as int)),
        decreases n - i,
    {
        let trimmed_line = trim_ansi_trailing_spaces(lines[i].as_str());
        let len = visible_len(trimmed_line.as_str());
        proof {
            assert(all.take(i + 1).drop_last() =~= all.take(i as int));
            assert(all.take(i + 1).last() == lines[i as int]@);
        }
        if len > widest_len {
            widest_len = len;
        }
        i += 1;
    }
    proof {
        assert(all.take(n as int) =~= all);
    }
    let left = if w > widest_len {
        (w - widest_len) / 2
    } else {
        0
    };
    let top = if h > n {
        (h - n) / 2
    } else {
        0
    };
    let mut centered_lines: Vec<String> = Vec::new();
    push_blank_lines(&mut centered_lines, top);
    let ghost head = texts_of(centered_lines@);
    let mut i: usize = 0;
    while i < n
        invariant
            n == lines.len(),
            all == texts_of(lines@),
            i <= n,
            w == width,
            head == blank_lines(top as nat),
            texts_of(centered_lines@) == head + all.take(i as int).map_values(
                |l: Seq<char>| centered_visible_line(l, w as nat, left as nat, widest_len as nat),
            ),
        decreases n - i,
    {
        let trimmed_line = trim_ansi_trailing_spaces(lines[i].as_str());
        let line = if widest_len >= w {
            trimmed_line
        } else {
            let mut moved = String::new();
            push_spaces(&mut moved, left);
            push_str(&mut moved, trimmed_line.as_str());
            pad_ansi_line(moved.as_str(), w)
        };
        let ghost before = texts_of(centered_lines@);
        proof {
            assert(line@ == centered_visible_line(
                all[i as int],
                w as nat,
                left as nat,
                widest_len as nat,
            ));
        }
        centered_lines.push(line);
        i += 1;
        proof {
            assert(texts_of(centered_lines@) =~= before.push(line@));
            assert(all.take(i as int) =~= all.take(i - 1).push(all[i - 1]));
            assert(texts_of(centered_lines@) =~= head + all.take(i as int).map_values(
                |l: Seq<char>| centered_visible_line(l, w as nat, left as nat, widest_len as nat),
            ));
        }
    }
    proof {
        assert(all.take(n as int) =~= all);
    }
    let filled = top + n;
    if h > filled {
        push_blank_lines(&mut centered_lines, h - filled);
    } else {
        proof {
            assert(texts_of(centered_lines@) =~= texts_of(centered_lines@) + blank_lines(0));
        }
    }
    centered_lines
}

/// A colour that a code may give text.
#[derive(Clone, Copy, Debug, PartialEq, Eq, Structural)]
pub enum Color {
    DarkGray,
    LightRed,
    LightGreen,
    LightYellow,
    LightBlue,
    LightMagenta,
    LightCyan,
}

/// How text is shown: its colour, if any, and whether it is bold or blinks.
#[derive(Clone, Copy, Debug, PartialEq, Eq, Structural)]
pub struct Style {
    pub fg: Option<Color>,
    pub bold: bool,
    pub blink: bool,
}

/// Text shown in one style.
#[derive(Clone, Debug)]
pub struct StyledSpan {
    pub text: String,
    pub style: Style,
}

/// The plain style.
pub open spec fn plain_style() -> Style {
    Style { fg: None, bold: false, blink: false }
}

/// `style` changed by the code `code`: "0" resets, "1" is bold, "5" blinks,
/// "90" to "96" set a light colour, and any other code changes nothing.
pub open spec fn apply_code(style: Style, code: Seq<char>) -> Style {
    if code == seq!['0'] {
        plain_style()
    } else if code == seq!['1'] {
        Style { bold: true, ..style }
    } else if code == seq!['5'] {
        Style { blink: true, ..style }
    } else if code.len() == 2 && code[0] == '9' && '0' <= code[1] <= '6' {
        Style {
            fg: Some(
                if code[1] == '0' {
                    Color::DarkGray
                } else if code[1] == '1' {
                    Color::LightRed
                } else if code[1] == '2' {
                    Color::LightGreen
                } else if code[1] == '3' {
                    Color::LightYellow
                } else if code[1] == '4' {
                    Color::LightBlue
                } else if code[1] == '5' {
                    Color::LightMagenta
                } else {
                    Color::LightCyan
                },
            ),
            ..style
        }
    } else {
        style
    }
}

/// `style` changed by each of `codes` in turn.
pub open spec fn apply_codes(style: Style, codes: Seq<Seq<char>>) -> Style
    decreases codes.len(),
{
    if codes.len() == 0 {
        style
    } else {
        apply_codes(apply_code(style, codes[0]), codes.drop_first())
    }
}

/// The codes of the text `t` after "ESC [": the pieces between ';' up to 'm',
/// empty ones left out; without an 'm' the last piece is lost.
pub open spec fn codes_in(t: Seq<char>, current: Seq<char>) -> Seq<Seq<char>>
    decreases t.len(),
{
    let kept = if current.len() > 0 {
        seq![current]
    } else {
        Seq::<Seq<char>>::empty()
    };
    if t.len() == 0 {
        Seq::empty()
    } else if t[0] == 'm' {
        kept
    } else if t[0] == ';' {
        kept + codes_in(t.drop_first(), Seq::empty())
    } else {
        codes_in(t.drop_first(), current.push(t[0]))
    }
}

/// The styled pieces of `s`, its codes read and left out, the pieces begun
/// before it being `pending` in `style`.
pub open spec fn styled_pieces(s: Seq<char>, style: Style, pending: Seq<char>) -> Seq<(Seq<char>, Style)>
    decreases s.len(),
{
    let flushed = if pending.len() > 0 {
        seq![(pending, style)]
    } else {
        Seq::<(Seq<char>, Style)>::empty()
    };
    if s.len() == 0 {
        flushed
    } else if starts_code(s) {
        proof {
            lemma_code_len(s.skip(2));
        }
        flushed + styled_pieces(
            s.skip(code_at(s) as int),
            apply_codes(style, codes_in(s.skip(2), Seq::empty())),
            Seq::empty(),
        )
    } else {
        styled_pieces(s.drop_first(), style, pending.push(s[0]))
    }
}

/// The styled pieces of a line.
pub open spec fn spans_view(spans: Seq<StyledSpan>) -> Seq<(Seq<char>, Style)> {
    spans.map_values(|p: StyledSpan| (p.text@, p.style))
}

/// Returns `style` changed by the code `code`.
fn apply_one(style: Style, code: &str) -> (r: Style)
    ensures
        r == apply_code(style, code@),
{
    let n = code.unicode_len();
    if n == 1 {
        let c = code.get_char(0);
        proof {
            assert(code@ =~= seq![c]);
        }
        if c == '0' {
            return Style { fg: None, bold: false, blink: false };
        } else if c == '1' {
            return Style { bold: true, ..style };
        } else if c == '5' {
            return Style { blink: true, ..style };
        }
        return style;
    }
    if n == 2 && code.get_char(0) == '9' {
        let c = code.get_char(1);
        let color = match c {
            '0' => Some(Color::DarkGray),
            '1' => Some(Color::LightRed),
            '2' => Some(Color::LightGreen),
            '3' => Some(Color::LightYellow),
            '4' => Some(Color::LightBlue),
            '5' => Some(Color::LightMagenta),
            '6' => Some(Color::LightCyan),
            _ => None,
        };
        return match color {
            Some(fg) => Style { fg: Some(fg), ..style },
            None => style,
        };
    }
    proof {
        if n == 1 {
            assert(code@.len() == 1);
        }
    }
    style
}

/// Returns the styled pieces of `line`, its ANSI codes read and left out.
pub fn ansi_line_to_line(line: &str) -> (r: Vec<StyledSpan>)
    ensures
        spans_view(r@) == styled_pieces(line@, plain_style(), Seq::empty()),
{
    let n = line.unicode_len();
    let mut spans: Vec<StyledSpan> = Vec::new();
    let mut style = Style { fg: None, bold: false, blink: false };
    let mut buf = String::new();
    let mut i: usize = 0;
    proof {
        assert(line@.skip(0) =~= line@);
    }
    while i < n
        invariant
            n == line@.len(),
            i <= n,
            spans_view(spans@) + styled_pieces(line@.skip(i as int), style, buf@) == styled_pieces(
                line@,
                plain_style(),
                Seq::empty(),
            ),
        decreases n - i,
    {
        let ghost rest = line@.skip(i as int);
        let ch = line.get_char(i);
        if ch == ESC && i + 1 < n && line.get_char(i + 1) == '[' {
            let end = code_end(line, i);
            proof {
                assert(starts_code(rest));
                assert(rest.skip(2) =~= line@.skip(i + 2));
                assert(rest.skip(code_at(rest) as int) =~= line@.skip(end as int));
            }
            let closed = end > i + 2 && line.get_char(end - 1) == 'm';
            let body_end = if closed {
                end - 1
            } else {
                end
            };
            let mut codes: Vec<String> = Vec::new();
            let mut code = String::new();
            let mut j: usize = i + 2;
            proof {
                assert(line@.skip(i + 2) =~= line@.skip(j as int));
            }
            while j < body_end
                invariant
                    n == line@.len(),
                    i + 2 <= j <= body_end <= end <= n,
                    forall|k: int| i + 2 <= k < body_end ==> line@[k] != 'm',
                    codes@.map_values(|c: String| c@) + codes_in(line@.skip(j as int), code@)
                        == codes_in(line@.skip(i + 2), Seq::empty()),
                decreases body_end - j,
            {
                let c = line.get_char(j);
                let ghost t = line@.skip(j as int);
                let ghost before = codes@.map_values(|c: String| c@);
                let ghost current = code@;
                proof {
                    assert(t[0] == c);
                    assert(t.drop_first() =~= line@.skip(j + 1));
                }
                if c == ';' {
                    if code.as_str().unicode_len() > 0 {
                        let done = string_of(code.as_str());
                        codes.push(done);
                        proof {
                            assert(codes@.map_values(|c: String| c@) =~= before.push(done@));
                        }
                    }
                    code = String::new();
                    j += 1;
                    proof {
                        assert(codes@.map_values(|c: String| c@) + codes_in(line@.skip(j as int), code@)
                            =~= before + codes_in(t, current));
                    }
                } else {
                    push_char(&mut code, c);
                    j += 1;
                }
            }
            let ghost before = codes@.map_values(|c: String| c@);
            let ghost current = code@;
            if closed {
                proof {
                    assert(line@.skip(j as int)[0] == 'm');
                }
                if code.as_str().unicode_len() > 0 {
                    let done = string_of(code.as_str());
                    codes.push(done);
                    proof {
                        assert(codes@.map_values(|c: String| c@) =~= before.push(done@));
                    }
                }
                proof {
                    assert(codes@.map_values(|c: String| c@) =~= before + codes_in(
                        line@.skip(j as int),
                        current,
                    ));
                }
            } else {
                proof {
                    assert(line@.skip(j as int) =~= Seq::<char>::empty());
                    assert(codes@.map_values(|c: String| c@) =~= before + codes_in(
                        line@.skip(j as int),
                        current,
                    ));
                }
            }
            proof {
                assert(codes@.map_values(|c: String| c@) =~= codes_in(line@.skip(i + 2), Seq::empty()));
            }
            let ghost before_spans = spans_view(spans@);
            let ghost pending = buf@;
            let ghost old_style = style;
            if buf.as_str().unicode_len() > 0 {
                let piece = StyledSpan { text: buf, style };
                spans.push(piece);
                buf = String::new();
                proof {
                    assert(spans_view(spans@) =~= before_spans.push((pending, old_style)));
                }
            }
            let mut k: usize = 0;
            let ghost all_codes = codes@.map_values(|c: String| c@);
            proof {
                assert(all_codes.skip(0) =~= all_codes);
            }
            while k < codes.len()
                invariant
                    k <= codes.len(),
                    all_codes == codes@.map_values(|c: String| c@),
                    apply_codes(style, all_codes.skip(k as int)) == apply_codes(old_style, all_codes),
                decreases codes.len() - k,
            {
                proof {
                    assert(all_codes.skip(k as int)[0] == codes@[k as int]@);
                    assert(all_codes.skip(k as int).drop_first() =~= all_codes.skip(k + 1));
                }
                style = apply_one(style, codes[k].as_str());
                k += 1;
            }
            proof {
                assert(all_codes.skip(k as int) =~= Seq::<Seq<char>>::empty());
                let flushed = if pending.len() > 0 {
                    seq![(pending, old_style)]
                } else {
                    Seq::<(Seq<char>, Style)>::empty()
                };
                assert(spans_view(spans@) =~= before_spans + flushed);
                assert(buf@ =~= Seq::<char>::empty());
            }
            i = end;
        } else {
            let ghost pending = buf@;
            push_char(&mut buf, ch);
            proof {
                assert(rest[0] == ch);
                assert(rest.drop_first() =~= line@.skip(i + 1));
                if ch == ESC && i + 1 < n {
                    assert(!starts_code(rest));
                }
            }
            i += 1;
        }
    }
    proof {
        assert(line@.skip(n as int) =~= Seq::<char>::empty());
    }
    let ghost before_spans = spans_view(spans@);
    if buf.as_str().unicode_len() > 0 {
        let ghost pending = buf@;
        spans.push(StyledSpan { text: buf, style });
        proof {
            assert(spans_view(spans@) =~= before_spans.push((pending, style)));
        }
    } else {
        proof {
            assert(before_spans + Seq::<(Seq<char>, Style)>::empty() =~= before_spans);
        }
    }
    spans
}

/// The code that sets bright black text.
pub open spec fn bright_black_code() -> Seq<char> {
    seq![ESC, '[', '9', '0', 'm']
}

/// The code that resets all styles.
pub open spec fn reset_code() -> Seq<char> {
    seq![ESC, '[', '0', 'm']
}

/// `s` with the bright black code put back after each reset code in it, from
/// left to right.
pub open spec fn restyled(s: Seq<char>) -> Seq<char>
    decreases s.len(),
{
    if s.len() == 0 {
        s
    } else if s.len() >= 4 && s.take(4) == reset_code() {
        reset_code() + bright_black_code() + restyled(s.skip(4))
    } else {
        seq![s[0]] + restyled(s.skip(1))
    }
}

/// `s` in bright black where `colour` holds, else `s` itself.
pub open spec fn dimmed(s: Seq<char>, colour: bool) -> Seq<char> {
    if colour {
        bright_black_code() + restyled(s) + reset_code()
    } else {
        s
    }
}

/// `l` with its text before the ending spaces in bright black where `colour`
/// holds; a line of spaces alone stays as it is.
pub open spec fn grayed(l: Seq<char>, colour: bool) -> Seq<char> {
    let t = trailing_blanks(l);
    if t == 0 {
        dimmed(l, colour)
    } else if right_trimmed(l).len() == 0 {
        l
    } else {
        dimmed(right_trimmed(l), colour) + spaces(t)
    }
}

/// `colored::Colorize::bright_black` on `s`, written out with `to_string`.
/// colored writes the codes only where its check of the environment
/// (`CLICOLOR_FORCE`, `NO_COLOR`, `CLICOLOR` and whether standard output is a
/// terminal) allows colour, and `s` unchanged otherwise; which of the two comes
/// back is not stated.
#[verifier::external_body]
fn bright_black_text(s: &str) -> (r: String)
    ensures
        r@ == dimmed(s@, false) || r@ == dimmed(s@, true),
{
    colored::Colorize::bright_black(s).to_string()
}

/// Shows `line` in bright black, leaving its ending spaces uncoloured.
pub fn gray_line(line: &str) -> (r: String)
    ensures
        r@ == grayed(line@, false) || r@ == grayed(line@, true),
{
    let trimmed_line = trim_end_spaces(line);
    let total = line.unicode_len();
    let kept = trimmed_line.as_str().unicode_len();
    proof {
        lemma_trailing_blanks(line@);
    }
    if kept == total {
        proof {
            assert(trailing_blanks(line@) == 0);
        }
        return bright_black_text(line);
    }
    if kept == 0 {
        return string_of(line);
    }
    let mut out = bright_black_text(trimmed_line.as_str());
    push_spaces(&mut out, total - kept);
    out
}

/// Shows each line in bright black, as `gray_line` does.
pub fn gray_lines(lines: Vec<String>) -> (r: Vec<String>)
    ensures
        r.len() == lines.len(),
        forall|i: int|
            0 <= i < lines.len() ==> (#[trigger] r[i])@ == grayed(lines[i]@, false) || r[i]@
                == grayed(lines[i]@, true),
{
    let mut out: Vec<String> = Vec::new();
    let mut i: usize = 0;
    while i < lines.len()
        invariant
            i <= lines.len(),
            out.len() == i,
            forall|j: int|
                0 <= j < i ==> (#[trigger] out[j])@ == grayed(lines[j]@, false) || out[j]@
                    == grayed(lines[j]@, true),
        decreases lines.len() - i,
    {
        let g = gray_line(lines[i].as_str());
        out.push(g);
        i += 1;
    }
    out
}

/// `s` holds no escape character.
pub open spec fn no_escape(s: Seq<char>) -> bool {
    forall|i: int| 0 <= i < s.len() ==> s[i] != ESC
}

/// Text without escapes before `b` passes through unchanged.
proof fn lemma_stripped_plain_prefix(a: Seq<char>, b: Seq<char>)
    requires
        no_escape(a),
    ensures
        stripped(a + b) == a + stripped(b),
    decreases a.len(),
{
    if a.len() > 0 {
        let s = a + b;
        assert(s[0] == a[0]);
        assert(s.drop_first() =~= a.drop_first() + b);
        lemma_stripped_plain_prefix(a.drop_first(), b);
        assert(a =~= seq![a[0]] + a.drop_first());
        assert(stripped(s) == seq![a[0]] + stripped(a.drop_first() + b));
        assert(stripped(s) =~= a + stripped(b));
    } else {
        assert(a + b =~= b);
    }
}

/// The bright black code and the reset code leave no text.
proof fn lemma_stripped_code(code: Seq<char>, rest: Seq<char>)
    requires
        code == bright_black_code() || code == reset_code(),
    ensures
        stripped(code + rest) == stripped(rest),
{
    let s = code + rest;
    assert(s[0] == ESC && s[1] == '[');
    let t = s.skip(2);
    let t1 = t.drop_first();
    let t2 = t1.drop_first();
    if code == bright_black_code() {
        assert(t[0] == '9' && t1[0] == '0' && t2[0] == 'm');
        assert(code_len(t2) == 1);
        assert(code_len(t1) == 2);
        assert(code_len(t) == 3);
        assert(s.skip(5) =~= rest);
    } else {
        assert(t[0] == '0' && t1[0] == 'm');
        assert(code_len(t1) == 1);
        assert(code_len(t) == 2);
        assert(s.skip(4) =~= rest);
    }
}

/// Text without escapes holds no reset code to restyle.
proof fn lemma_restyled_plain(s: Seq<char>)
    requires
        no_escape(s),
    ensures
        restyled(s) == s,
    decreases s.len(),
{
    if s.len() > 0 {
        if s.len() >= 4 {
            assert(s.take(4)[0] != reset_code()[0]);
        }
        lemma_restyled_plain(s.skip(1));
        assert(s =~= seq![s[0]] + s.skip(1));
    }
}

/// A line is its text before the ending spaces followed by those spaces.
proof fn lemma_trimmed_and_spaces(l: Seq<char>)
    ensures
        right_trimmed(l) + spaces(trailing_blanks(l)) == l,
    decreases l.len(),
{
    lemma_trailing_blanks(l);
    if l.len() > 0 && l.last() == ' ' {
        let rest = l.drop_last();
        lemma_trimmed_and_spaces(rest);
        lemma_trailing_blanks(rest);
        assert(right_trimmed(l) =~= right_trimmed(rest));
        assert(spaces(trailing_blanks(l)) =~= spaces(trailing_blanks(rest)).push(' '));
        assert(l =~= rest.push(' '));
        assert(right_trimmed(l) + spaces(trailing_blanks(l)) =~= (right_trimmed(rest) + spaces(
            trailing_blanks(rest),
        )).push(' '));
    } else {
        assert(l.take(l.len() as int) =~= l);
        assert(l + spaces(0) =~= l);
    }
}

/// A coloured line of text without escapes still shows the same text once
/// its codes are stripped.
proof fn lemma_dimmed_text(s: Seq<char>, rest: Seq<char>, colour: bool)
    requires
        no_escape(s),
        no_escape(rest),
    ensures
        stripped(dimmed(s, colour) + rest) == s + rest,
{
    lemma_restyled_plain(s);
    lemma_stripped_plain_prefix(rest, Seq::empty());
    assert(rest + Seq::<char>::empty() =~= rest);
    assert(stripped(Seq::<char>::empty()) =~= Seq::<char>::empty());
    if colour {
        let code = bright_black_code();
        let reset = reset_code();
        assert(dimmed(s, colour) + rest =~= code + (s + (reset + rest)));
        lemma_stripped_code(code, s + (reset + rest));
        lemma_stripped_plain_prefix(s, reset + rest);
        lemma_stripped_code(reset, rest);
    } else {
        lemma_stripped_plain_prefix(s + rest, Seq::empty());
        assert(no_escape(s + rest));
        assert(s + rest + Seq::<char>::empty() =~= s + rest);
    }
}

/// Greying a line of text without escapes changes only its colour: with its
/// codes stripped it is the line again.
pub proof fn lemma_gray_keeps_text(l: Seq<char>, colour: bool)
    requires
        no_escape(l),
    ensures
        stripped(grayed(l, colour)) == l,
{
    lemma_trailing_blanks(l);
    lemma_trimmed_and_spaces(l);
    let t = trailing_blanks(l);
    let rt = right_trimmed(l);
    assert(no_escape(rt));
    assert(no_escape(spaces(t)));
    if t == 0 {
        lemma_dimmed_text(l, Seq::empty(), colour);
        assert(dimmed(l, colour) + Seq::<char>::empty() =~= dimmed(l, colour));
        assert(l + Seq::<char>::empty() =~= l);
    } else if rt.len() == 0 {
        lemma_stripped_plain_prefix(l, Seq::empty());
        assert(l + Seq::<char>::empty() =~= l);
        assert(stripped(Seq::<char>::empty()) =~= Seq::<char>::empty());
    } else {
        lemma_dimmed_text(rt, spaces(t), colour);
    }
}

/// Stripping leaves no escape character.
pub proof fn lemma_stripped_has_no_escape(s: Seq<char>)
    ensures
        no_escape(stripped(s)),
    decreases s.len(),
{
    if s.len() > 0 {
        if starts_code(s) {
            lemma_code_len(s.skip(2));
            lemma_stripped_has_no_escape(s.skip(code_at(s) as int));
        } else if s[0] == ESC {
            lemma_stripped_has_no_escape(s.drop_first());
        } else {
            lemma_stripped_has_no_escape(s.drop_first());
            let r = stripped(s.drop_first());
            assert forall|i: int| 0 <= i < (seq![s[0]] + r).len() implies (seq![s[0]] + r)[i] != ESC by {
                if i > 0 {
                    assert((seq![s[0]] + r)[i] == r[i - 1]);
                }
            }
        }
    }
}

/// Text without escapes is left as it is by stripping.
pub proof fn lemma_stripped_plain(s: Seq<char>)
    requires
        no_escape(s),
    ensures
        stripped(s) == s,
{
    lemma_stripped_plain_prefix(s, Seq::empty());
    assert(s + Seq::<char>::empty() =~= s);
    assert(stripped(Seq::<char>::empty()) =~= Seq::<char>::empty());
}

/// Stripping twice gives what stripping once does.
pub proof fn lemma_stripped_twice(s: Seq<char>)
    ensures
        stripped(stripped(s)) == stripped(s),
{
    lemma_stripped_has_no_escape(s);
    lemma_stripped_plain(stripped(s));
}

} // verus!
