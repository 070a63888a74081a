//! Where the overlays of the full-screen player go, and the lines of the
//! input box.
use vstd::prelude::*;

use crate::commands::tui::InputState;
use crate::commands::tui_text::spaces;
use crate::text::{byte_len, push_char, string_of, utf8_byte_len};

verus! {

/// A rectangle of the screen, in character cells.
#[derive(Clone, Copy, Debug, PartialEq, Eq, Structural)]
pub struct Area {
    pub x: u16,
    pub y: u16,
    pub width: u16,
    pub height: u16,
}

/// `a` lies on a screen whose coordinates fit in a `u16`.
pub open spec fn on_screen(a: Area) -> bool {
    a.x + a.width <= u16::MAX && a.y + a.height <= u16::MAX
}

/// Returns the area inside the border of `area`; an area too small for a
/// border is returned as it is.
pub fn inner_rect(area: Area) -> (r: Area)
    requires
        on_screen(area),
    ensures
        area.width < 2 || area.height < 2 ==> r == area,
        !(area.width < 2 || area.height < 2) ==> r == (Area {
            x: (area.x + 1) as u16,
            y: (area.y + 1) as u16,
            width: (area.width - 2) as u16,
            height: (area.height - 2) as u16,
        }),
        on_screen(r),
{
    if area.width < 2 || area.height < 2 {
        return area;
    }
    Area { x: area.x + 1, y: area.y + 1, width: area.width - 2, height: area.height - 2 }
}

/// The area `width` by `height`, each cut down to that of `rect`, in the middle of `rect`.
pub open spec fn centered_in(width: u16, height: u16, rect: Area) -> Area {
    let w: u16 = if width < rect.width {
        width
    } else {
        rect.width
    };
    let h: u16 = if height < rect.height {
        height
    } else {
        rect.height
    };
    Area {
        x: (rect.x + (rect.width - w) / 2) as u16,
        y: (rect.y + (rect.height - h) / 2) as u16,
        width: w,
        height: h,
    }
}

/// Returns an area `width` by `height`, cut down to fit, in the middle of `rect`.
pub fn centered_rect_exact(width: u16, height: u16, rect: Area) -> (r: Area)
    requires
        on_screen(rect),
    ensures
        r == centered_in(width, height, rect),
        on_screen(r),
{
    let width = if width < rect.width {
        width
    } else {
        rect.width
    };
    let height = if height < rect.height {
        height
    } else {
        rect.height
    };
    let x = rect.x + (rect.width - width) / 2;
    let y = rect.y + (rect.height - height) / 2;
    Area { x, y, width, height }
}

/// Returns the margin left around an overlay: two cells on a large screen, one otherwise.
pub fn overlay_inset(size: Area) -> (r: u16)
    ensures
        r == (if size.width >= 120 || size.height >= 40 {
            2u16
        } else {
            1u16
        }),
{
    if size.width >= 120 || size.height >= 40 {
        2
    } else {
        1
    }
}

/// `a - b`, or zero where `b` is larger.
pub open spec fn minus(a: int, b: int) -> int {
    if a > b {
        a - b
    } else {
        0
    }
}

/// The room that an overlay may take on `size`: the screen less the margin on
/// each side, at least four cells each way.
pub open spec fn overlay_room(size: Area, inset: u16) -> Area {
    let max_width = if minus(size.width as int, 2 * inset) > 4 {
        minus(size.width as int, 2 * inset)
    } else {
        4
    };
    let max_height = if minus(size.height as int, 2 * inset) > 4 {
        minus(size.height as int, 2 * inset)
    } else {
        4
    };
    Area {
        x: (size.x + inset) as u16,
        y: (size.y + inset) as u16,
        width: max_width as u16,
        height: max_height as u16,
    }
}

/// The room for an overlay on `size` lies on the screen.
pub open spec fn room_fits(size: Area) -> bool {
    let inset: u16 = if size.width >= 120 || size.height >= 40 {
        2
    } else {
        1
    };
    let room = overlay_room(size, inset);
    size.x + inset + room.width <= u16::MAX && size.y + inset + room.height <= u16::MAX
}

/// Returns the area of an overlay `width` by `height` in the middle of `size`,
/// inside its margin.
pub fn overlay_rect_with_inset(size: Area, width: u16, height: u16) -> (r: Area)
    requires
        room_fits(size),
    ensures
        r == centered_in(
            width,
            height,
            overlay_room(
                size,
                if size.width >= 120 || size.height >= 40 {
                    2u16
                } else {
                    1u16
                },
            ),
        ),
{
    let inset = overlay_inset(size);
    let max_width = if size.width > 2 * inset && size.width - 2 * inset > 4 {
        size.width - 2 * inset
    } else {
        4
    };
    let max_height = if size.height > 2 * inset && size.height - 2 * inset > 4 {
        size.height - 2 * inset
    } else {
        4
    };
    let rect = Area { x: size.x + inset, y: size.y + inset, width: max_width, height: max_height };
    centered_rect_exact(width, height, rect)
}

/// The width inside the input box for text `content_len` long: room for the
/// text and four more, at least thirty, rounded up to a multiple of ten.
pub open spec fn inner_width_for(content_len: nat) -> nat {
    let desired = if content_len + 4 > 30 {
        content_len + 4
    } else {
        30
    };
    (10 * ((desired + 9) / 10)) as nat
}

/// Returns the width inside the input box for text `content_len` long.
pub fn input_overlay_inner_width(content_len: usize) -> (r: usize)
    requires
        inner_width_for(content_len as nat) <= usize::MAX,
    ensures
        r == inner_width_for(content_len as nat),
{
    let desired = if content_len > 26 {
        content_len + 4
    } else {
        30
    };
    proof {
        assert((desired + 9) / 10 == desired / 10 + if desired % 10 == 0 {
            0int
        } else {
            1int
        }) by (nonlinear_arith);
    }
    10 * (desired / 10 + if desired % 10 == 0 {
        0
    } else {
        1
    })
}

/// Returns the area of the input box for `line_count` lines of `inner_width`
/// characters, in the middle of `size`.
pub fn input_overlay_rect(inner_width: usize, line_count: usize, size: Area) -> (r: Area)
    requires
        on_screen(size),
        (inner_width as u16) < u16::MAX - 1,
        (line_count as u16) < u16::MAX - 1,
    ensures
        ({
            let wanted = (inner_width as u16) + 2;
            let max_width = if minus(size.width as int, 2) > 30 {
                minus(size.width as int, 2)
            } else {
                30
            };
            let width = if wanted > max_width {
                max_width
            } else {
                wanted
            };
            let wanted_height = (line_count as u16) + 2;
            let height = if wanted_height < minus(size.height as int, 2) {
                wanted_height
            } else {
                minus(size.height as int, 2)
            };
            r == centered_in(width as u16, height as u16, size)
        }),
{
    let mut width = inner_width as u16 + 2;
    let room = if size.width > 2 {
        size.width - 2
    } else {
        0
    };
    let max_width = if room > 30 {
        room
    } else {
        30
    };
    if width > max_width {
        width = max_width;
    }
    let wanted_height = line_count as u16 + 2;
    let room_height = if size.height > 2 {
        size.height - 2
    } else {
        0
    };
    let height = if wanted_height < room_height {
        wanted_height
    } else {
        room_height
    };
    centered_rect_exact(width, height, size)
}

/// Returns the space between the columns of candidate grids: two where the
/// grids and that space fit in `available_width`, one otherwise.
pub fn choose_column_spacing(available_width: u16, base_width: usize) -> (r: usize)
    requires
        base_width + 4 <= usize::MAX,
    ensures
        r == (if available_width >= base_width + 4 {
            2usize
        } else {
            1usize
        }),
{
    let spacing_two = base_width + 4;
    if available_width as usize >= spacing_two {
        2
    } else {
        1
    }
}

/// Returns the number of empty lines between rows of grids: always one.
pub fn row_spacing(grid_height: usize, available_height: usize) -> (r: usize)
    ensures
        r == 1,
{
    1
}

/// How a piece of text is shown: plain, as a dim hint, or as an error.
#[derive(Clone, Copy, Debug, PartialEq, Eq, Structural)]
pub enum Tone {
    Plain,
    Hint,
    Error,
}

/// A piece of a line shown in one tone.
#[derive(Clone, Debug)]
pub struct Span {
    pub text: String,
    pub tone: Tone,
}

/// A line made of pieces.
#[derive(Clone, Debug)]
pub struct TextLine {
    pub spans: Vec<Span>,
}

/// A line in plain values: its pieces.
pub open spec fn line_view(line: TextLine) -> Seq<(Seq<char>, Tone)> {
    line.spans@.map_values(|s: Span| (s.text@, s.tone))
}

/// A line of one plain piece, with its length.
pub open spec fn plain(text: Seq<char>) -> (Seq<(Seq<char>, Tone)>, nat) {
    (seq![(text, Tone::Plain)], text.len())
}

/// The empty line.
pub open spec fn empty_line() -> (Seq<(Seq<char>, Tone)>, nat) {
    (seq![(Seq::<char>::empty(), Tone::Plain)], 0)
}

/// The lines that explain the input of the command `key`.
pub open spec fn intro_lines(key: char) -> Seq<(Seq<(Seq<char>, Tone)>, nat)> {
    if key == 'N' {
        seq![
            plain("81 digits"@),
            plain("use period or zero to leave a cell blank"@),
            plain("spaces are ignored"@),
            plain("leave empty for an empty puzzle"@),
            empty_line(),
        ]
    } else if key == 'O' {
        seq![plain("N naked | H hidden | I intersection"@), empty_line()]
    } else if key == 'P' {
        seq![plain("G givens | S solved | 1-9 digit"@), empty_line()]
    } else {
        seq![empty_line()]
    }
}

/// The lines of the input box before they are centred: an empty line, the
/// explanation, the typed text with the hint after it, the error, each set
/// apart by empty lines.
pub open spec fn raw_overlay_lines(
    key: char,
    typed: Seq<char>,
    hint: Seq<char>,
    display_len: nat,
    error: Seq<char>,
) -> Seq<(Seq<(Seq<char>, Tone)>, nat)> {
    let hint_span = (
        hint,
        if hint.len() == 0 {
            Tone::Plain
        } else {
            Tone::Hint
        },
    );
    let error_line = if error.len() == 0 {
        empty_line()
    } else {
        (seq![(error, Tone::Error)], error.len())
    };
    seq![empty_line()] + intro_lines(key) + seq![
        (seq![(typed, Tone::Plain), hint_span], display_len),
        empty_line(),
        error_line,
        empty_line(),
    ]
}

/// The longest of the lengths of `lines`, and `least`.
pub open spec fn longest(lines: Seq<(Seq<(Seq<char>, Tone)>, nat)>, least: nat) -> nat
    decreases lines.len(),
{
    if lines.len() == 0 {
        least
    } else {
        let rest = longest(lines.drop_last(), least);
        if lines.last().1 > rest {
            lines.last().1
        } else {
            rest
        }
    }
}

/// The spaces before a line `len` long in a box `width` wide.
pub open spec fn pad_for(width: nat, len: nat) -> nat {
    if width > len {
        ((width - len) / 2) as nat
    } else {
        0
    }
}

/// The line `line` moved in by `pad` spaces.
pub open spec fn padded_line(line: Seq<(Seq<char>, Tone)>, pad: nat) -> Seq<(Seq<char>, Tone)> {
    if pad > 0 {
        seq![(spaces(pad), Tone::Plain)] + line
    } else {
        line
    }
}

/// The text shown as the error of `input`, empty where there is none.
pub open spec fn error_text(input: InputState) -> Seq<char> {
    match input.error {
        Some(e) => e@,
        None => Seq::empty(),
    }
}

/// The width inside the input box of `input`.
pub open spec fn overlay_width(input: InputState, typed: Seq<char>, hint: Seq<char>, display_len: nat) -> nat {
    inner_width_for(
        longest(raw_overlay_lines(input.spec.key, typed, hint, display_len, error_text(input)), display_len),
    )
}

/// A plain line of no text is the empty line.
proof fn lemma_empty_plain()
    ensures
        plain(""@) == empty_line(),
{
    reveal_strlit("");
    assert(""@ =~= Seq::<char>::empty());
}

/// Returns a copy of `spans`.
fn copy_spans(spans: &Vec<Span>) -> (r: Vec<Span>)
    ensures
        r@.map_values(|s: Span| (s.text@, s.tone)) == spans@.map_values(|s: Span| (s.text@, s.tone)),
{
    let mut r: Vec<Span> = Vec::new();
    let mut j: usize = 0;
    while j < spans.len()
        invariant
            j <= spans.len(),
            r@.map_values(|s: Span| (s.text@, s.tone)) == spans@.take(j as int).map_values(
                |s: Span| (s.text@, s.tone),
            ),
        decreases spans.len() - j,
    {
        let piece = Span { text: string_of(spans[j].text.as_str()), tone: spans[j].tone };
        let ghost before = r@.map_values(|s: Span| (s.text@, s.tone));
        r.push(piece);
        j += 1;
        proof {
            assert(r@.map_values(|s: Span| (s.text@, s.tone)) =~= before.push((piece.text@, piece.tone)));
            assert(spans@.take(j as int).map_values(|s: Span| (s.text@, s.tone)) =~= spans@.take(
                j - 1,
            ).map_values(|s: Span| (s.text@, s.tone)).push((spans@[j - 1].text@, spans@[j - 1].tone)));
        }
    }
    proof {
        assert(spans@.take(j as int) =~= spans@);
    }
    r
}

/// Returns a line of one plain piece.
fn plain_line(text: &str) -> (r: (TextLine, usize))
    ensures
        (line_view(r.0), r.1 as nat) == plain(text@),
{
    let span = Span { text: string_of(text), tone: Tone::Plain };
    let line = TextLine { spans: vec![span] };
    proof {
        assert(line_view(line) =~= plain(text@).0);
    }
    (line, text.unicode_len())
}

/// The lines in plain values, with their lengths.
pub open spec fn raw_view_of(lines: Seq<(TextLine, usize)>) -> Seq<(Seq<(Seq<char>, Tone)>, nat)> {
    lines.map_values(|l: (TextLine, usize)| (line_view(l.0), l.1 as nat))
}

fn push_line(lines: &mut Vec<(TextLine, usize)>, line: (TextLine, usize))
    ensures
        raw_view_of(final(lines)@) == raw_view_of(old(lines)@).push((line_view(line.0), line.1 as nat)),
{
    lines.push(line);
    proof {
        assert(raw_view_of(lines@) =~= raw_view_of(old(lines)@).push((line_view(line.0), line.1 as nat)));
    }
}

/// Returns the lines that explain the input of the command `key`.
fn intro(key: char) -> (r: Vec<(TextLine, usize)>)
    ensures
        raw_view_of(r@) == intro_lines(key),
{
    let mut lines: Vec<(TextLine, usize)> = Vec::new();
    proof {
        lemma_empty_plain();
    }
    if key == 'N' {
        push_line(&mut lines, plain_line("81 digits"));
        push_line(&mut lines, plain_line("use period or zero to leave a cell blank"));
        push_line(&mut lines, plain_line("spaces are ignored"));
        push_line(&mut lines, plain_line("leave empty for an empty puzzle"));
        push_line(&mut lines, plain_line(""));
    } else if key == 'O' {
        push_line(&mut lines, plain_line("N naked | H hidden | I intersection"));
        push_line(&mut lines, plain_line(""));
    } else if key == 'P' {
        push_line(&mut lines, plain_line("G givens | S solved | 1-9 digit"));
        push_line(&mut lines, plain_line(""));
    } else {
        push_line(&mut lines, plain_line(""));
    }
    proof {
        assert(raw_view_of(lines@) =~= intro_lines(key));
    }
    lines
}

/// Returns the lines of the input box of `input`, centred in its width, the
/// width, and where the cursor goes: after the typed text.
pub fn input_overlay_lines(
    input: &InputState,
    typed: &str,
    prompt_hint: &str,
    display_len: usize,
) -> (r: (Vec<TextLine>, usize, (usize, usize)))
    requires
        overlay_width(*input, typed@, prompt_hint@, display_len as nat) <= usize::MAX / 2,
        typed@.len() <= usize::MAX / 2,
    ensures
        ({
            let raw = raw_overlay_lines(
                input.spec.key,
                typed@,
                prompt_hint@,
                display_len as nat,
                error_text(*input),
            );
            let width = overlay_width(*input, typed@, prompt_hint@, display_len as nat);
            let at = intro_lines(input.spec.key).len() + 1;
            &&& r.1 == width
            &&& r.0.len() == raw.len()
            &&& forall|i: int|
                0 <= i < raw.len() ==> line_view(#[trigger] r.0@[i]) == padded_line(
                    raw[i].0,
                    pad_for(width, raw[i].1),
                )
            &&& r.2.0 == pad_for(width, display_len as nat) + typed@.len()
            &&& r.2.1 == at
        }),
{
    let ghost raw = raw_overlay_lines(
        input.spec.key,
        typed@,
        prompt_hint@,
        display_len as nat,
        error_text(*input),
    );
    proof {
        lemma_empty_plain();
    }
    let mut raw_lines: Vec<(TextLine, usize)> = Vec::new();
    push_line(&mut raw_lines, plain_line(""));
    let key = input.spec.key;
    let explanation = intro(key);
    let mut k: usize = 0;
    let ghost head = raw_view_of(raw_lines@);
    while k < explanation.len()
        invariant
            k <= explanation.len(),
            head == seq![empty_line()],
            raw_view_of(raw_lines@) == head + raw_view_of(explanation@).take(k as int),
        decreases explanation.len() - k,
    {
        let (line, len) = &explanation[k];
        let copy = (TextLine { spans: copy_spans(&line.spans) }, *len);
        push_line(&mut raw_lines, copy);
        k += 1;
        proof {
            assert(raw_view_of(explanation@).take(k as int) =~= raw_view_of(explanation@).take(
                k - 1,
            ).push(raw_view_of(explanation@)[k - 1]));
        }
    }
    proof {
        assert(raw_view_of(explanation@).take(k as int) =~= intro_lines(key));
    }
    let input_index = raw_lines.len();
    let hint_tone = if prompt_hint.unicode_len() == 0 {
        Tone::Plain
    } else {
        Tone::Hint
    };
    let input_line = TextLine {
        spans: vec![
            Span { text: string_of(typed), tone: Tone::Plain },
            Span { text: string_of(prompt_hint), tone: hint_tone },
        ],
    };
    proof {
        assert(line_view(input_line) =~= seq![(typed@, Tone::Plain), (prompt_hint@, hint_tone)]);
    }
    push_line(&mut raw_lines, (input_line, display_len));
    push_line(&mut raw_lines, plain_line(""));
    let error = match &input.error {
        Some(e) => string_of(e.as_str()),
        None => String::new(),
    };
    let error_len = error.as_str().unicode_len();
    if error_len == 0 {
        push_line(&mut raw_lines, plain_line(""));
    } else {
        let line = TextLine { spans: vec![Span { text: error, tone: Tone::Error }] };
        proof {
            assert(line_view(line) =~= seq![(error@, Tone::Error)]);
        }
        push_line(&mut raw_lines, (line, error_len));
    }
    push_line(&mut raw_lines, plain_line(""));
    let ghost raw_view = raw_view_of(raw_lines@);
    proof {
        assert(raw_view =~= raw);
        assert(input_index == intro_lines(key).len() + 1);
    }
    let n = raw_lines.len();
    let mut max_len: usize = display_len;
    let mut i: usize = 0;
    while i < n
        invariant
            n == raw_lines.len(),
            raw_view == raw_view_of(raw_lines@),
            i <= n,
            max_len == longest(raw_view.take(i as int), display_len as nat),
        decreases n - i,
    {
        proof {
            assert(raw_view.take(i + 1).drop_last() =~= raw_view.take(i as int));
        }
        if raw_lines[i].1 > max_len {
            max_len = raw_lines[i].1;
        }
        i += 1;
    }
    proof {
        assert(raw_view.take(n as int) =~= raw_view);
    }
    let width = input_overlay_inner_width(max_len);
    let mut lines: Vec<TextLine> = Vec::new();
    let mut cursor = (0usize, input_index);
    let mut i: usize = 0;
    while i < n
        invariant
            n == raw_lines.len(),
            raw_view == raw_view_of(raw_lines@),
            raw_view == raw,
            i <= n,
            input_index < n,
            raw[input_index as int].1 == display_len,
            width <= usize::MAX / 2,
            typed@.len() <= usize::MAX / 2,
            lines.len() == i,
            forall|k: int|
                0 <= k < i ==> line_view(#[trigger] lines@[k]) == padded_line(
                    raw[k].0,
                    pad_for(width as nat, raw[k].1),
                ),
            i > input_index ==> cursor.0 == pad_for(width as nat, display_len as nat) + typed@.len(),
            cursor.1 == input_index,
        decreases n - i,
    {
        let len = raw_lines[i].1;
        let pad = if width > len {
            (width - len) / 2
        } else {
            0
        };
        let mut spans: Vec<Span> = Vec::new();
        if pad > 0 {
            let mut blank = String::new();
            let mut k: usize = 0;
            while k < pad
                invariant
                    k <= pad,
                    blank@ == spaces(k as nat),
                decreases pad - k,
            {
                push_char(&mut blank, ' ');
                k += 1;
                proof {
                    assert(blank@ =~= spaces(k as nat));
                }
            }
            spans.push(Span { text: blank, tone: Tone::Plain });
        }
        let ghost lead = spans@.map_values(|s: Span| (s.text@, s.tone));
        let source = &raw_lines[i].0.spans;
        let m = source.len();
        let mut j: usize = 0;
        while j < m
            invariant
                m == source.len(),
                j <= m,
                spans@.map_values(|s: Span| (s.text@, s.tone)) == lead + source@.take(
                    j as int,
                ).map_values(|s: Span| (s.text@, s.tone)),
            decreases m - j,
        {
            let piece = Span { text: string_of(source[j].text.as_str()), tone: source[j].tone };
            let ghost before = spans@.map_values(|s: Span| (s.text@, s.tone));
            spans.push(piece);
            j += 1;
            proof {
                assert(spans@.map_values(|s: Span| (s.text@, s.tone)) =~= before.push(
                    (piece.text@, piece.tone),
                ));
                assert(source@.take(j as int).map_values(|s: Span| (s.text@, s.tone)) =~= source@.take(
                    j - 1,
                ).map_values(|s: Span| (s.text@, s.tone)).push((source@[j - 1].text@, source@[j - 1].tone)));
                assert(source@.take(j as int) =~= source@.take(j - 1).push(source@[j - 1]));
                assert(spans@.map_values(|s: Span| (s.text@, s.tone)) =~= lead + source@.take(
                    j as int,
                ).map_values(|s: Span| (s.text@, s.tone)));
            }
        }
        proof {
            assert(source@.take(m as int) =~= source@);
            assert(raw_view[i as int] == (line_view(raw_lines@[i as int].0), len as nat));
            if pad > 0 {
                assert(lead =~= seq![(spaces(pad as nat), Tone::Plain)]);
            } else {
                assert(lead =~= Seq::<(Seq<char>, Tone)>::empty());
            }
            assert(spans@.map_values(|s: Span| (s.text@, s.tone)) =~= padded_line(
                raw[i as int].0,
                pad_for(width as nat, raw[i as int].1),
            ));
        }
        lines.push(TextLine { spans });
        if i == input_index {
            cursor = (pad + typed.unicode_len(), i);
        }
        i += 1;
    }
    (lines, width, cursor)
}

/// The larger of `a` and one.
pub open spec fn at_least_one(a: nat) -> nat {
    if a > 1 {
        a
    } else {
        1
    }
}

/// The least widths of the two panes: each grid and its border; the right
/// pane holds three grids `right_grid` wide and two spaces.
pub open spec fn pane_minimums(left_grid: nat, right_grid: nat) -> (u16, u16) {
    (((left_grid + 2) as u16), ((right_grid * 3 + 2 + 2) as u16))
}

/// The widths of the two panes of a main area `total` wide: each its least
/// width and a share of what is left in proportion to its grids' width; on a
/// screen too narrow, shares of the screen in proportion to the least widths.
pub open spec fn pane_widths(left_grid: nat, right_grid: nat, total: u16) -> (u16, u16) {
    let right_content = right_grid * 3 + 2;
    let (left_min, right_min) = pane_minimums(left_grid, right_grid);
    if total >= left_min + right_min {
        let extra: int = total - left_min - right_min;
        let weight_sum: int = (at_least_one(left_grid) + at_least_one(right_content)) as int;
        let left_extra = (extra * (at_least_one(left_grid) as int) / weight_sum) as u16;
        ((left_min + left_extra) as u16, (right_min + (extra - left_extra)) as u16)
    } else if total == 0 {
        (0, 0)
    } else {
        let share: int = (total as int) * (left_min as int) / ((left_min + right_min) as int);
        let left = (if share > 1 {
            share
        } else {
            1
        }) as u16;
        (left, (if total > left {
            total - left
        } else {
            0
        }) as u16)
    }
}

/// The arithmetic of splitting stays within the machine's integers.
pub open spec fn split_fits(left_grid: nat, right_grid: nat, total: u16) -> bool {
    let right_content = right_grid * 3 + 2;
    let (left_min, right_min) = pane_minimums(left_grid, right_grid);
    &&& left_grid + 2 <= usize::MAX
    &&& right_content + 2 <= usize::MAX
    &&& left_min + right_min <= u16::MAX
    &&& at_least_one(left_grid) + at_least_one(right_content) <= usize::MAX
    &&& total >= left_min + right_min ==> (total - left_min - right_min) * at_least_one(left_grid)
        <= usize::MAX
}

/// Returns the areas of the left and right panes of `main`, whose grids are
/// `left_grid_width` and `right_grid_width` wide.
pub fn split_main_areas(left_grid_width: usize, right_grid_width: usize, main: Area) -> (r: (
    Area,
    Area,
))
    requires
        on_screen(main),
        split_fits(left_grid_width as nat, right_grid_width as nat, main.width),
    ensures
        ({
            let (lw, rw) = pane_widths(left_grid_width as nat, right_grid_width as nat, main.width);
            &&& r.0 == (Area { x: main.x, y: main.y, width: lw, height: main.height })
            &&& r.1 == (Area {
                x: (main.x + lw) as u16,
                y: main.y,
                width: rw,
                height: main.height,
            })
        }),
{
    let left_content = left_grid_width;
    let right_content = right_grid_width * 3 + 2;
    let left_min = (left_content + 2) as u16;
    let right_min = (right_content + 2) as u16;
    let total = main.width;
    let (left_width, right_width) = if total >= left_min + right_min {
        let extra = total - left_min - right_min;
        let left_weight = if left_content > 1 {
            left_content
        } else {
            1
        };
        let right_weight = if right_content > 1 {
            right_content
        } else {
            1
        };
        let weight_sum = left_weight + right_weight;
        let left_extra = (extra as usize * left_weight / weight_sum) as u16;
        proof {
            let e = extra as int;
            let lw = left_weight as int;
            let ws = weight_sum as int;
            assert(e * lw / ws <= e) by (nonlinear_arith)
                requires
                    0 <= e,
                    0 < lw <= ws,
            ;
        }
        let right_extra = extra - left_extra;
        (left_min + left_extra, right_min + right_extra)
    } else if total == 0 {
        (0, 0)
    } else {
        proof {
            let t = total as int;
            let lm = left_min as int;
            assert(t * lm <= 65535 * 65535) by (nonlinear_arith)
                requires
                    0 <= t <= 65535,
                    0 <= lm <= 65535,
            ;
        }
        let share = total as usize * left_min as usize / (left_min + right_min) as usize;
        proof {
            let t = total as int;
            let lm = left_min as int;
            let sum = (left_min + right_min) as int;
            assert(t * lm / sum <= t) by (nonlinear_arith)
                requires
                    0 <= t,
                    0 <= lm <= sum,
                    sum > 0,
            ;
        }
        let left_width = (if share > 1 {
            share
        } else {
            1
        }) as u16;
        let right_width = if total > left_width {
            total - left_width
        } else {
            0
        };
        (left_width, right_width)
    };
    let left = Area { x: main.x, y: main.y, width: left_width, height: main.height };
    let right = Area {
        x: main.x + left_width,
        y: main.y,
        width: right_width,
        height: main.height,
    };
    (left, right)
}

/// The largest byte length among `lines`, zero where there is none.
pub open spec fn longest_bytes(lines: Seq<Seq<char>>) -> nat
    decreases lines.len(),
{
    if lines.len() == 0 {
        0
    } else {
        let rest = longest_bytes(lines.drop_last());
        if byte_len(lines.last()) > rest {
            byte_len(lines.last())
        } else {
            rest
        }
    }
}

/// The width and height of an overlay showing `lines` on `size`: the lines and
/// a border, each cut down to the screen less two cells. The line count and the
/// longest length are taken modulo 2^16, as a cast to `u16` does.
pub open spec fn overlay_size(lines: Seq<Seq<char>>, size: Area) -> (u16, u16) {
    let w: int = (longest_bytes(lines) % 0x10000) as int + 2;
    let h: int = (lines.len() % 0x10000) as int + 2;
    let max_w = minus(size.width as int, 2);
    let max_h = minus(size.height as int, 2);
    (
        (if w < max_w {
            w
        } else {
            max_w
        }) as u16,
        (if h < max_h {
            h
        } else {
            max_h
        }) as u16,
    )
}

/// Returns the width and height of an overlay showing `lines` on `size`.
pub fn overlay_dimensions(lines: &Vec<String>, size: Area) -> (r: (u16, u16))
    requires
        forall|i: int| 0 <= i < lines.len() ==> byte_len(#[trigger] lines[i]@) <= usize::MAX,
        longest_bytes(lines@.map_values(|l: String| l@)) % 0x10000 + 2 <= u16::MAX,
        lines.len() % 0x10000 + 2 <= u16::MAX,
    ensures
        r == overlay_size(lines@.map_values(|l: String| l@), size),
{
    let ghost texts = lines@.map_values(|l: String| l@);
    let mut max_len: usize = 0;
    let mut i: usize = 0;
    while i < lines.len()
        invariant
            i <= lines.len(),
            texts == lines@.map_values(|l: String| l@),
            forall|j: int| 0 <= j < lines.len() ==> byte_len(#[trigger] lines[j]@) <= usize::MAX,
            max_len == longest_bytes(texts.take(i as int)),
        decreases lines.len() - i,
    {
        let len = utf8_byte_len(lines[i].as_str());
        proof {
            assert(texts.take(i + 1).drop_last() =~= texts.take(i as int));
            assert(texts.take(i + 1).last() == lines[i as int]@);
        }
        if len > max_len {
            max_len = len;
        }
        i += 1;
    }
    proof {
        assert(texts.take(lines.len() as int) =~= texts);
    }
    let m: u16 = (max_len % 0x10000) as u16;
    let count: u16 = (lines.len() % 0x10000) as u16;
    let max_w: u16 = if size.width > 2 {
        size.width - 2
    } else {
        0
    };
    let max_h: u16 = if size.height > 2 {
        size.height - 2
    } else {
        0
    };
    let w: u16 = if m + 2 < max_w {
        m + 2
    } else {
        max_w
    };
    let h: u16 = if count + 2 < max_h {
        count + 2
    } else {
        max_h
    };
    (w, h)
}

} // verus!
