//! What reading a packed string gives back of the board that was written.
use vstd::prelude::*;

use crate::io::format::{packed_mark, packed_text, row_gap};
use crate::io::parse::{cells_read, clues_fit, is_clue, is_separator, packed_read};
use crate::layout::board::{after_given, can_set, empty_model, strands_peer, Board, BoardModel};
use crate::layout::houses::shape::peers_of;

verus! {

/// The nine zero-based knowns.
pub open spec fn all_knowns() -> Set<int> {
    vstd::set_lib::set_int_range(0, 9)
}

/// No two peers hold the same digit.
pub open spec fn consistent(values: Seq<u8>) -> bool {
    forall|c: int, p: int|
        #![trigger peers_of(c).contains(p), values[c]]
        0 <= c < 81 && peers_of(c).contains(p) && values[c] != 0 ==> values[p] != values[c]
}

/// The zero-based digits held by the peers of `c` among the first `n` cells.
pub open spec fn peer_digits(values: Seq<u8>, c: int, n: int) -> Set<int> {
    Set::new(
        |k: int|
            exists|p: int|
                0 <= p < n && peers_of(c).contains(p) && values[p] != 0 && k == #[trigger] values[p]
                    - 1,
    )
}

/// Each unsolved cell keeps a candidate: its peers do not hold all nine digits.
pub open spec fn open_cells(values: Seq<u8>) -> bool {
    forall|c: int| 0 <= c < 81 && values[c] == 0 ==> !#[trigger] all_knowns().subset_of(peer_digits(values, c, 81))
}

/// The model of a new board once the digits of the first `n` cells are given in order:
/// those cells are given and solved, and every other cell keeps the knowns that its
/// solved peers do not hold.
pub open spec fn model_after(values: Seq<u8>, n: int) -> BoardModel {
    (
        Set::new(|c: int| 0 <= c < n && values[c] != 0),
        Set::new(|c: int| 0 <= c < n && values[c] != 0),
        Seq::new(81, |c: int| if c < n { values[c] } else { 0u8 }),
        Seq::new(
            81,
            |c: int|
                if c < n && values[c] != 0 {
                    Set::<int>::empty()
                } else {
                    all_knowns().difference(peer_digits(values, c, n))
                },
        ),
        true,
    )
}

/// Peers are peers of each other.
proof fn lemma_peers_symmetric(c: int, p: int)
    requires
        0 <= c < 81,
        0 <= p < 81,
    ensures
        peers_of(c).contains(p) == peers_of(p).contains(c),
{
}

/// No digits are given before any cell is read.
proof fn lemma_model_start(values: Seq<u8>)
    ensures
        model_after(values, 0) == empty_model(),
{
    let m = model_after(values, 0);
    assert(m.0 =~= Set::<int>::empty());
    assert(m.1 =~= Set::<int>::empty());
    assert(m.2 =~= Seq::new(81, |i: int| 0u8));
    assert forall|c: int| 0 <= c < 81 implies #[trigger] m.3[c] == vstd::set_lib::set_int_range(0, 9) by {
        assert(peer_digits(values, c, 0) =~= Set::<int>::empty());
        assert(all_knowns().difference(peer_digits(values, c, 0)) =~= all_knowns());
    }
    assert(m.3 =~= Seq::new(81, |i: int| vstd::set_lib::set_int_range(0, 9)));
}

/// An unsolved cell changes nothing.
proof fn lemma_model_skip(values: Seq<u8>, n: int)
    requires
        0 <= n < 81,
        values[n] == 0,
    ensures
        model_after(values, n + 1) == model_after(values, n),
{
    let a = model_after(values, n + 1);
    let b = model_after(values, n);
    assert(a.0 =~= b.0);
    assert(a.1 =~= b.1);
    assert(a.2 =~= b.2);
    assert forall|c: int| 0 <= c < 81 implies #[trigger] peer_digits(values, c, n + 1) =~= peer_digits(
        values,
        c,
        n,
    ) by {}
    assert(a.3 =~= b.3);
}

/// Giving the digit of cell `n` is allowed, keeps every cell open, and leads to the
/// model of the first `n + 1` cells.
proof fn lemma_model_step(values: Seq<u8>, n: int)
    requires
        values.len() == 81,
        forall|c: int| 0 <= c < 81 ==> values[c] <= 9,
        consistent(values),
        open_cells(values),
        0 <= n < 81,
        values[n] != 0,
    ensures
        ({
            let m = model_after(values, n);
            let k = values[n] - 1;
            &&& m.2[n] != k + 1
            &&& can_set(m, n, k)
            &&& after_given(m, n, k).4
            &&& after_given(m, n, k) == model_after(values, n + 1)
        }),
{
    let m = model_after(values, n);
    let k = values[n] - 1;
    let next = model_after(values, n + 1);
    assert(!peer_digits(values, n, n).contains(k)) by {
        if peer_digits(values, n, n).contains(k) {
            let p = choose|p: int|
                0 <= p < n && peers_of(n).contains(p) && values[p] != 0 && k == #[trigger] values[p] - 1;
            assert(values[p] != values[n]);
        }
    }
    assert(all_knowns().contains(k));
    assert(can_set(m, n, k));
    assert(!strands_peer(m.3, n, k)) by {
        if strands_peer(m.3, n, k) {
            let p = choose|p: int| peers_of(n).contains(p) && #[trigger] m.3[p] == set![k];
            lemma_peers_symmetric(n, p);
            if p < n && values[p] != 0 {
                assert(m.3[p].contains(k));
            } else if values[p] != 0 {
                let j = values[p] - 1;
                assert(!peer_digits(values, p, n).contains(j)) by {
                    if peer_digits(values, p, n).contains(j) {
                        let q = choose|q: int|
                            0 <= q < n && peers_of(p).contains(q) && values[q] != 0 && j == #[trigger] values[q]
                                - 1;
                        assert(values[q] != values[p]);
                    }
                }
                assert(m.3[p].contains(j));
                assert(values[p] != values[n]);
            } else {
                assert(peer_digits(values, p, 81).contains(k));
                assert(all_knowns().subset_of(peer_digits(values, p, 81))) by {
                    assert forall|x: int| all_knowns().contains(x) implies peer_digits(values, p, 81).contains(x) by {
                        if x != k && !peer_digits(values, p, 81).contains(x) {
                            assert(!peer_digits(values, p, n).contains(x));
                            assert(m.3[p].contains(x));
                        }
                    }
                }
            }
        }
    }
    let after = after_given(m, n, k);
    assert(after.0 =~= next.0);
    assert(after.1 =~= next.1);
    assert(after.2 =~= next.2);
    assert forall|c: int| 0 <= c < 81 implies #[trigger] after.3[c] == next.3[c] by {
        lemma_peers_symmetric(n, c);
        if c != n && peers_of(n).contains(c) {
            assert(peer_digits(values, c, n + 1) =~= peer_digits(values, c, n).insert(k));
            if !(c < n && values[c] != 0) {
                assert(all_knowns().difference(peer_digits(values, c, n + 1)) =~= all_knowns().difference(
                    peer_digits(values, c, n),
                ).remove(k));
            }
        } else if c != n {
            assert(peer_digits(values, c, n + 1) =~= peer_digits(values, c, n));
        }
    }
    assert(after.3 =~= next.3);
}

/// The packed text of the first `n` cells begins the packed text of the first `m`.
proof fn lemma_packed_prefix(b: Board, unknown: char, spaces: bool, n: int, m: int)
    requires
        0 <= n <= m,
    ensures
        packed_text(b, unknown, spaces, n).len() <= packed_text(b, unknown, spaces, m).len(),
        forall|i: int|
            0 <= i < packed_text(b, unknown, spaces, n).len() ==> #[trigger] packed_text(
                b,
                unknown,
                spaces,
                m,
            )[i] == packed_text(b, unknown, spaces, n)[i],
    decreases m - n,
{
    if n < m {
        lemma_packed_prefix(b, unknown, spaces, n, m - 1);
    }
}

/// Reading more characters never counts fewer cells.
proof fn lemma_cells_read_grows(input: Seq<char>, i: int, j: int)
    requires
        0 <= i <= j,
    ensures
        cells_read(input, i) <= cells_read(input, j),
    decreases j - i,
{
    if i < j {
        lemma_cells_read_grows(input, i, j - 1);
    }
}

/// Reading the packed text of a board up to the end of cell `n - 1` gives the
/// digits of the first `n` cells, one cell per mark.
proof fn lemma_read_upto(b: Board, unknown: char, spaces: bool, stop: bool, n: int)
    requires
        forall|c: int| 0 <= c < 81 ==> b.values()[c] <= 9,
        consistent(b.values()),
        open_cells(b.values()),
        !is_clue(unknown),
        !is_separator(unknown),
        0 <= n <= 81,
    ensures
        ({
            let text = packed_text(b, unknown, spaces, 81);
            let end = packed_text(b, unknown, spaces, n).len() as int;
            &&& packed_read(text, stop, end) == (model_after(b.values(), n), None::<(int, int)>)
            &&& cells_read(text, end) == n
        }),
    decreases n,
{
    let values = b.values();
    let text = packed_text(b, unknown, spaces, 81);
    b.lemma_shape();
    if n == 0 {
        lemma_model_start(values);
    } else {
        let c = n - 1;
        lemma_read_upto(b, unknown, spaces, stop, c);
        lemma_packed_prefix(b, unknown, spaces, n, 81);
        let start = packed_text(b, unknown, spaces, c).len() as int;
        let gap = row_gap(spaces, c);
        let mark = packed_mark(b, unknown, c);
        let mid = start + gap.len();
        assert(packed_text(b, unknown, spaces, n) == packed_text(b, unknown, spaces, c) + gap + seq![mark]);
        assert(packed_text(b, unknown, spaces, n).len() == mid + 1);
        if gap.len() > 0 {
            assert(text[start] == packed_text(b, unknown, spaces, n)[start]);
            assert(text[start] == ' ');
            assert(packed_read(text, stop, mid) == packed_read(text, stop, start));
            assert(cells_read(text, mid) == cells_read(text, start));
        }
        assert(text[mid] == packed_text(b, unknown, spaces, n)[mid]);
        assert(text[mid] == mark);
        if values[c] != 0 {
            lemma_model_step(values, c);
            let v = values[c];
            assert(mark == (48 + v) as char);
            assert(mark as int == 48 + v);
            assert(is_clue(mark));
            assert(!is_separator(mark));
        } else {
            lemma_model_skip(values, c);
            assert(mark == unknown);
        }
    }
}

/// Writing a board as a packed string and reading it back gives the board's digits
/// again, every one of them now a given, with each other cell keeping the knowns that
/// its solved peers do not hold, and no digit refused: for any board whose peers never
/// share a digit and whose unsolved cells still have a knowable digit, and any mark for
/// unsolved cells that the reader counts as a cell without a clue.
pub proof fn lemma_packed_round_trip(b: Board, unknown: char, spaces: bool, stop: bool)
    requires
        forall|c: int| 0 <= c < 81 ==> b.values()[c] <= 9,
        consistent(b.values()),
        open_cells(b.values()),
        !is_clue(unknown),
        !is_separator(unknown),
    ensures
        ({
            let text = packed_text(b, unknown, spaces, 81);
            let read = packed_read(text, stop, text.len() as int);
            &&& clues_fit(text)
            &&& read.1 is None
            &&& read.0 == model_after(b.values(), 81)
            &&& read.0.2 == b.values()
            &&& read.0.0 == read.0.1
        }),
{
    let text = packed_text(b, unknown, spaces, 81);
    b.lemma_shape();
    lemma_read_upto(b, unknown, spaces, stop, 81);
    assert(model_after(b.values(), 81).2 =~= b.values());
    assert forall|k: int| 0 <= k < text.len() && is_clue(#[trigger] text[k]) implies cells_read(text, k) < 81 by {
        lemma_cells_read_grows(text, k + 1, text.len() as int);
    }
}

} // verus!
