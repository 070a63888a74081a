//! The full state of a puzzle in play over the cell and known types of the layout.
use vstd::prelude::*;

use crate::layout::cells::cell::Cell;
use crate::layout::cells::cell_set::CellSet;
use crate::layout::houses::shape::peers_of;
use crate::layout::knowns::known::Known;
use crate::layout::knowns::set::KnownSet;
use crate::text::push_char;

verus! {

/// Tracks the givens, the solved values, the candidates of each cell, and whether every
/// unsolved cell still has a candidate.
#[derive(Clone, Copy, Debug)]
pub struct Board {
    givens: CellSet,
    knowns: CellSet,
    values: [u8; 81],
    candidates: [KnownSet; 81],
    valid: bool,
}

/// The candidates held by each cell of an array of candidate sets.
pub open spec fn candidate_view(a: [KnownSet; 81]) -> Seq<Set<int>> {
    Seq::new(81, |i: int| a[i]@)
}

/// The knowns that are candidates of at least one cell of `cells`.
pub open spec fn candidates_in(candidates: Seq<Set<int>>, cells: Set<int>) -> Set<int> {
    Set::new(|k: int| exists|c: int| cells.contains(c) && #[trigger] candidates[c].contains(k))
}

/// Some peer of `cell` has `k` as its only candidate.
pub open spec fn strands_peer(candidates: Seq<Set<int>>, cell: int, k: int) -> bool {
    exists|p: int| peers_of(cell).contains(p) && #[trigger] candidates[p] == set![k]
}

impl Board {
    #[verifier::type_invariant]
    spec fn inv(self) -> bool {
        &&& forall|i: int| 0 <= i < 81 ==> #[trigger] self.values[i] <= 9
        &&& forall|i: int| 0 <= i < 81 ==> (#[trigger] self.knowns@.contains(i) <==> self.values[i] != 0)
    }

    /// The cells given as clues.
    pub closed spec fn givens(&self) -> Set<int> {
        self.givens@
    }

    /// The cells with a value.
    pub closed spec fn knowns(&self) -> Set<int> {
        self.knowns@
    }

    /// The value of each cell, 0 when unknown.
    pub closed spec fn values(&self) -> Seq<u8> {
        self.values@
    }

    /// The zero-based candidate knowns of each cell.
    pub closed spec fn candidate_sets(&self) -> Seq<Set<int>> {
        candidate_view(self.candidates)
    }

    /// False once a change has left a cell without candidates.
    pub closed spec fn valid(&self) -> bool {
        self.valid
    }

    /// The model of this board.
    pub open spec fn model(&self) -> BoardModel {
        (self.givens(), self.knowns(), self.values(), self.candidate_sets(), self.valid())
    }

    /// Every board has 81 values and 81 candidate sets of knowns below 9.
    pub proof fn lemma_shape(&self)
        ensures
            self.values().len() == 81,
            self.candidate_sets().len() == 81,
    {
    }

    /// Returns a board with no values and every known a candidate of every cell.
    pub fn new() -> (r: Board)
        ensures
            r.givens() == Set::<int>::empty(),
            r.knowns() == Set::<int>::empty(),
            r.values() == Seq::new(81, |i: int| 0u8),
            r.candidate_sets() == Seq::new(81, |i: int| vstd::set_lib::set_int_range(0, 9)),
            r.valid(),
            r.model() == empty_model(),
    {
        let full = KnownSet::full();
        let r = Board {
            givens: CellSet::empty(),
            knowns: CellSet::empty(),
            values: [Known::UNKNOWN; 81],
            candidates: [full; 81],
            valid: true,
        };
        proof {
            assert(r.values@ =~= Seq::new(81, |i: int| 0u8));
            assert(r.candidate_sets() =~= Seq::new(81, |i: int| vstd::set_lib::set_int_range(0, 9)));
        }
        r
    }

    /// Returns the number of given cells.
    pub fn given_count(&self) -> (r: u32)
        ensures
            r == self.givens().len(),
    {
        self.givens.len() as u32
    }

    /// Returns true if `cell` is given.
    pub fn is_given(&self, cell: Cell) -> (r: bool)
        ensures
            r == self.givens().contains(cell@),
    {
        self.givens.has(cell)
    }

    /// Returns the number of cells with a value.
    pub fn known_count(&self) -> (r: u32)
        ensures
            r == self.knowns().len(),
    {
        self.knowns.len() as u32
    }

    /// Returns true if `cell` has a value.
    pub fn is_known(&self, cell: Cell) -> (r: bool)
        ensures
            r == self.knowns().contains(cell@),
    {
        self.knowns.has(cell)
    }

    /// Returns true if every cell has a value.
    pub fn is_solved(&self) -> (r: bool)
        ensures
            r == (self.knowns() == vstd::set_lib::set_int_range(0, 81)),
    {
        self.knowns.is_full()
    }

    /// Returns false once a change has left a cell without candidates.
    pub fn is_valid(&self) -> (r: bool)
        ensures
            r == self.valid(),
    {
        self.valid
    }

    /// Returns the knowns that are candidates of at least one of `cells`.
    pub fn all_candidates(&self, cells: CellSet) -> (r: KnownSet)
        ensures
            r@ == candidates_in(self.candidate_sets(), cells@),
    {
        let mut acc = KnownSet::empty();
        let mut iter = cells.iter();
        loop
            invariant
                iter@.subset_of(cells@),
                acc@ == candidates_in(self.candidate_sets(), cells@.difference(iter@)),
            ensures
                acc@ == candidates_in(self.candidate_sets(), cells@),
            decreases iter@.len(),
        {
            proof {
                iter.lemma_view();
            }
            let ghost before = iter@;
            match iter.next() {
                Some(cell) => {
                    let ghost prev = acc@;
                    acc = acc.union(self.candidates(cell));
                    proof {
                        let done = cells@.difference(iter@);
                        assert(done =~= cells@.difference(before).insert(cell@));
                        assert(acc@ =~= candidates_in(self.candidate_sets(), done));
                    }
                },
                None => {
                    proof {
                        assert(cells@.difference(iter@) =~= cells@);
                    }
                    break;
                },
            }
        }
        acc
    }

    /// Returns the candidates of `cell`.
    pub fn candidates(&self, cell: Cell) -> (r: KnownSet)
        ensures
            r@ == self.candidate_sets()[cell@],
    {
        self.candidates[cell.usize()]
    }

    /// Returns true if `known` is a candidate of `cell`.
    pub fn is_candidate(&self, cell: Cell, known: Known) -> (r: bool)
        ensures
            r == self.candidate_sets()[cell@].contains(known@),
    {
        self.candidates[cell.usize()].has(known)
    }

    /// Removes `known` from the candidates of `cell`; the board stays valid exactly when the
    /// cell keeps a candidate.
    pub fn remove_candidate(&mut self, cell: Cell, known: Known)
        ensures
            final(self).givens() == old(self).givens(),
            final(self).knowns() == old(self).knowns(),
            final(self).values() == old(self).values(),
            final(self).candidate_sets() == old(self).candidate_sets().update(
                cell@,
                old(self).candidate_sets()[cell@].remove(known@),
            ),
            final(self).valid() == (old(self).candidate_sets()[cell@].remove(known@) != Set::<int>::empty()),
    {
        proof {
            use_type_invariant(&*self);
        }
        let i = cell.usize();
        let mut candidates = self.candidates;
        let mut set = candidates[i];
        set.remove(known);
        candidates.set(i, set);
        let valid = !set.is_empty();
        proof {
            assert(candidate_view(candidates) =~= old(self).candidate_sets().update(
                cell@,
                old(self).candidate_sets()[cell@].remove(known@),
            ));
        }
        *self = Board { candidates, valid, ..*self };
    }

    /// Returns the value of `cell`, 0 when unknown.
    pub fn value(&self, cell: Cell) -> (r: u8)
        ensures
            r == self.values()[cell@],
            r <= 9,
            (r != 0) == self.knowns().contains(cell@),
    {
        proof {
            use_type_invariant(self);
        }
        self.values[cell.usize()]
    }

    /// Returns the text of this board: its rows of nine characters, each a
    /// digit or `.` for an unknown cell, separated by spaces.
    pub fn to_string(&self) -> (r: String)
        ensures
            r@ == board_text(self.values()),
    {
        let ghost text = board_text(self.values());
        let mut s = String::new();
        let mut r: u8 = 0;
        while r < 9
            invariant
                r <= 9,
                text == board_text(self.values()),
                s@.len() == if r == 0 {
                    0
                } else {
                    10 * r - 1
                },
                forall|i: int| 0 <= i < s@.len() ==> s@[i] == #[trigger] text[i],
            decreases 9 - r,
        {
            if r > 0 {
                push_char(&mut s, ' ');
                proof {
                    let i = 10 * r - 1;
                    assert(i % 10 == 9 && i < 89) by (nonlinear_arith)
                        requires
                            i == 10 * r - 1,
                            0 < r < 9,
                    ;
                    assert(s@[i] == text[i]);
                }
            }
            let mut c: u8 = 0;
            while c < 9
                invariant
                    r < 9,
                    c <= 9,
                    text == board_text(self.values()),
                    s@.len() == 10 * r + c,
                    forall|i: int| 0 <= i < s@.len() ==> s@[i] == #[trigger] text[i],
                decreases 9 - c,
            {
                let value = self.value(Cell::new(9 * r + c));
                let mark = if value == 0 {
                    '.'
                } else {
                    ((48 + value) as u8) as char
                };
                push_char(&mut s, mark);
                proof {
                    let i = 10 * r + c;
                    assert(i % 10 == c && i / 10 == r && i < 89) by (nonlinear_arith)
                        requires
                            i == 10 * r + c,
                            0 <= c < 9,
                            0 <= r < 9,
                    ;
                    assert(s@[i] == text[i]);
                }
                c += 1;
            }
            r += 1;
        }
        proof {
            assert(s@ =~= text);
        }
        s
    }

    /// Sets `cell` to `known` as a given clue.
    pub fn set_given(&mut self, cell: Cell, known: Known)
        requires
            old(self).values()[cell@] == known@ + 1 || (!old(self).knowns().contains(cell@)
                && old(self).candidate_sets()[cell@].contains(known@)),
        ensures
            final(self).givens() == old(self).givens().insert(cell@),
            set_known_result(*old(self), *final(self), cell@, known@),
            final(self).model() == after_given(old(self).model(), cell@, known@),
    {
        self.set_known(cell, known);
        proof {
            use_type_invariant(&*self);
        }
        let ghost mid = *self;
        let mut givens = self.givens;
        givens.add(cell);
        *self = Board { givens, ..*self };
        proof {
            assert(self.candidate_sets() == mid.candidate_sets());
        }
    }

    /// Sets `cell` to `known` unless it already holds that value, removing `known` from the
    /// candidates of every peer; the board turns invalid when a peer loses its last candidate.
    pub fn set_known(&mut self, cell: Cell, known: Known)
        requires
            old(self).values()[cell@] == known@ + 1 || (!old(self).knowns().contains(cell@)
                && old(self).candidate_sets()[cell@].contains(known@)),
        ensures
            final(self).givens() == old(self).givens(),
            set_known_result(*old(self), *final(self), cell@, known@),
            final(self).model() == after_known(old(self).model(), cell@, known@),
    {
        proof {
            use_type_invariant(&*self);
        }
        let i = cell.usize();
        let ki = known.usize();
        if self.values[i] == known.value() {
            return;
        }
        let ghost before = self.candidate_sets();
        let ghost c0 = cell@;
        let ghost k0 = known@;
        let mut knowns = self.knowns;
        knowns.add(cell);
        let mut values = self.values;
        values.set(i, known.value());
        let mut candidates = self.candidates;
        candidates.set(i, KnownSet::empty());
        let mut valid = self.valid;
        let peers = cell.peers();
        let mut iter = peers.iter();
        proof {
            assert(!peers@.contains(c0));
        }
        loop
            invariant
                0 <= c0 < 81,
                0 <= k0 < 9,
                k0 == known@,
                peers@ == peers_of(c0),
                iter@.subset_of(peers@),
                candidate_view(candidates)[c0] == Set::<int>::empty(),
                forall|c: int|
                    0 <= c < 81 && c != c0 ==> #[trigger] candidate_view(candidates)[c] == if peers@.contains(c)
                        && !iter@.contains(c) {
                        before[c].remove(k0)
                    } else {
                        before[c]
                    },
                valid == (self.valid && !(exists|p: int|
                    peers@.contains(p) && !iter@.contains(p) && #[trigger] before[p] == set![k0])),
            ensures
                candidate_view(candidates)[c0] == Set::<int>::empty(),
                forall|c: int|
                    0 <= c < 81 && c != c0 ==> #[trigger] candidate_view(candidates)[c] == if peers@.contains(c) {
                        before[c].remove(k0)
                    } else {
                        before[c]
                    },
                valid == (self.valid && !strands_peer(before, c0, k0)),
            decreases iter@.len(),
        {
            proof {
                iter.lemma_view();
            }
            let ghost left = iter@;
            match iter.next() {
                Some(peer) => {
                    let j = peer.usize();
                    let ghost mid = candidate_view(candidates);
                    proof {
                        assert(left.contains(peer@));
                        assert(iter@ =~= left.remove(peer@));
                        assert(peer@ != c0);
                        assert(mid[peer@] == before[peer@]);
                    }
                    let mut set = candidates[j];
                    if set.has(known) {
                        set.remove(known);
                        candidates.set(j, set);
                        proof {
                            assert(candidate_view(candidates) =~= mid.update(j as int, before[peer@].remove(k0)));
                            assert(before[peer@].remove(k0) =~= Set::<int>::empty() <==> before[peer@] =~= set![k0]) by {
                                if before[peer@].remove(k0) =~= Set::<int>::empty() {
                                    assert(before[peer@] =~= set![k0]);
                                }
                            }
                        }
                        if set.is_empty() {
                            valid = false;
                        }
                    } else {
                        proof {
                            assert(before[peer@].remove(k0) =~= before[peer@]);
                            assert(before[peer@] != set![k0]);
                        }
                    }
                    proof {
                        assert forall|c: int|
                            0 <= c < 81 && c != c0 implies #[trigger] candidate_view(candidates)[c] == if peers@.contains(c)
                                && !iter@.contains(c) {
                                before[c].remove(k0)
                            } else {
                                before[c]
                            } by {
                            if c != peer@ {
                                assert(iter@.contains(c) == left.contains(c));
                                assert(candidate_view(candidates)[c] == mid[c]);
                            }
                        }
                        assert(valid == (self.valid && !(exists|p: int|
                            peers@.contains(p) && !iter@.contains(p) && #[trigger] before[p] == set![k0]))) by {
                            if exists|p: int| peers@.contains(p) && !iter@.contains(p) && #[trigger] before[p] == set![k0] {
                                let p = choose|p: int| peers@.contains(p) && !iter@.contains(p) && #[trigger] before[p] == set![k0];
                                if p != peer@ {
                                    assert(!left.contains(p));
                                }
                            }
                        }
                    }
                },
                None => {
                    proof {
                        assert forall|c: int| peers@.contains(c) implies !iter@.contains(c) by {}
                    }
                    break;
                },
            }
        }
        proof {
            assert(values@ =~= old(self).values().update(c0, (k0 + 1) as u8));
        }
        *self = Board { givens: self.givens, knowns, values, candidates, valid };
        proof {
            let m = after_known(old(self).model(), c0, k0);
            assert(self.candidate_sets() =~= m.3);
        }
    }
}

/// The givens, solved cells, values, candidates and validity of a board.
pub type BoardModel = (Set<int>, Set<int>, Seq<u8>, Seq<Set<int>>, bool);

/// The model of a new board.
pub open spec fn empty_model() -> BoardModel {
    (
        Set::<int>::empty(),
        Set::<int>::empty(),
        Seq::new(81, |i: int| 0u8),
        Seq::new(81, |i: int| vstd::set_lib::set_int_range(0, 9)),
        true,
    )
}

/// The model `m` with `cell` set to the zero-based `k`, as [`Board::set_known`] leaves it.
pub open spec fn after_known(m: BoardModel, cell: int, k: int) -> BoardModel {
    if m.2[cell] == k + 1 {
        m
    } else {
        (
            m.0,
            m.1.insert(cell),
            m.2.update(cell, (k + 1) as u8),
            Seq::new(
                81,
                |c: int|
                    if c == cell {
                        Set::<int>::empty()
                    } else if peers_of(cell).contains(c) {
                        m.3[c].remove(k)
                    } else {
                        m.3[c]
                    },
            ),
            m.4 && !strands_peer(m.3, cell, k),
        )
    }
}

/// The model `m` with `cell` given as the zero-based `k`, as [`Board::set_given`] leaves it.
pub open spec fn after_given(m: BoardModel, cell: int, k: int) -> BoardModel {
    let n = after_known(m, cell, k);
    (n.0.insert(cell), n.1, n.2, n.3, n.4)
}

/// `cell` can take the zero-based `k` on a board with model `m`: it holds that value
/// already, or it is unsolved with `k` among its candidates.
pub open spec fn can_set(m: BoardModel, cell: int, k: int) -> bool {
    m.2[cell] == k + 1 || (!m.1.contains(cell) && m.3[cell].contains(k))
}

/// `after` is `before` with `cell` set to the zero-based `k`: unchanged when the cell already
/// held that value, else the cell is known with no candidates left, `k` leaves the candidates
/// of its peers, and the board stays valid only while no peer had `k` as its last candidate.
pub open spec fn set_known_result(before: Board, after: Board, cell: int, k: int) -> bool {
    if before.values()[cell] == k + 1 {
        &&& after.knowns() == before.knowns()
        &&& after.values() == before.values()
        &&& after.candidate_sets() == before.candidate_sets()
        &&& after.valid() == before.valid()
    } else {
        &&& after.knowns() == before.knowns().insert(cell)
        &&& after.values() == before.values().update(cell, (k + 1) as u8)
        &&& after.candidate_sets()[cell] == Set::<int>::empty()
        &&& forall|c: int|
            0 <= c < 81 && c != cell ==> #[trigger] after.candidate_sets()[c] == if peers_of(cell).contains(c) {
                before.candidate_sets()[c].remove(k)
            } else {
                before.candidate_sets()[c]
            }
        &&& after.valid() == (before.valid() && !strands_peer(before.candidate_sets(), cell, k))
    }
}

/// The character for value `v` in the text of a board: its digit, or `.`
/// while unknown.
pub open spec fn value_char(v: u8) -> char {
    if v == 0 {
        '.'
    } else {
        (48 + v) as char
    }
}

/// The text of a board with `values`: its rows of nine characters separated
/// by spaces.
pub open spec fn board_text(values: Seq<u8>) -> Seq<char> {
    Seq::new(
        89,
        |i: int|
            if i % 10 == 9 {
                ' '
            } else {
                value_char(values[9 * (i / 10) + i % 10])
            },
    )
}

} // verus!
