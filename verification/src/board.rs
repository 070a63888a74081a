//! A puzzle board kept as plain cell and known sets.
use vstd::prelude::*;

use crate::cell_set::{self as cells, cell_in_block, cell_in_column, cell_in_row, cells_of, is_cell_set, Cell, CellSet};
use crate::known_set::{self as knowns, is_known_set, knowns_of, Known, KnownSet, Value, UNKNOWN};
use crate::bits::lemma_view_len;
use crate::packed::MASK81;
use crate::layout::houses::shape::{
    block_of, cell_at, column_of, coord_in, house_of, lemma_cell_at, lemma_house_of, row_of, Shape,
};

verus! {

/// Tracks the givens, the solved values and the candidates of each cell.
pub struct Board {
    givens: CellSet,
    knowns: CellSet,
    values: [Value; 81],
    candidates: [KnownSet; 81],
}

/// Cells `c` and `d` share a row, column or block.
pub open spec fn shares_house(c: int, d: int) -> bool {
    row_of(c) == row_of(d) || column_of(c) == column_of(d) || block_of(c) == block_of(d)
}

/// The zero-based knowns held by each packed candidate set.
pub open spec fn candidate_view(a: [KnownSet; 81]) -> Seq<Set<int>> {
    Seq::new(81, |i: int| knowns_of(a[i]))
}

/// Cell `c` lies in the first `i` cells of row `row`, column `column` or block `block`.
pub open spec fn swept(c: int, row: int, column: int, block: int, i: int) -> bool {
    (row_of(c) == row && coord_in(Shape::Row, c) < i) || (column_of(c) == column && coord_in(
        Shape::Column,
        c,
    ) < i) || (block_of(c) == block && coord_in(Shape::Block, c) < i)
}

/// The candidates of `c` once `k0` has been taken out of the first `i` cells of each house
/// of `c0` and `c0` itself has been emptied.
pub open spec fn swept_value(
    before: Seq<Set<int>>,
    c: int,
    c0: int,
    k0: int,
    row: int,
    column: int,
    block: int,
    i: int,
) -> Set<int> {
    if c == c0 {
        Set::<int>::empty()
    } else if swept(c, row, column, block, i) {
        before[c].remove(k0)
    } else {
        before[c]
    }
}

proof fn lemma_sweep_step(
    before: Seq<Set<int>>,
    start: Set<int>,
    c: int,
    c0: int,
    k0: int,
    row: int,
    column: int,
    block: int,
    i: int,
)
    requires
        0 <= c < 81,
        0 <= i < 9,
        0 <= row < 9,
        0 <= column < 9,
        0 <= block < 9,
        start == swept_value(before, c, c0, k0, row, column, block, i),
    ensures
        (if c == cell_at(Shape::Row, row, i) || c == cell_at(Shape::Column, column, i) || c
            == cell_at(Shape::Block, block, i) {
            start.remove(k0)
        } else {
            start
        }) == swept_value(before, c, c0, k0, row, column, block, i + 1),
{
    lemma_house_of(Shape::Row, c);
    lemma_house_of(Shape::Column, c);
    lemma_house_of(Shape::Block, c);
    lemma_cell_at(Shape::Row, row, i);
    lemma_cell_at(Shape::Column, column, i);
    lemma_cell_at(Shape::Block, block, i);
    assert(Set::<int>::empty().remove(k0) =~= Set::<int>::empty());
    assert(before[c].remove(k0).remove(k0) =~= before[c].remove(k0));
}

proof fn lemma_house_cells(row: int, column: int, block: int, i: int)
    requires
        0 <= row < 9,
        0 <= column < 9,
        0 <= block < 9,
        0 <= i < 9,
    ensures
        (row * 9 + i) % 256 == cell_at(Shape::Row, row, i) < 81,
        (i * 9 + column) % 256 == cell_at(Shape::Column, column, i) < 81,
        (27 * (block / 3) + 3 * (block % 3) + 9 * (i / 3) + (i % 3)) % 256 == cell_at(
            Shape::Block,
            block,
            i,
        ) < 81,
{
    lemma_cell_at(Shape::Row, row, i);
    lemma_cell_at(Shape::Column, column, i);
    lemma_cell_at(Shape::Block, block, i);
}

/// Removes `known` from the packed candidates of cells `a`, `b` and `c`.
fn remove_from_three(cands: &mut [KnownSet; 81], a: Cell, b: Cell, c: Cell, known: Known)
    requires
        a < 81,
        b < 81,
        c < 81,
        1 <= known <= 9,
        forall|j: int| 0 <= j < 81 ==> is_known_set(#[trigger] old(cands)[j]),
    ensures
        forall|j: int| 0 <= j < 81 ==> is_known_set(#[trigger] final(cands)[j]),
        forall|d: int|
            0 <= d < 81 ==> #[trigger] candidate_view(*final(cands))[d] == if d == a || d == b || d
                == c {
                candidate_view(*old(cands))[d].remove(known - 1)
            } else {
                candidate_view(*old(cands))[d]
            },
{
    remove_candidate_at(cands, a, known);
    remove_candidate_at(cands, b, known);
    remove_candidate_at(cands, c, known);
    proof {
        assert forall|d: int| 0 <= d < 81 implies candidate_view(*old(cands))[d].remove(known - 1).remove(
            known - 1,
        ) =~= candidate_view(*old(cands))[d].remove(known - 1) by {}
    }
}

/// Removes `known` from the packed candidates of `cell`.
fn remove_candidate_at(cands: &mut [KnownSet; 81], cell: Cell, known: Known)
    requires
        cell < 81,
        1 <= known <= 9,
        forall|j: int| 0 <= j < 81 ==> is_known_set(#[trigger] old(cands)[j]),
    ensures
        forall|j: int| 0 <= j < 81 ==> is_known_set(#[trigger] final(cands)[j]),
        candidate_view(*final(cands)) == candidate_view(*old(cands)).update(
            cell as int,
            candidate_view(*old(cands))[cell as int].remove(known - 1),
        ),
{
    let mut s = cands[cell as usize];
    knowns::remove(&mut s, known);
    cands.set(cell as usize, s);
    proof {
        assert(candidate_view(*cands) =~= candidate_view(*old(cands)).update(
            cell as int,
            candidate_view(*old(cands))[cell as int].remove(known - 1),
        ));
    }
}

impl Board {
    #[verifier::type_invariant]
    spec fn inv(self) -> bool {
        &&& is_cell_set(self.givens)
        &&& is_cell_set(self.knowns)
        &&& forall|i: int| 0 <= i < 81 ==> is_known_set(#[trigger] self.candidates[i])
        &&& forall|i: int| 0 <= i < 81 ==> #[trigger] self.values[i] <= 9
        &&& forall|i: int|
            0 <= i < 81 ==> (#[trigger] cells_of(self.knowns).contains(i) <==> self.values[i] != 0)
        &&& cells_of(self.givens).subset_of(cells_of(self.knowns))
        &&& forall|i: int|
            0 <= i < 81 && cells_of(self.knowns).contains(i) ==> #[trigger] knowns_of(
                self.candidates[i],
            ) == Set::<int>::empty()
    }

    /// What holds of every board: 81 values of at most 9 and 81 candidate sets; the
    /// solved cells are exactly those with a value, the givens are among them, and a
    /// solved cell has no candidates left.
    pub open spec fn wf(&self) -> bool {
        &&& self.values().len() == 81
        &&& self.candidates().len() == 81
        &&& self.givens().finite()
        &&& self.knowns().finite()
        &&& self.knowns().subset_of(vstd::set_lib::set_int_range(0, 81))
        &&& self.givens().subset_of(self.knowns())
        &&& forall|c: int| 0 <= c < 81 ==> #[trigger] self.values()[c] <= 9
        &&& forall|c: int| 0 <= c < 81 ==> (#[trigger] self.knowns().contains(c) <==> self.values()[c] != 0)
        &&& forall|c: int|
            0 <= c < 81 && #[trigger] self.knowns().contains(c) ==> self.candidates()[c] == Set::<int>::empty()
    }

    /// The type invariant gives what holds of every board.
    proof fn lemma_inv_wf(b: Board)
        requires
            b.inv(),
        ensures
            b.wf(),
    {
        lemma_view_len(b.givens & MASK81, 81);
        lemma_view_len(b.knowns & MASK81, 81);
    }

    /// A board has no more givens than solved cells, and no more of those than 81.
    pub proof fn lemma_counts(b: Board)
        requires
            b.wf(),
        ensures
            b.givens().len() <= b.knowns().len() <= 81,
    {
        vstd::set_lib::lemma_len_subset(b.givens(), b.knowns());
        vstd::set_lib::lemma_int_range(0, 81);
        vstd::set_lib::lemma_len_subset(b.knowns(), vstd::set_lib::set_int_range(0, 81));
    }

    /// The cells given as clues.
    pub closed spec fn givens(&self) -> Set<int> {
        cells_of(self.givens)
    }

    /// The cells with a value.
    pub closed spec fn knowns(&self) -> Set<int> {
        cells_of(self.knowns)
    }

    /// The value of each cell, 0 when unknown.
    pub closed spec fn values(&self) -> Seq<u8> {
        self.values@
    }

    /// The zero-based candidate knowns of each cell.
    pub closed spec fn candidates(&self) -> Seq<Set<int>> {
        candidate_view(self.candidates)
    }

    /// Returns an empty board: no values and every known a candidate of every cell.
    pub fn new() -> (r: Board)
        ensures
            r.wf(),
            r.givens() == Set::<int>::empty(),
            r.knowns() == Set::<int>::empty(),
            r.values() == Seq::new(81, |i: int| 0u8),
            r.candidates() == Seq::new(81, |i: int| vstd::set_lib::set_int_range(0, 9)),
    {
        let full = knowns::full();
        let r = Board {
            givens: cells::empty(),
            knowns: cells::empty(),
            values: [UNKNOWN; 81],
            candidates: [full; 81],
        };
        proof {
            assert(r.values@ =~= Seq::new(81, |i: int| 0u8));
            assert(r.candidates() =~= Seq::new(81, |i: int| vstd::set_lib::set_int_range(0, 9)));
        }
        r
    }

    /// Returns the number of given cells.
    pub fn given_count(&self) -> (r: u8)
        ensures
            self.wf(),
            r == self.givens().len(),
    {
        proof {
            use_type_invariant(self);
            Self::lemma_inv_wf(*self);
        }
        cells::size(self.givens)
    }

    /// Returns true if `cell` is given.
    pub fn is_given(&self, cell: Cell) -> (r: bool)
        requires
            cell < 81,
        ensures
            self.wf(),
            r == self.givens().contains(cell as int),
    {
        proof {
            use_type_invariant(self);
            Self::lemma_inv_wf(*self);
        }
        cells::has(self.givens, cell)
    }

    /// Returns the number of cells with a value.
    pub fn known_count(&self) -> (r: u8)
        ensures
            self.wf(),
            r == self.knowns().len(),
    {
        proof {
            use_type_invariant(self);
            Self::lemma_inv_wf(*self);
        }
        cells::size(self.knowns)
    }

    /// Returns true if `cell` has a value.
    pub fn is_known(&self, cell: Cell) -> (r: bool)
        requires
            cell < 81,
        ensures
            self.wf(),
            r == self.knowns().contains(cell as int),
    {
        proof {
            use_type_invariant(self);
            Self::lemma_inv_wf(*self);
        }
        cells::has(self.knowns, cell)
    }

    /// Returns true if every cell has a value.
    pub fn is_solved(&self) -> (r: bool)
        ensures
            self.wf(),
            r == (self.knowns().len() == 81),
            r == (forall|c: int| 0 <= c < 81 ==> #[trigger] self.knowns().contains(c)),
    {
        let n = self.known_count();
        proof {
            let all = vstd::set_lib::set_int_range(0, 81);
            vstd::set_lib::lemma_int_range(0, 81);
            if n == 81 {
                vstd::set_lib::lemma_subset_equality(self.knowns(), all);
            }
            if forall|c: int| 0 <= c < 81 ==> #[trigger] self.knowns().contains(c) {
                assert(self.knowns() =~= all);
            }
        }
        n == 81
    }

    /// Returns the candidates of `cell`.
    pub fn candidates_of(&self, cell: Cell) -> (r: KnownSet)
        requires
            cell < 81,
        ensures
            self.wf(),
            is_known_set(r),
            knowns_of(r) == self.candidates()[cell as int],
    {
        proof {
            use_type_invariant(self);
            Self::lemma_inv_wf(*self);
        }
        cells::assert_cell(cell);
        self.candidates[cell as usize]
    }

    /// Returns true if `known` is a candidate of `cell`.
    pub fn is_candidate(&self, cell: Cell, known: Known) -> (r: bool)
        requires
            cell < 81,
            1 <= known <= 9,
        ensures
            self.wf(),
            r == self.candidates()[cell as int].contains(known - 1),
    {
        knowns::assert_known(known);
        knowns::has(self.candidates_of(cell), known)
    }

    /// Returns the value of `cell`, 0 when unknown.
    pub fn value(&self, cell: Cell) -> (r: Value)
        requires
            cell < 81,
        ensures
            self.wf(),
            r == self.values()[cell as int],
    {
        proof {
            use_type_invariant(self);
            Self::lemma_inv_wf(*self);
        }
        cells::assert_cell(cell);
        self.values[cell as usize]
    }

    /// Sets `cell` to `known` as a given clue.
    pub fn set_given(&mut self, cell: Cell, known: Known)
        requires
            cell < 81,
            1 <= known <= 9,
            !old(self).knowns().contains(cell as int),
            old(self).candidates()[cell as int].contains(known - 1),
        ensures
            final(self).wf(),
            final(self).givens() == old(self).givens().insert(cell as int),
            final(self).knowns() == old(self).knowns().insert(cell as int),
            final(self).values() == old(self).values().update(cell as int, known),
            forall|c: int| 0 <= c < 81 ==> #[trigger] final(self).candidates()[c] == if c == cell {
                Set::<int>::empty()
            } else if shares_house(c, cell as int) {
                old(self).candidates()[c].remove(known - 1)
            } else {
                old(self).candidates()[c]
            },
    {
        self.set_known(cell, known);
        proof {
            use_type_invariant(&*self);
        }
        let ghost mid = *self;
        let mut givens = self.givens;
        cells::add(&mut givens, cell);
        *self = Board { givens, knowns: self.knowns, values: self.values, candidates: self.candidates };
        proof {
            assert(self.candidates() == mid.candidates());
        }
    }

    /// Sets `cell` to `known` and removes `known` from the candidates of every cell that
    /// shares a row, column or block with it.
    pub fn set_known(&mut self, cell: Cell, known: Known)
        requires
            cell < 81,
            1 <= known <= 9,
            !old(self).knowns().contains(cell as int),
            old(self).candidates()[cell as int].contains(known - 1),
        ensures
            final(self).wf(),
            final(self).givens() == old(self).givens(),
            final(self).knowns() == old(self).knowns().insert(cell as int),
            final(self).values() == old(self).values().update(cell as int, known),
            forall|c: int| 0 <= c < 81 ==> #[trigger] final(self).candidates()[c] == if c == cell {
                Set::<int>::empty()
            } else if shares_house(c, cell as int) {
                old(self).candidates()[c].remove(known - 1)
            } else {
                old(self).candidates()[c]
            },
    {
        proof {
            use_type_invariant(&*self);
        }
        cells::assert_cell(cell);
        knowns::assert_known(known);
        let ghost before = self.candidates();
        let ghost c0 = cell as int;
        let ghost k0 = known - 1;
        let mut values = self.values;
        values.set(cell as usize, known);
        let mut cands = self.candidates;
        cands.set(cell as usize, knowns::empty());
        let row = cells::row_from_cell(cell);
        let column = cells::column_from_cell(cell);
        let block = cells::block_from_cell(cell);
        proof {
            lemma_house_of(Shape::Row, c0);
            lemma_house_of(Shape::Column, c0);
            lemma_house_of(Shape::Block, c0);
            assert forall|c: int| 0 <= c < 81 implies #[trigger] candidate_view(cands)[c] == swept_value(
                before,
                c,
                c0,
                k0,
                row as int,
                column as int,
                block as int,
                0,
            ) by {
                lemma_house_of(Shape::Row, c);
                lemma_house_of(Shape::Column, c);
                lemma_house_of(Shape::Block, c);
            }
        }
        let mut i: usize = 0;
        while i < 9
            invariant
                0 <= i <= 9,
                cell < 81,
                1 <= known <= 9,
                c0 == cell,
                k0 == known - 1,
                row < 9,
                column < 9,
                block < 9,
                forall|j: int| 0 <= j < 81 ==> is_known_set(#[trigger] cands[j]),
                forall|c: int| 0 <= c < 81 ==> #[trigger] candidate_view(cands)[c] == swept_value(
                    before,
                    c,
                    c0,
                    k0,
                    row as int,
                    column as int,
                    block as int,
                    i as int,
                ),
            decreases 9 - i,
        {
            let r = cell_in_row(row, i);
            let col = cell_in_column(column, i);
            let b = cell_in_block(block, i);
            proof {
                lemma_house_cells(row as int, column as int, block as int, i as int);
            }
            let ghost start = candidate_view(cands);
            remove_from_three(&mut cands, r, col, b, known);
            proof {
                assert forall|c: int| 0 <= c < 81 implies #[trigger] candidate_view(cands)[c]
                    == swept_value(
                    before,
                    c,
                    c0,
                    k0,
                    row as int,
                    column as int,
                    block as int,
                    i + 1,
                ) by {
                    lemma_sweep_step(
                        before,
                        start[c],
                        c,
                        c0,
                        k0,
                        row as int,
                        column as int,
                        block as int,
                        i as int,
                    );
                }
            }
            i = i + 1;
        }
        proof {
            assert forall|c: int| 0 <= c < 81 implies #[trigger] candidate_view(cands)[c] == if c == c0 {
                Set::<int>::empty()
            } else if shares_house(c, c0) {
                before[c].remove(k0)
            } else {
                before[c]
            } by {
                lemma_house_of(Shape::Row, c);
                lemma_house_of(Shape::Column, c);
                lemma_house_of(Shape::Block, c);
            }
        }
        let mut ks = self.knowns;
        cells::add(&mut ks, cell);
        proof {
            assert(values@ =~= old(self).values().update(cell as int, known));
        }
        proof {
            let newk = cells_of(ks);
            assert forall|i: int| 0 <= i < 81 implies (#[trigger] newk.contains(i) <==> values[i] != 0) by {
                if i != cell {
                    assert(values[i] == old(self).values[i]);
                }
            }
            assert forall|i: int| 0 <= i < 81 && #[trigger] newk.contains(i) implies knowns_of(cands[i])
                == Set::<int>::empty() by {
                assert(candidate_view(cands)[i] == knowns_of(cands[i]));
                if i != cell {
                    assert(cells_of(old(self).knowns).contains(i));
                    assert(before[i] == knowns_of(old(self).candidates[i]));
                    assert(before[i].remove(k0) =~= Set::<int>::empty());
                }
            }
        }
        *self = Board { givens: self.givens, knowns: ks, values, candidates: cands };
        proof {
            use_type_invariant(&*self);
            Self::lemma_inv_wf(*self);
        }
    }

    /// Removes `known` from the candidates of `cell`.
    pub fn remove_candidate(&mut self, cell: Cell, known: Known)
        requires
            cell < 81,
            1 <= known <= 9,
            old(self).candidates()[cell as int].contains(known - 1),
        ensures
            final(self).wf(),
            final(self).givens() == old(self).givens(),
            final(self).knowns() == old(self).knowns(),
            final(self).values() == old(self).values(),
            final(self).candidates() == old(self).candidates().update(
                cell as int,
                old(self).candidates()[cell as int].remove(known - 1),
            ),
    {
        proof {
            use_type_invariant(&*self);
        }
        cells::assert_cell(cell);
        knowns::assert_known(known);
        let mut cands = self.candidates;
        remove_candidate_at(&mut cands, cell, known);
        proof {
            assert(knowns_of(old(self).candidates[cell as int]).contains(known - 1));
            assert(!cells_of(self.knowns).contains(cell as int));
            assert forall|i: int| 0 <= i < 81 && #[trigger] cells_of(self.knowns).contains(i) implies knowns_of(
                cands[i],
            ) == Set::<int>::empty() by {
                assert(candidate_view(cands)[i] == knowns_of(cands[i]));
                assert(candidate_view(old(self).candidates)[i] == knowns_of(old(self).candidates[i]));
            }
        }
        *self = Board { givens: self.givens, knowns: self.knowns, values: self.values, candidates: cands };
        proof {
            use_type_invariant(&*self);
            Self::lemma_inv_wf(*self);
        }
    }
}

} // verus!
