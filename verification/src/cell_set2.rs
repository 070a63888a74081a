//! Cells numbered by a word-sized index and sets of them that keep their size beside their
//! members in the same word.
use vstd::prelude::*;
use vstd::set_lib::set_int_range;

use crate::bits::{
    bits_view, lemma_mask_bounds, lemma_mask_values, lemma_view_equal, lemma_view_ops, low_mask,
};
use crate::packed::{lemma_packs, pack_add, pack_new, pack_remove, packs, MASK81};

verus! {

/// The index of a cell, from 0 to 80 in row-then-column order.
pub type CellIndex = u32;

/// The number of cells in a set.
pub type Size = u32;

/// The member bits of a set, one per cell.
pub type Cells = u128;

/// The number of cells on the board.
pub const CELL_COUNT: Size = 81;

const SIZE_SHIFT: u32 = 96;

/// A cell identified by its index.
#[derive(Copy, Clone, Debug)]
pub struct Cell(CellIndex);

impl Cell {
    #[verifier::type_invariant]
    spec fn inv(self) -> bool {
        self.0 < 81
    }

    /// The index of this cell.
    pub closed spec fn view(&self) -> int {
        self.0 as int
    }

    /// Returns the cell with index `value`.
    pub fn new(value: CellIndex) -> (r: Cell)
        requires
            value < 81,
        ensures
            r@ == value,
    {
        Cell(value)
    }

    /// Returns the index of this cell.
    pub fn value(&self) -> (r: CellIndex)
        ensures
            r == self@,
            r < 81,
    {
        proof {
            use_type_invariant(self);
        }
        self.0
    }

    /// Returns the bit of this cell in a set.
    pub fn bit(&self) -> (r: u128)
        ensures
            r == 1u128 << (self@ as u128),
    {
        proof {
            use_type_invariant(self);
        }
        1u128 << self.0
    }

    /// Returns the row of this cell.
    pub fn row(&self) -> (r: CellIndex)
        ensures
            r == self@ / 9,
    {
        self.value() / 9
    }

    /// Returns the column of this cell.
    pub fn column(&self) -> (r: CellIndex)
        ensures
            r == self@ % 9,
    {
        self.value() % 9
    }

    /// Returns the block of this cell, numbered left to right, then top to bottom.
    pub fn block(&self) -> (r: CellIndex)
        ensures
            r == (self@ / 27) * 3 + (self@ % 9) / 3,
    {
        (self.row() / 3) * 3 + (self.column() / 3)
    }
}

/// A set of cells with its size stored above the member bits.
#[derive(Clone, Copy, Debug, PartialEq, Eq, Structural)]
pub struct CellSet(u128);

impl CellSet {
    #[verifier::type_invariant]
    spec fn inv(self) -> bool {
        packs(self.0, self.0 & MASK81, 96)
    }

    /// The indexes of the cells in this set.
    pub closed spec fn view(&self) -> Set<int> {
        bits_view(self.0 & MASK81, 81)
    }

    proof fn lemma_same(self, other: Self)
        requires
            packs(self.0, self.0 & MASK81, 96),
            packs(other.0, other.0 & MASK81, 96),
        ensures
            (self.0 == other.0) == (self@ == other@),
            self.0 & MASK81 <= low_mask(81),
            other.0 & MASK81 <= low_mask(81),
    {
        lemma_mask_values();
        lemma_packs(self.0, self.0 & MASK81, 96);
        lemma_packs(other.0, other.0 & MASK81, 96);
        lemma_view_equal(self.0 & MASK81, other.0 & MASK81, 81);
    }

    /// Two sets are equal exactly when they hold the same cells.
    pub fn equals(&self, other: &Self) -> (r: bool)
        ensures
            r == (self@ == other@),
    {
        proof {
            use_type_invariant(self);
            use_type_invariant(other);
            self.lemma_same(*other);
        }
        self.0 == other.0
    }

    /// Returns a new empty set.
    pub fn empty() -> (r: CellSet)
        ensures
            r@ == Set::<int>::empty(),
    {
        proof {
            lemma_view_ops(0, 0, 81);
        }
        CellSet::new(0)
    }

    /// Returns a new set holding every cell.
    pub fn full() -> (r: CellSet)
        ensures
            r@ == set_int_range(0, 81),
    {
        proof {
            lemma_mask_values();
            lemma_view_ops(0, 0, 81);
        }
        CellSet::new(MASK81)
    }

    /// Returns a new set holding the cells whose bits are set in `cells`.
    pub fn new(cells: Cells) -> (r: CellSet)
        requires
            cells <= MASK81,
        ensures
            r@ == bits_view(cells, 81),
    {
        let p = pack_new(cells, SIZE_SHIFT);
        proof {
            lemma_packs(p, cells, 96);
        }
        CellSet(p)
    }

    /// Returns true if this set holds no cell.
    pub fn is_empty(&self) -> (r: bool)
        ensures
            r == (self@ == Set::<int>::empty()),
    {
        proof {
            use_type_invariant(self);
            lemma_packs(self.0, self.0 & MASK81, 96);
            lemma_view_ops(0, 0, 81);
            lemma_mask_values();
            lemma_view_equal(self.0 & MASK81, 0, 81);
        }
        self.0 == 0
    }

    /// Returns true if this set holds every cell.
    pub fn is_full(&self) -> (r: bool)
        ensures
            r == (self@ == set_int_range(0, 81)),
    {
        proof {
            use_type_invariant(self);
            lemma_packs(self.0, self.0 & MASK81, 96);
            vstd::set_lib::lemma_int_range(0, 81);
            if self@.len() == 81 {
                assert(self@.subset_of(set_int_range(0, 81)));
                vstd::set_lib::lemma_subset_equality(self@, set_int_range(0, 81));
            }
        }
        self.size() == CELL_COUNT
    }

    /// Returns the number of cells in this set.
    pub fn size(&self) -> (r: Size)
        ensures
            r == self@.len(),
    {
        proof {
            use_type_invariant(self);
            lemma_packs(self.0, self.0 & MASK81, 96);
        }
        (self.0 >> SIZE_SHIFT) as Size
    }

    /// Returns the member bits of this set.
    fn cells(&self) -> (r: Cells)
        ensures
            r <= MASK81,
            bits_view(r, 81) == self@,
    {
        proof {
            use_type_invariant(self);
        }
        self.0 & MASK81
    }

    /// Returns true if `cell` is in this set.
    pub fn has(&self, cell: Cell) -> (r: bool)
        ensures
            r == self@.contains(cell@),
    {
        let i = cell.value();
        let b = cell.bit();
        proof {
            use_type_invariant(self);
            lemma_packs(self.0, self.0 & MASK81, 96);
            crate::bits::lemma_view_single(self.0 & MASK81, cell@, 81);
        }
        self.0 & b != 0
    }

    /// Returns true if `cell` is in this set.
    pub fn index(&self, cell: Cell) -> (r: bool)
        ensures
            r == self@.contains(cell@),
    {
        self.has(cell)
    }

    /// Returns this set with `cell` added, the same word when it was already there.
    pub fn add(self, cell: Cell) -> (r: CellSet)
        ensures
            r@ == self@.insert(cell@),
            self@.contains(cell@) ==> r == self,
    {
        if self.has(cell) {
            proof {
                assert(self@.insert(cell@) =~= self@);
            }
            self
        } else {
            let mut copy = self;
            copy.add_assign(cell);
            copy
        }
    }

    /// Adds `cell` to this set.
    pub fn add_assign(&mut self, cell: Cell)
        ensures
            final(self)@ == old(self)@.insert(cell@),
    {
        proof {
            use_type_invariant(&*self);
        }
        let i = cell.value();
        let (p, Ghost(b)) = pack_add(self.0, Ghost(self.0 & MASK81), i, SIZE_SHIFT);
        proof {
            lemma_packs(p, b, 96);
        }
        self.0 = p;
    }

    /// Returns this set with `cell` removed, the same word when it was not there.
    pub fn sub(self, cell: Cell) -> (r: CellSet)
        ensures
            r@ == self@.remove(cell@),
            !self@.contains(cell@) ==> r == self,
    {
        if !self.has(cell) {
            proof {
                assert(self@.remove(cell@) =~= self@);
            }
            self
        } else {
            let mut copy = self;
            copy.sub_assign(cell);
            copy
        }
    }

    /// Removes `cell` from this set.
    pub fn sub_assign(&mut self, cell: Cell)
        ensures
            final(self)@ == old(self)@.remove(cell@),
    {
        proof {
            use_type_invariant(&*self);
        }
        let i = cell.value();
        let (p, Ghost(b)) = pack_remove(self.0, Ghost(self.0 & MASK81), i, SIZE_SHIFT);
        proof {
            lemma_packs(p, b, 96);
        }
        self.0 = p;
    }

    /// Returns the cells that are not in this set.
    pub fn not(self) -> (r: CellSet)
        ensures
            r@ == set_int_range(0, 81).difference(self@),
    {
        let full = CellSet::full();
        proof {
            use_type_invariant(self);
            use_type_invariant(&full);
        }
        if self.0 == 0 {
            proof {
                crate::bits::lemma_low_mask();
                lemma_view_ops(0, 0, 81);
                assert(self.0 & MASK81 <= self.0);
                assert(set_int_range(0, 81).difference(self@) =~= set_int_range(0, 81));
            }
            full
        } else if self.0 == full.0 {
            proof {
                self.lemma_same(full);
                assert(set_int_range(0, 81).difference(self@) =~= Set::<int>::empty());
            }
            CellSet::empty()
        } else {
            proof {
                crate::packed::lemma_mask81_distributes();
                crate::bits::lemma_low_mask();
                lemma_mask_values();
                lemma_view_ops(self.0 & MASK81, 0, 81);
            }
            CellSet::new(!self.0 & MASK81)
        }
    }

    /// Returns the cells in this set or in `rhs`.
    pub fn bitor(self, rhs: CellSet) -> (r: CellSet)
        ensures
            r@ == self@.union(rhs@),
    {
        proof {
            use_type_invariant(self);
            use_type_invariant(&rhs);
            self.lemma_same(rhs);
            lemma_view_ops(self.0 & MASK81, rhs.0 & MASK81, 81);
            lemma_mask_bounds(self.0 & MASK81, rhs.0 & MASK81, 81);
            if self.0 == rhs.0 {
                assert(self@.union(rhs@) =~= self@);
            }
            crate::packed::lemma_mask81_distributes();
            crate::bits::lemma_low_mask();
            lemma_mask_values();
        }
        if self.0 == rhs.0 {
            self
        } else {
            CellSet::new((self.0 | rhs.0) & MASK81)
        }
    }

    /// Adds the cells of `rhs` to this set.
    pub fn bitor_assign(&mut self, rhs: CellSet)
        ensures
            final(self)@ == old(self)@.union(rhs@),
    {
        if self.0 != rhs.0 {
            *self = self.bitor(rhs);
        } else {
            proof {
                use_type_invariant(&*self);
                use_type_invariant(&rhs);
                self.lemma_same(rhs);
                assert(self@.union(rhs@) =~= self@);
            }
        }
    }

    /// Returns the cells in both this set and `rhs`.
    pub fn bitand(self, rhs: CellSet) -> (r: CellSet)
        ensures
            r@ == self@.intersect(rhs@),
    {
        proof {
            use_type_invariant(self);
            use_type_invariant(&rhs);
            self.lemma_same(rhs);
            lemma_view_ops(self.0 & MASK81, rhs.0 & MASK81, 81);
            lemma_mask_bounds(self.0 & MASK81, rhs.0 & MASK81, 81);
            if self.0 == rhs.0 {
                assert(self@.intersect(rhs@) =~= self@);
            }
            crate::packed::lemma_mask81_distributes();
            crate::bits::lemma_low_mask();
            lemma_mask_values();
        }
        if self.0 == rhs.0 {
            self
        } else {
            CellSet::new((self.0 & rhs.0) & MASK81)
        }
    }

    /// Keeps only the cells of this set that are also in `rhs`.
    pub fn bitand_assign(&mut self, rhs: CellSet)
        ensures
            final(self)@ == old(self)@.intersect(rhs@),
    {
        if self.0 != rhs.0 {
            *self = self.bitand(rhs);
        } else {
            proof {
                use_type_invariant(&*self);
                use_type_invariant(&rhs);
                self.lemma_same(rhs);
                assert(self@.intersect(rhs@) =~= self@);
            }
        }
    }

    /// Returns the cells of this set that are not in `rhs`.
    pub fn minus(self, rhs: CellSet) -> (r: CellSet)
        ensures
            r@ == self@.difference(rhs@),
    {
        proof {
            use_type_invariant(self);
            use_type_invariant(&rhs);
            self.lemma_same(rhs);
            lemma_view_ops(self.0 & MASK81, rhs.0 & MASK81, 81);
            lemma_mask_bounds(self.0 & MASK81, rhs.0 & MASK81, 81);
            crate::packed::lemma_mask81_distributes();
            crate::bits::lemma_low_mask();
            lemma_mask_values();
        }
        CellSet::new((self.0 & !rhs.0) & MASK81)
    }

    /// Removes the cells of `rhs` from this set.
    pub fn minus_assign(&mut self, rhs: CellSet)
        ensures
            final(self)@ == old(self)@.difference(rhs@),
    {
        *self = self.minus(rhs);
    }
}

} // verus!
