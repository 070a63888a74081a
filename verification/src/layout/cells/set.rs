//! A set of cells that keeps its size beside its members.
use vstd::prelude::*;
use vstd::set_lib::set_int_range;

use crate::bits::{
    bits_view, count_bits, is_least, lemma_mask_bounds, lemma_mask_values, lemma_view_equal,
    lemma_view_len, lemma_view_ops, low_mask,
};
use crate::layout::cells::cell::{cell_label, Cell};
use crate::layout::cells::cell_set::{
    cell_list_labels, listed_cell, set_labels, CellIter as SetCellIter, BitIter as SetBitIter,
};
use crate::layout::houses::house::House;
use crate::layout::houses::shape::house_cells;
use crate::packed::{lemma_packs, pack_add, pack_new, pack_remove, packs, MASK81};
use crate::text::{push_char, push_str};

verus! {

/// The member bits of a cell set.
pub type Bits = u128;

/// The mark shown for an empty set.
pub const EMPTY: char = '∅';

const SIZE_SHIFT: u32 = 96;

/// A set of cells implemented using a bit field with its size above the members.
#[derive(Clone, Copy, Default, PartialEq, Eq, Structural, Debug)]
pub struct CellSet(u128);

impl CellSet {
    #[verifier::type_invariant]
    spec fn inv(self) -> bool {
        packs(self.0, self.0 & MASK81, 96)
    }

    /// The indexes of the cells in this set.
    pub closed spec fn view(&self) -> Set<int> {
        bits_view(self.0 & MASK81, 81)
    }

    proof fn lemma_same(self, other: Self)
        requires
            packs(self.0, self.0 & MASK81, 96),
            packs(other.0, other.0 & MASK81, 96),
        ensures
            (self.0 == other.0) == (self@ == other@),
            self.0 & MASK81 <= low_mask(81),
            other.0 & MASK81 <= low_mask(81),
    {
        lemma_mask_values();
        lemma_packs(self.0, self.0 & MASK81, 96);
        lemma_packs(other.0, other.0 & MASK81, 96);
        lemma_view_equal(self.0 & MASK81, other.0 & MASK81, 81);
    }

    fn from_bits(bits: u128) -> (r: Self)
        requires
            bits <= MASK81,
        ensures
            r@ == bits_view(bits, 81),
    {
        let p = pack_new(bits, SIZE_SHIFT);
        proof {
            lemma_packs(p, bits, 96);
        }
        CellSet(p)
    }

    /// Returns a new empty set.
    pub fn empty() -> (r: Self)
        ensures
            r@ == Set::<int>::empty(),
    {
        proof {
            lemma_view_ops(0, 0, 81);
        }
        Self::from_bits(0)
    }

    /// Returns a new full set.
    pub fn full() -> (r: Self)
        ensures
            r@ == set_int_range(0, 81),
    {
        proof {
            lemma_mask_values();
            lemma_view_ops(0, 0, 81);
        }
        Self::from_bits(MASK81)
    }

    /// Returns a new set from the raw bit field `bits`.
    pub fn new(bits: u128) -> (r: Self)
        requires
            bits <= MASK81,
        ensures
            r@ == bits_view(bits, 81),
    {
        Self::from_bits(bits)
    }

    /// Returns a new set containing each cell in `cells`.
    pub fn of(cells: &[Cell]) -> (r: Self)
        ensures
            r@ == Set::new(|c: int| exists|i: int| 0 <= i < cells@.len() && #[trigger] cells@[i]@ == c),
    {
        let mut set = CellSet::empty();
        let mut i: usize = 0;
        while i < cells.len()
            invariant
                i <= cells@.len(),
                set@ == Set::new(|c: int| exists|k: int| 0 <= k < i && #[trigger] cells@[k]@ == c),
            decreases cells@.len() - i,
        {
            let ghost before = set@;
            set.add(cells[i]);
            proof {
                assert(set@ =~= Set::new(|c: int| exists|k: int| 0 <= k < i + 1 && #[trigger] cells@[k]@ == c)) by {
                    assert forall|c: int| set@.contains(c) implies exists|k: int| 0 <= k < i + 1 && #[trigger] cells@[k]@ == c by {
                        if !before.contains(c) {
                            assert(cells@[i as int]@ == c);
                        }
                    }
                    assert forall|c: int| (exists|k: int| 0 <= k < i + 1 && #[trigger] cells@[k]@ == c) implies set@.contains(c) by {
                        let k = choose|k: int| 0 <= k < i + 1 && #[trigger] cells@[k]@ == c;
                        if k < i {
                            assert(before.contains(c));
                        }
                    }
                }
            }
            i = i + 1;
        }
        set
    }

    /// Returns true if this set is empty.
    pub fn is_empty(&self) -> (r: bool)
        ensures
            r == (self@ == Set::<int>::empty()),
    {
        proof {
            use_type_invariant(self);
            lemma_packs(self.0, self.0 & MASK81, 96);
            lemma_view_ops(0, 0, 81);
            lemma_mask_values();
            lemma_view_equal(self.0 & MASK81, 0, 81);
        }
        self.0 == 0
    }

    /// Returns true if this set is full.
    pub fn is_full(&self) -> (r: bool)
        ensures
            r == (self@ == set_int_range(0, 81)),
    {
        let full = CellSet::full();
        proof {
            use_type_invariant(self);
            use_type_invariant(&full);
            self.lemma_same(full);
        }
        self.0 == full.0
    }

    /// Returns the number of cells in this set.
    pub fn size(&self) -> (r: u8)
        ensures
            r == self@.len(),
    {
        proof {
            use_type_invariant(self);
            lemma_packs(self.0, self.0 & MASK81, 96);
        }
        (self.0 >> SIZE_SHIFT) as u8
    }

    /// Returns the raw bit field of the members.
    pub fn bits(&self) -> (r: u128)
        ensures
            r <= MASK81,
            bits_view(r, 81) == self@,
    {
        proof {
            use_type_invariant(self);
        }
        self.0 & MASK81
    }

    /// Returns true if `cell` is a member of this set.
    pub fn has(&self, cell: Cell) -> (r: bool)
        ensures
            r == self@.contains(cell@),
    {
        let b = cell.bit().bit();
        proof {
            use_type_invariant(self);
            lemma_packs(self.0, self.0 & MASK81, 96);
            crate::bits::lemma_view_single(self.0 & MASK81, cell@, 81);
        }
        self.0 & b != 0
    }

    /// Returns a copy of this set with `cell` as a member.
    pub fn with(&self, cell: Cell) -> (r: Self)
        ensures
            r@ == self@.insert(cell@),
    {
        let mut copy = *self;
        copy.add(cell);
        copy
    }

    /// Adds `cell` to this set.
    pub fn add(&mut self, cell: Cell)
        ensures
            final(self)@ == old(self)@.insert(cell@),
    {
        proof {
            use_type_invariant(&*self);
        }
        let i = cell.index();
        let (p, Ghost(b)) = pack_add(self.0, Ghost(self.0 & MASK81), i as u32, SIZE_SHIFT);
        proof {
            lemma_packs(p, b, 96);
        }
        self.0 = p;
    }

    /// Returns a copy of this set without `cell` as a member.
    pub fn without(&self, cell: Cell) -> (r: Self)
        ensures
            r@ == self@.remove(cell@),
    {
        let mut copy = *self;
        copy.remove(cell);
        copy
    }

    /// Removes `cell` from this set.
    pub fn remove(&mut self, cell: Cell)
        ensures
            final(self)@ == old(self)@.remove(cell@),
    {
        proof {
            use_type_invariant(&*self);
        }
        let i = cell.index();
        let (p, Ghost(b)) = pack_remove(self.0, Ghost(self.0 & MASK81), i as u32, SIZE_SHIFT);
        proof {
            lemma_packs(p, b, 96);
        }
        self.0 = p;
    }

    /// Returns the combined members of this set and `set`.
    pub fn union(&self, set: Self) -> (r: Self)
        ensures
            r@ == self@.union(set@),
    {
        proof {
            use_type_invariant(self);
            use_type_invariant(&set);
            self.lemma_same(set);
            lemma_view_ops(self.0 & MASK81, set.0 & MASK81, 81);
            lemma_mask_bounds(self.0 & MASK81, set.0 & MASK81, 81);
            if self.0 == set.0 {
                assert(self@.union(set@) =~= self@);
            }
            crate::packed::lemma_mask81_distributes();
            crate::bits::lemma_low_mask();
            lemma_mask_values();
        }
        if self.0 == set.0 {
            *self
        } else {
            CellSet::from_bits((self.0 | set.0) & MASK81)
        }
    }

    /// Adds the members of `set` to this set.
    pub fn union_with(&mut self, set: Self)
        ensures
            final(self)@ == old(self)@.union(set@),
    {
        *self = self.union(set);
    }

    /// Returns the common members of this set and `set`.
    pub fn intersect(&self, set: Self) -> (r: Self)
        ensures
            r@ == self@.intersect(set@),
    {
        proof {
            use_type_invariant(self);
            use_type_invariant(&set);
            self.lemma_same(set);
            lemma_view_ops(self.0 & MASK81, set.0 & MASK81, 81);
            lemma_mask_bounds(self.0 & MASK81, set.0 & MASK81, 81);
            if self.0 == set.0 {
                assert(self@.intersect(set@) =~= self@);
            }
            crate::packed::lemma_mask81_distributes();
            crate::bits::lemma_low_mask();
            lemma_mask_values();
        }
        if self.0 == set.0 {
            *self
        } else {
            CellSet::from_bits((self.0 & set.0) & MASK81)
        }
    }

    /// Removes all members of this set that are not members of `set`.
    pub fn intersect_with(&mut self, set: Self)
        ensures
            final(self)@ == old(self)@.intersect(set@),
    {
        *self = self.intersect(set);
    }

    /// Returns the members of this set that are not in `set`.
    pub fn minus(&self, set: Self) -> (r: Self)
        ensures
            r@ == self@.difference(set@),
    {
        proof {
            use_type_invariant(self);
            use_type_invariant(&set);
            self.lemma_same(set);
            lemma_view_ops(self.0 & MASK81, set.0 & MASK81, 81);
            lemma_view_ops(0, 0, 81);
            lemma_mask_bounds(self.0 & MASK81, set.0 & MASK81, 81);
            if self.0 == set.0 {
                assert(self@.difference(set@) =~= Set::<int>::empty());
            }
            crate::packed::lemma_mask81_distributes();
            crate::bits::lemma_low_mask();
            lemma_mask_values();
        }
        if self.0 == set.0 {
            CellSet::empty()
        } else {
            CellSet::from_bits((self.0 & !set.0) & MASK81)
        }
    }

    /// Removes all members of `set` from this set.
    pub fn subtract(&mut self, set: Self)
        ensures
            final(self)@ == old(self)@.difference(set@),
    {
        *self = self.minus(set);
    }

    /// Returns the cells that are not in this set.
    pub fn inverted(&self) -> (r: Self)
        ensures
            r@ == set_int_range(0, 81).difference(self@),
    {
        let full = CellSet::full();
        proof {
            use_type_invariant(self);
            use_type_invariant(&full);
        }
        if self.0 == 0 {
            proof {
                crate::bits::lemma_low_mask();
                lemma_view_ops(0, 0, 81);
                assert(self.0 & MASK81 <= self.0);
                assert(set_int_range(0, 81).difference(self@) =~= set_int_range(0, 81));
            }
            full
        } else if self.0 == full.0 {
            proof {
                self.lemma_same(full);
                assert(set_int_range(0, 81).difference(self@) =~= Set::<int>::empty());
            }
            CellSet::empty()
        } else {
            proof {
                crate::packed::lemma_mask81_distributes();
                crate::bits::lemma_low_mask();
                lemma_mask_values();
                lemma_view_ops(self.0 & MASK81, 0, 81);
            }
            CellSet::from_bits(!self.0 & MASK81)
        }
    }

    /// Replaces this set by the cells that are not in it.
    pub fn invert(&mut self)
        ensures
            final(self)@ == set_int_range(0, 81).difference(old(self)@),
    {
        *self = self.inverted();
    }

    /// Returns an iterator over the members of this set in row-then-column order.
    pub fn iter(&self) -> (r: SetCellIter)
        ensures
            r@ == self@,
    {
        let b = self.bits();
        crate::layout::cells::cell_set::CellSet::new(b).iter()
    }

    /// Returns an iterator over the members of this set as bits.
    pub fn bit_iter(&self) -> (r: SetBitIter)
        ensures
            r@ == self@,
    {
        let b = self.bits();
        crate::layout::cells::cell_set::CellSet::new(b).bit_iter()
    }

    /// Returns the size and the bits of this set, highest cell first, as a debug string.
    pub fn debug(&self) -> (r: String)
        ensures
            r@ == seq![(48 + self@.len() / 10) as char, (48 + self@.len() % 10) as char, ':'] + Seq::new(
                81,
                |i: int|
                    if self@.contains(80 - i) {
                        '1'
                    } else {
                        '0'
                    },
            ),
    {
        let mut s = String::new();
        let n = self.size();
        push_char(&mut s, (48u8 + n / 10) as char);
        push_char(&mut s, (48u8 + n % 10) as char);
        push_char(&mut s, ':');
        let mut i: u8 = 0;
        while i < 81
            invariant
                i <= 81,
                n == self@.len(),
                s@ == seq![(48 + self@.len() / 10) as char, (48 + self@.len() % 10) as char, ':'] + Seq::new(
                    i as nat,
                    |k: int|
                        if self@.contains(80 - k) {
                            '1'
                        } else {
                            '0'
                        },
                ),
            decreases 81 - i,
        {
            let c = if self.has(Cell::new(80 - i)) {
                '1'
            } else {
                '0'
            };
            push_char(&mut s, c);
            i = i + 1;
            proof {
                assert(s@ =~= seq![(48 + self@.len() / 10) as char, (48 + self@.len() % 10) as char, ':'] + Seq::new(
                    i as nat,
                    |k: int|
                        if self@.contains(80 - k) {
                            '1'
                        } else {
                            '0'
                        },
                ));
            }
        }
        s
    }

    /// Returns the cells of `house`.
    pub fn from_house(house: House) -> (r: Self)
        ensures
            r@ == house_cells(house@.0, house@.1),
    {
        let cells = house.cells();
        let mut set = CellSet::empty();
        let mut iter = cells.iter();
        loop
            invariant
                set@.union(iter@) == house_cells(house@.0, house@.1),
                set@.disjoint(iter@),
            ensures
                set@ == house_cells(house@.0, house@.1),
            decreases iter@.len(),
        {
            proof {
                iter.lemma_view();
            }
            match iter.next() {
                Some(cell) => {
                    set.add(cell);
                },
                None => {
                    proof {
                        assert(set@ =~= set@.union(iter@));
                    }
                    break;
                },
            }
        }
        set
    }

    /// Returns the set of the cells labelled in `labels`, the labels separated by single spaces.
    pub fn from(labels: &str) -> (r: Self)
        requires
            cell_list_labels(labels@),
            labels@.len() > 0,
        ensures
            r@ == Set::new(
                |c: int|
                    exists|k: int|
                        0 <= k < (labels@.len() + 1) / 3 && listed_cell(labels@, k) == c,
            ),
    {
        let set = crate::layout::cells::cell_set::CellSet::from(labels);
        let b = set.bits();
        CellSet::from_bits(b)
    }

    /// Returns the labels of the cells in this set inside parentheses.
    pub fn to_string(&self) -> (r: String)
        ensures
            self@ == Set::<int>::empty() ==> r@ == seq![EMPTY],
            self@ != Set::<int>::empty() ==> r@ == seq!['('] + set_labels(self@, 81) + seq![' ', ')'],
    {
        if self.is_empty() {
            return crate::text::string_of_char(EMPTY);
        }
        let mut s = String::new();
        push_char(&mut s, '(');
        let mut i: u8 = 0;
        while i < 81
            invariant
                i <= 81,
                s@ == seq!['('] + set_labels(self@, i as int),
            decreases 81 - i,
        {
            let cell = Cell::new(i);
            if self.has(cell) {
                push_char(&mut s, ' ');
                let label = cell.label();
                push_str(&mut s, label.as_str());
            }
            i = i + 1;
            proof {
                assert(s@ =~= seq!['('] + set_labels(self@, i as int));
            }
        }
        push_char(&mut s, ' ');
        push_char(&mut s, ')');
        proof {
            assert(s@ =~= seq!['('] + set_labels(self@, 81) + seq![' ', ')']);
        }
        s
    }

    /// Returns true if this set is empty, as `!set` does.
    pub fn not(self) -> (r: bool)
        ensures
            r == (self@ == Set::<int>::empty()),
    {
        self.is_empty()
    }
}

} // verus!
