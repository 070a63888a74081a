use vstd::prelude::*;

use crate::bits::{bit128, lemma_bit128_ops, lowest_set_bit, bits_view, lemma_view_single};
use crate::layout::cells::cell::Cell;

verus! {

/// The bit at position `i`.
pub open spec fn single_bit(i: int) -> u128 {
    1u128 << (i as u128)
}

/// Specifies a single cell by its position in a bit field.
#[derive(Clone, Copy, Debug, Hash, PartialEq, Eq, Structural, PartialOrd, Ord)]
pub struct Bit(u128);

impl Bit {
    pub const MAX: u128 = 0x1_0000_0000_0000_0000_0000;
    pub const ALL: u128 = 0x1_ffff_ffff_ffff_ffff_ffff;

    #[verifier::type_invariant]
    spec fn inv(self) -> bool {
        exists|i: int| 0 <= i < 81 && self.0 == #[trigger] single_bit(i)
    }

    /// The index of the cell this bit stands for.
    pub closed spec fn view(&self) -> int {
        choose|i: int| 0 <= i < 81 && self.0 == #[trigger] single_bit(i)
    }

    /// The raw bit.
    pub closed spec fn bit_spec(&self) -> u128 {
        self.0
    }

    proof fn lemma_index(self, i: int)
        requires
            0 <= i < 81,
            self.0 == 1u128 << (i as u128),
        ensures
            self@ == i,
    {
        lemma_bit128_ops();
        let j = self@;
        assert(0 <= i < 81 && self.0 == single_bit(i));
        assert(0 <= j < 81 && self.0 == 1u128 << (j as u128));
        assert(bit128(1u128 << (i as u128), i as u128));
        assert(bit128(1u128 << (j as u128), i as u128) <==> i == j);
    }

    /// Returns the bit `bit`, which must stand for one of the 81 cells.
    pub fn new(bit: u128) -> (r: Self)
        requires
            exists|i: int| 0 <= i < 81 && bit == #[trigger] single_bit(i),
        ensures
            r.bit_spec() == bit,
    {
        Bit(bit)
    }

    /// Returns the bit for the cell with `index`.
    pub(crate) fn of_index(index: u8) -> (r: Self)
        requires
            index < 81,
        ensures
            r@ == index,
            r.bit_spec() == 1u128 << (index as u128),
    {
        let b = 1u128 << index;
        assert(b == single_bit(index as int));
        let r = Bit(b);
        proof {
            r.lemma_index(index as int);
        }
        r
    }

    /// Returns the raw bit.
    pub fn bit(&self) -> (r: u128)
        ensures
            r == self.bit_spec(),
            r == 1u128 << (self@ as u128),
            0 <= self@ < 81,
    {
        proof {
            use_type_invariant(self);
            let i = choose|i: int| 0 <= i < 81 && self.0 == #[trigger] single_bit(i);
            self.lemma_index(i);
        }
        self.0
    }

    /// Returns the index of the cell this bit stands for.
    pub fn index(&self) -> (r: u8)
        ensures
            r == self@,
    {
        let b = self.bit();
        proof {
            lemma_view_single(0, self@, 81);
        }
        match lowest_set_bit(b, 81) {
            Some(i) => {
                proof {
                    assert(bits_view(b, 81).contains(self@));
                }
                i as u8
            },
            None => {
                proof {
                    assert(bits_view(b, 81).contains(self@));
                }
                0
            },
        }
    }

    /// Returns the cell this bit stands for.
    pub fn cell(&self) -> (r: Cell)
        ensures
            r@ == self@,
    {
        let i = self.index();
        proof {
            use_type_invariant(self);
            let k = choose|k: int| 0 <= k < 81 && self.0 == #[trigger] single_bit(k);
            self.lemma_index(k);
        }
        Cell::new(i)
    }

    /// Returns the bit for `cell`.
    pub fn from_cell(cell: Cell) -> (r: Self)
        ensures
            r@ == cell@,
    {
        cell.bit()
    }
}

} // verus!
