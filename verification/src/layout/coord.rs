//! A coordinate from 0 to 8 within a house.
use vstd::prelude::*;

verus! {

/// A coordinate of a cell within a row, column or block.
#[derive(Copy, Clone, Debug, PartialEq, Eq, Structural, PartialOrd, Ord)]
pub struct Coord(u8);

impl Coord {
    #[verifier::type_invariant]
    spec fn inv(self) -> bool {
        self.0 <= 8
    }

    /// The number of this coordinate.
    pub closed spec fn view(&self) -> int {
        self.0 as int
    }

    /// Two coordinates are equal exactly when their numbers are.
    pub proof fn lemma_view_eq(a: Coord, b: Coord)
        ensures
            (a == b) == (a@ == b@),
    {
    }

    /// Returns the coordinate numbered `coord`.
    pub fn new(coord: u8) -> (r: Self)
        requires
            coord <= 8,
        ensures
            r@ == coord,
    {
        Self(coord)
    }

    /// Returns the number of this coordinate.
    pub fn u8(&self) -> (r: u8)
        ensures
            r == self@,
            r <= 8,
    {
        proof {
            use_type_invariant(self);
        }
        self.0
    }

    /// Returns the number of this coordinate.
    pub fn u32(&self) -> (r: u32)
        ensures
            r == self@,
            r <= 8,
    {
        self.u8() as u32
    }

    /// Returns the number of this coordinate.
    pub fn usize(&self) -> (r: usize)
        ensures
            r == self@,
            r <= 8,
    {
        self.u8() as usize
    }
}

} // verus!
