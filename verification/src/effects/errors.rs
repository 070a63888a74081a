//! The ways a change can leave a puzzle unsolvable.
use vstd::prelude::*;

use crate::layout::cells::cell::Cell;
use crate::layout::houses::house::House;

verus! {

/// An error found while applying a change.
#[derive(Clone, Copy, Debug, PartialEq, Eq, Structural)]
pub enum Error {
    /// The unsolved cell has no more candidates remaining.
    UnsolvableCell(Cell),
    /// An unsolved value has no more candidate cells in the house.
    UnsolvableHouse(House),
    /// The house contains two solved cells with the same value.
    Duplicate(House),
}

} // verus!
