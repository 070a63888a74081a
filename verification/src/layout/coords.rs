//! Rows, columns and blocks identified by their coordinates.
use vstd::prelude::*;

use crate::cell_set2::{Cell, CellSet};
use crate::layout::houses::shape::{cell_at, house_cells, lemma_cell_at, lemma_house_of, Shape};

verus! {

/// Identifies a cell within a row, column or block.
pub type Coord = u8;

/// The cells of a house, added one coordinate at a time.
fn house_set(shape: Shape, h: Coord) -> (r: CellSet)
    requires
        h <= 8,
    ensures
        r@ == house_cells(shape, h as int),
{
    let mut set = CellSet::empty();
    let mut i: u8 = 0;
    while i < 9
        invariant
            i <= 9,
            h <= 8,
            set@ == Set::new(|c: int| exists|k: int| 0 <= k < i && c == cell_at(shape, h as int, k)),
        decreases 9 - i,
    {
        let index: u32 = match shape {
            Shape::Row => 9 * h as u32 + i as u32,
            Shape::Column => h as u32 + 9 * i as u32,
            Shape::Block => (h as u32 / 3) * 27 + (h as u32 % 3) * 3 + (i as u32 / 3) * 9 + i as u32 % 3,
        };
        proof {
            lemma_cell_at(shape, h as int, i as int);
        }
        set.add_assign(Cell::new(index));
        proof {
            assert(set@ =~= Set::new(|c: int| exists|k: int| 0 <= k < i + 1 && c == cell_at(shape, h as int, k)));
        }
        i = i + 1;
    }
    proof {
        assert forall|c: int| #[trigger] house_cells(shape, h as int).contains(c) implies set@.contains(c) by {
            lemma_house_of(shape, c);
        }
        assert forall|c: int| set@.contains(c) implies #[trigger] house_cells(shape, h as int).contains(c) by {
            let k = choose|k: int| 0 <= k < 9 && c == cell_at(shape, h as int, k);
            lemma_cell_at(shape, h as int, k);
        }
        assert(set@ =~= house_cells(shape, h as int));
    }
    set
}

/// Identifies one of the nine rows from top to bottom by its coordinate.
#[derive(Copy, Clone, Debug, Hash, Eq, PartialEq, Structural, Ord, PartialOrd)]
pub struct Row(Coord);

impl Row {
    #[verifier::type_invariant]
    spec fn inv(self) -> bool {
        self.0 <= 8
    }

    /// The coordinate of this row.
    pub closed spec fn view(&self) -> int {
        self.0 as int
    }

    /// Returns the row at `row`.
    pub fn new(row: Coord) -> (r: Self)
        requires
            row <= 8,
        ensures
            r@ == row,
    {
        Self(row)
    }

    /// Returns the coordinate of this row.
    pub fn coord(&self) -> (r: Coord)
        ensures
            r == self@,
            r <= 8,
    {
        proof {
            use_type_invariant(self);
        }
        self.0
    }

    /// Returns the coordinate of this row.
    pub fn usize(&self) -> (r: usize)
        ensures
            r == self@,
    {
        self.coord() as usize
    }

    /// Returns the cell of this row in `column`.
    pub fn cell(&self, column: Column) -> (r: Cell)
        ensures
            r@ == 9 * self@ + column@,
            r@ == cell_at(Shape::Row, self@, column@),
    {
        Cell::new((9 * self.coord() + column.coord()) as u32)
    }

    /// Returns the cells of this row.
    pub fn cells(&self) -> (r: CellSet)
        ensures
            r@ == house_cells(Shape::Row, self@),
    {
        house_set(Shape::Row, self.coord())
    }
}

/// Identifies one of the nine columns from left to right by its coordinate.
#[derive(Copy, Clone, Debug, Hash, Eq, PartialEq, Structural, Ord, PartialOrd)]
pub struct Column(u8);

impl Column {
    #[verifier::type_invariant]
    spec fn inv(self) -> bool {
        self.0 <= 8
    }

    /// The coordinate of this column.
    pub closed spec fn view(&self) -> int {
        self.0 as int
    }

    /// Returns the column at `column`.
    pub fn new(column: Coord) -> (r: Self)
        requires
            column <= 8,
        ensures
            r@ == column,
    {
        Self(column)
    }

    /// Returns the coordinate of this column.
    pub fn coord(&self) -> (r: Coord)
        ensures
            r == self@,
            r <= 8,
    {
        proof {
            use_type_invariant(self);
        }
        self.0
    }

    /// Returns the coordinate of this column.
    pub fn usize(&self) -> (r: usize)
        ensures
            r == self@,
    {
        self.coord() as usize
    }

    /// Returns the cell of this column in `row`.
    pub fn cell(&self, row: Row) -> (r: Cell)
        ensures
            r@ == 9 * row@ + self@,
            r@ == cell_at(Shape::Column, self@, row@),
    {
        Cell::new((9 * row.coord() + self.coord()) as u32)
    }

    /// Returns the cells of this column.
    pub fn cells(&self) -> (r: CellSet)
        ensures
            r@ == house_cells(Shape::Column, self@),
    {
        house_set(Shape::Column, self.coord())
    }
}

/// Identifies one of the nine blocks from left to right and top to bottom by its coordinate.
#[derive(Copy, Clone, Debug, Hash, Eq, PartialEq, Structural, Ord, PartialOrd)]
pub struct Block(u8);

impl Block {
    #[verifier::type_invariant]
    spec fn inv(self) -> bool {
        self.0 <= 8
    }

    /// The coordinate of this block.
    pub closed spec fn view(&self) -> int {
        self.0 as int
    }

    /// Returns the block at `block`.
    pub fn new(block: Coord) -> (r: Self)
        requires
            block <= 8,
        ensures
            r@ == block,
    {
        Self(block)
    }

    /// Returns the coordinate of this block.
    pub fn coord(&self) -> (r: Coord)
        ensures
            r == self@,
            r <= 8,
    {
        proof {
            use_type_invariant(self);
        }
        self.0
    }

    /// Returns the coordinate of this block.
    pub fn usize(&self) -> (r: usize)
        ensures
            r == self@,
    {
        self.coord() as usize
    }

    /// Returns the cell of this block at `coord`, numbered left to right, then top to bottom.
    pub fn cell(&self, coord: Coord) -> (r: Cell)
        requires
            coord <= 8,
        ensures
            r@ == cell_at(Shape::Block, self@, coord as int),
    {
        let b = self.coord();
        proof {
            lemma_cell_at(Shape::Block, b as int, coord as int);
        }
        Cell::new(((b / 3) * 27 + (b % 3) * 3 + (coord / 3) * 9 + (coord % 3)) as u32)
    }

    /// Returns the cells of this block.
    pub fn cells(&self) -> (r: CellSet)
        ensures
            r@ == house_cells(Shape::Block, self@),
    {
        house_set(Shape::Block, self.coord())
    }
}

} // verus!
