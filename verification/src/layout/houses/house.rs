use vstd::prelude::*;

use crate::layout::cells::cell::Cell;
use crate::layout::cells::cell_set::{houses_of, CellSet};
use crate::layout::houses::coord::{Coord, CoordError};
use crate::layout::houses::house_set::{HouseSet, Iter};
use crate::layout::houses::shape::{
    cell_at, house_cells, house_of, shape_label, shape_name, Shape,
};
use crate::text::{push_char, push_str};

verus! {

/// One of the nine rows, columns, or blocks on the board.
#[derive(Clone, Copy, Debug, Default, Hash, PartialEq, Eq, Structural, PartialOrd, Ord)]
pub struct House {
    shape: Shape,
    coord: Coord,
}

/// Errors that can occur when parsing a house.
#[derive(Debug, Clone, PartialEq, Eq)]
pub enum HouseError {
    InvalidCoord { shape: Shape, error: CoordError },
}

impl HouseError {
    /// The message that describes this error.
    pub fn to_string(&self) -> (r: String)
        ensures
            self matches HouseError::InvalidCoord { shape, error: CoordError::InvalidValue(label) }
                ==> r@ == "invalid coord '"@ + label@ + "'"@ + " for "@ + shape_name(*shape),
    {
        match self {
            HouseError::InvalidCoord { shape, error } => {
                let mut s = error.to_string();
                push_str(&mut s, " for ");
                let name = shape.name();
                push_str(&mut s, name.as_str());
                s
            },
        }
    }
}

/// The console label of house `h` of `shape`.
pub open spec fn console_label_of(shape: Shape, h: int) -> char {
    match shape {
        Shape::Row => seq!['A', 'B', 'C', 'D', 'E', 'F', 'G', 'H', 'J'][h],
        Shape::Column => seq!['¹', '²', '³', '⁴', '⁵', '⁶', '⁷', '⁸', '⁹'][h],
        Shape::Block => seq!['❶', '❷', '❸', '❹', '❺', '❻', '❼', '❽', '❾'][h],
    }
}

impl House {
    /// The shape and coordinate of this house.
    pub closed spec fn view(&self) -> (Shape, int) {
        (self.shape, self.coord@)
    }

    /// Houses are equal exactly when their views are.
    pub proof fn lemma_view_eq(a: House, b: House)
        ensures
            (a == b) == (a@ == b@),
    {
        Coord::lemma_view_eq(a.coord, b.coord);
    }

    /// Returns an iterator over all rows, then all columns, then all blocks.
    pub fn iter() -> (r: HousesIter)
        ensures
            r@ == (Shape::Row, 0int),
    {
        HousesIter::new()
    }

    /// Returns the set of all rows.
    pub fn all_rows() -> (r: HouseSet)
        ensures
            r@ == (Shape::Row, vstd::set_lib::set_int_range(0, 9)),
    {
        HouseSet::full(Shape::Row)
    }

    /// Returns an iterator over the rows.
    pub fn rows_iter() -> (r: HouseIter)
        ensures
            r@ == (Shape::Row, 0int),
    {
        HouseIter::new(Shape::Row)
    }

    /// Returns the row `coord`.
    pub fn row(coord: Coord) -> (r: Self)
        ensures
            r@ == (Shape::Row, coord@),
    {
        House { shape: Shape::Row, coord }
    }

    /// Returns the set of all columns.
    pub fn all_columns() -> (r: HouseSet)
        ensures
            r@ == (Shape::Column, vstd::set_lib::set_int_range(0, 9)),
    {
        HouseSet::full(Shape::Column)
    }

    /// Returns an iterator over the columns.
    pub fn columns_iter() -> (r: HouseIter)
        ensures
            r@ == (Shape::Column, 0int),
    {
        HouseIter::new(Shape::Column)
    }

    /// Returns the column `coord`.
    pub fn column(coord: Coord) -> (r: Self)
        ensures
            r@ == (Shape::Column, coord@),
    {
        House { shape: Shape::Column, coord }
    }

    /// Returns the set of all blocks.
    pub fn all_blocks() -> (r: HouseSet)
        ensures
            r@ == (Shape::Block, vstd::set_lib::set_int_range(0, 9)),
    {
        HouseSet::full(Shape::Block)
    }

    /// Returns an iterator over the blocks.
    pub fn blocks_iter() -> (r: HouseIter)
        ensures
            r@ == (Shape::Block, 0int),
    {
        HouseIter::new(Shape::Block)
    }

    /// Returns the block `coord`.
    pub fn block(coord: Coord) -> (r: Self)
        ensures
            r@ == (Shape::Block, coord@),
    {
        House { shape: Shape::Block, coord }
    }

    /// Returns the house of `shape` at `coord`.
    pub fn new(shape: Shape, coord: Coord) -> (r: Self)
        ensures
            r@ == (shape, coord@),
    {
        House { shape, coord }
    }

    /// Returns the shape of this house.
    pub fn shape(&self) -> (r: Shape)
        ensures
            r == self@.0,
    {
        self.shape
    }

    /// Returns true if this house is a row.
    pub fn is_row(&self) -> (r: bool)
        ensures
            r == (self@.0 == Shape::Row),
    {
        self.shape.is_row()
    }

    /// Returns true if this house is a column.
    pub fn is_column(&self) -> (r: bool)
        ensures
            r == (self@.0 == Shape::Column),
    {
        self.shape.is_column()
    }

    /// Returns true if this house is a block.
    pub fn is_block(&self) -> (r: bool)
        ensures
            r == (self@.0 == Shape::Block),
    {
        self.shape.is_block()
    }

    /// Returns the coordinate of this house.
    pub fn coord(&self) -> (r: Coord)
        ensures
            r@ == self@.1,
    {
        self.coord
    }

    /// Returns the coordinate of this house.
    pub fn usize(&self) -> (r: usize)
        ensures
            r == self@.1,
            r < 9,
    {
        self.coord.usize()
    }

    /// Returns the label of this house, such as "Row 1", "Col 5" or "Box 9".
    pub fn label(&self) -> (r: String)
        ensures
            r@ == shape_label(self@.0) + seq![' ', (49 + self@.1) as char],
    {
        let mut s = self.shape.label();
        push_char(&mut s, ' ');
        push_char(&mut s, self.coord.label());
        proof {
            assert(s@ =~= shape_label(self@.0) + seq![' ', (49 + self@.1) as char]);
        }
        s
    }

    /// Returns the one-character console label of this house.
    pub fn console_label(&self) -> (r: char)
        ensures
            r == console_label_of(self@.0, self@.1),
    {
        let i = self.coord.usize();
        match self.shape {
            Shape::Row => {
                let labels = ['A', 'B', 'C', 'D', 'E', 'F', 'G', 'H', 'J'];
                proof {
                    assert(labels@ == seq!['A', 'B', 'C', 'D', 'E', 'F', 'G', 'H', 'J']);
                }
                labels[i]
            },
            Shape::Column => {
                let labels = ['¹', '²', '³', '⁴', '⁵', '⁶', '⁷', '⁸', '⁹'];
                proof {
                    assert(labels@ == seq!['¹', '²', '³', '⁴', '⁵', '⁶', '⁷', '⁸', '⁹']);
                }
                labels[i]
            },
            Shape::Block => {
                let labels = ['❶', '❷', '❸', '❹', '❺', '❻', '❼', '❽', '❾'];
                proof {
                    assert(labels@ == seq!['❶', '❷', '❸', '❹', '❺', '❻', '❼', '❽', '❾']);
                }
                labels[i]
            },
        }
    }

    /// Returns true for the top row.
    pub fn is_top(&self) -> (r: bool)
        ensures
            r == (self@.0 == Shape::Row && self@.1 == 0),
    {
        self.is_row() && self.coord.u8() == 0
    }

    /// Returns true for a row at the top of a block.
    pub fn is_block_top(&self) -> (r: bool)
        ensures
            r == (self@.0 == Shape::Row && self@.1 % 3 == 0),
    {
        self.is_row() && self.coord.u8() % 3 == 0
    }

    /// Returns true for a row at the bottom of a block.
    pub fn is_block_bottom(&self) -> (r: bool)
        ensures
            r == (self@.0 == Shape::Row && self@.1 % 3 == 2),
    {
        self.is_row() && self.coord.u8() % 3 == 2
    }

    /// Returns true for the bottom row.
    pub fn is_bottom(&self) -> (r: bool)
        ensures
            r == (self@.0 == Shape::Row && self@.1 == 8),
    {
        self.is_row() && self.coord.u8() == 8
    }

    /// Returns true for the leftmost column.
    pub fn is_left(&self) -> (r: bool)
        ensures
            r == (self@.0 == Shape::Column && self@.1 == 0),
    {
        self.is_column() && self.coord.u8() == 0
    }

    /// Returns true for a column at the left of a block.
    pub fn is_block_left(&self) -> (r: bool)
        ensures
            r == (self@.0 == Shape::Column && self@.1 % 3 == 0),
    {
        self.is_column() && self.coord.u8() % 3 == 0
    }

    /// Returns true for a column at the right of a block.
    pub fn is_block_right(&self) -> (r: bool)
        ensures
            r == (self@.0 == Shape::Column && self@.1 % 3 == 2),
    {
        self.is_column() && self.coord.u8() % 3 == 2
    }

    /// Returns true for the rightmost column.
    pub fn is_right(&self) -> (r: bool)
        ensures
            r == (self@.0 == Shape::Column && self@.1 == 8),
    {
        self.is_column() && self.coord.u8() == 8
    }

    /// Returns the cell at `coord` in this house.
    pub fn cell(&self, coord: Coord) -> (r: Cell)
        ensures
            r@ == cell_at(self@.0, self@.1, coord@),
    {
        self.shape.cell(self.coord, coord)
    }

    /// Returns the cells of this house.
    pub fn cells(&self) -> (r: CellSet)
        ensures
            r@ == house_cells(self@.0, self@.1),
    {
        self.shape.cells(self.coord)
    }

    /// Returns true if `cell` is in this house.
    pub fn has(&self, cell: Cell) -> (r: bool)
        ensures
            r == (house_of(self@.0, cell@) == self@.1),
    {
        let _ = cell.index();
        self.cells().has(cell)
    }

    /// Returns the houses of the other line shape that cross this row or column at `cells`.
    pub fn crossing_houses(&self, cells: CellSet) -> (r: HouseSet)
        requires
            self@.0 != Shape::Block,
        ensures
            self@.0 == Shape::Row ==> r@ == (Shape::Column, houses_of(Shape::Column, cells@)),
            self@.0 == Shape::Column ==> r@ == (Shape::Row, houses_of(Shape::Row, cells@)),
    {
        match self.shape {
            Shape::Row => cells.columns(),
            _ => cells.rows(),
        }
    }

    /// Returns the cells this house shares with `other`.
    pub fn intersect(&self, other: House) -> (r: CellSet)
        ensures
            r@ == house_cells(self@.0, self@.1).intersect(house_cells(other@.0, other@.1)),
    {
        self.cells().intersect(other.cells())
    }

    /// Returns the rows that cross this house.
    pub fn rows(&self) -> (r: HouseSet)
        ensures
            r@ == (Shape::Row, houses_of(Shape::Row, house_cells(self@.0, self@.1))),
    {
        self.cells().rows()
    }

    /// Returns an iterator over the rows that cross this house.
    pub fn row_iter(&self) -> (r: Iter)
        ensures
            r@ == (Shape::Row, houses_of(Shape::Row, house_cells(self@.0, self@.1))),
    {
        self.rows().iter()
    }

    /// Returns the columns that cross this house.
    pub fn columns(&self) -> (r: HouseSet)
        ensures
            r@ == (Shape::Column, houses_of(Shape::Column, house_cells(self@.0, self@.1))),
    {
        self.cells().columns()
    }

    /// Returns an iterator over the columns that cross this house.
    pub fn column_iter(&self) -> (r: Iter)
        ensures
            r@ == (Shape::Column, houses_of(Shape::Column, house_cells(self@.0, self@.1))),
    {
        self.columns().iter()
    }

    /// Returns the blocks that cross this house.
    pub fn blocks(&self) -> (r: HouseSet)
        ensures
            r@ == (Shape::Block, houses_of(Shape::Block, house_cells(self@.0, self@.1))),
    {
        self.cells().blocks()
    }

    /// Returns an iterator over the blocks that cross this house.
    pub fn block_iter(&self) -> (r: Iter)
        ensures
            r@ == (Shape::Block, houses_of(Shape::Block, house_cells(self@.0, self@.1))),
    {
        self.blocks().iter()
    }
}

/// Iterates over the nine houses of one shape.
pub struct HouseIter {
    shape: Shape,
    coord: u8,
}

impl HouseIter {
    #[verifier::type_invariant]
    spec fn inv(self) -> bool {
        self.coord <= 9
    }

    /// The shape and the coordinate of the next house, or 9 when done.
    pub closed spec fn view(&self) -> (Shape, int) {
        (self.shape, self.coord as int)
    }

    /// Returns an iterator positioned at the first house of `shape`.
    pub fn new(shape: Shape) -> (r: Self)
        ensures
            r@ == (shape, 0int),
    {
        HouseIter { shape, coord: 0 }
    }

    /// Returns the next house, if any.
    pub fn next(&mut self) -> (r: Option<House>)
        ensures
            old(self)@.1 < 9 ==> (r matches Some(h) && h@ == old(self)@ && final(self)@ == (old(self)@.0, old(self)@.1 + 1)),
            old(self)@.1 >= 9 ==> r is None && final(self)@ == old(self)@,
    {
        proof {
            use_type_invariant(&*self);
        }
        if self.coord == 9 {
            None
        } else {
            let house = House::new(self.shape, Coord::new(self.coord));
            self.coord = self.coord + 1;
            Some(house)
        }
    }

    /// Returns the number of houses left.
    pub fn len(&self) -> (r: usize)
        ensures
            r == 9 - self@.1,
    {
        proof {
            use_type_invariant(self);
        }
        9 - self.coord as usize
    }
}

/// The position of a house in the order rows, columns, blocks.
pub open spec fn house_position(shape: Shape, coord: int) -> int {
    crate::layout::houses::shape::shape_index(shape) * 9 + coord
}

/// Iterates over all rows, then all columns, then all blocks.
pub struct HousesIter {
    shape: Shape,
    coord: u8,
}

impl HousesIter {
    #[verifier::type_invariant]
    spec fn inv(self) -> bool {
        self.coord <= 9
    }

    /// The shape and the coordinate of the next house.
    pub closed spec fn view(&self) -> (Shape, int) {
        (self.shape, self.coord as int)
    }

    /// Returns an iterator positioned at the first row.
    pub fn new() -> (r: Self)
        ensures
            r@ == (Shape::Row, 0int),
    {
        HousesIter { shape: Shape::Row, coord: 0 }
    }

    /// Returns the next house, if any.
    pub fn next(&mut self) -> (r: Option<House>)
        ensures
            house_position(old(self)@.0, old(self)@.1) < 27 ==> (r matches Some(h) && house_position(
                h@.0,
                h@.1,
            ) == house_position(old(self)@.0, old(self)@.1) && house_position(final(self)@.0, final(self)@.1)
                == house_position(h@.0, h@.1) + 1),
            house_position(old(self)@.0, old(self)@.1) >= 27 ==> r is None,
    {
        proof {
            use_type_invariant(&*self);
        }
        if self.coord == 9 {
            match self.shape {
                Shape::Row => {
                    self.shape = Shape::Column;
                    self.coord = 0;
                },
                Shape::Column => {
                    self.shape = Shape::Block;
                    self.coord = 0;
                },
                Shape::Block => {
                    return None;
                },
            }
        }
        let house = House::new(self.shape, Coord::new(self.coord));
        self.coord = self.coord + 1;
        Some(house)
    }

    /// Returns the number of houses left.
    pub fn len(&self) -> (r: usize)
        ensures
            r == 27 - house_position(self@.0, self@.1),
    {
        proof {
            use_type_invariant(self);
        }
        match self.shape {
            Shape::Row => 18 + 9 - self.coord as usize,
            Shape::Column => 9 + 9 - self.coord as usize,
            Shape::Block => 9 - self.coord as usize,
        }
    }
}

} // verus!
