//! Rows, columns and blocks that keep their cells at hand.
use vstd::prelude::*;

use crate::cell_set2::{Cell, CellSet};
use crate::layout::coord::Coord;
use crate::layout::houses::shape::{self as shapes, cell_at, house_cells, lemma_cell_at};

verus! {

/// The three kinds of house.
#[derive(Copy, Clone, Debug, Eq, PartialEq, Structural, Ord, PartialOrd)]
pub enum Shape {
    Row,
    Column,
    Block,
}

impl Shape {
    /// The same shape in the board geometry.
    pub open spec fn kind(self) -> shapes::Shape {
        match self {
            Shape::Row => shapes::Shape::Row,
            Shape::Column => shapes::Shape::Column,
            Shape::Block => shapes::Shape::Block,
        }
    }

    /// Returns the nine cells of house `house` of this shape, in coordinate order.
    fn cells(&self, house: Coord) -> (r: [Cell; 9])
        ensures
            forall|i: int| 0 <= i < 9 ==> (#[trigger] r[i])@ == cell_at(self.kind(), house@, i),
    {
        let mut cells: [Cell; 9] = [Cell::new(0);9];
        let mut i: u8 = 0;
        while i < 9
            invariant
                i <= 9,
                forall|k: int| 0 <= k < i ==> (#[trigger] cells[k])@ == cell_at(self.kind(), house@, k),
            decreases 9 - i,
        {
            cells.set(i as usize, self.cell(house, Coord::new(i)));
            i = i + 1;
        }
        cells
    }

    /// Returns the cell at `coord` in house `house` of this shape.
    pub fn cell(&self, house: Coord, coord: Coord) -> (r: Cell)
        ensures
            r@ == cell_at(self.kind(), house@, coord@),
    {
        let h = house.u32();
        let k = coord.u32();
        proof {
            lemma_cell_at(self.kind(), h as int, k as int);
        }
        match self {
            Shape::Row => Cell::new(9 * h + k),
            Shape::Column => Cell::new(h + 9 * k),
            Shape::Block => Cell::new((h / 3) * 27 + (h % 3) * 3 + (k / 3) * 9 + (k % 3)),
        }
    }
}

/// A row, column or block with its cells in coordinate order and as a set.
#[derive(Copy, Clone, Debug)]
pub struct House {
    shape: Shape,
    coord: Coord,
    cells: [Cell; 9],
    set: CellSet,
}

impl House {
    #[verifier::type_invariant]
    spec fn inv(self) -> bool {
        &&& forall|i: int| 0 <= i < 9 ==> (#[trigger] self.cells[i])@ == cell_at(self.shape.kind(), self.coord@, i)
        &&& self.set@ == house_cells(self.shape.kind(), self.coord@)
    }

    /// The shape of this house.
    pub closed spec fn shape_spec(&self) -> Shape {
        self.shape
    }

    /// The coordinate of this house among those of its shape.
    pub closed spec fn coord_spec(&self) -> int {
        self.coord@
    }

    /// Returns row `coord`.
    pub fn row(coord: Coord) -> (r: Self)
        ensures
            r.shape_spec() == Shape::Row,
            r.coord_spec() == coord@,
    {
        House::new(Shape::Row, coord)
    }

    /// Returns column `coord`.
    pub fn column(coord: Coord) -> (r: Self)
        ensures
            r.shape_spec() == Shape::Column,
            r.coord_spec() == coord@,
    {
        House::new(Shape::Column, coord)
    }

    /// Returns block `coord`.
    pub fn block(coord: Coord) -> (r: Self)
        ensures
            r.shape_spec() == Shape::Block,
            r.coord_spec() == coord@,
    {
        House::new(Shape::Block, coord)
    }

    fn new(shape: Shape, coord: Coord) -> (r: Self)
        ensures
            r.shape_spec() == shape,
            r.coord_spec() == coord@,
    {
        let h = coord.u8();
        let cells = shape.cells(coord);
        let mut set = CellSet::empty();
        let mut i: usize = 0;
        while i < 9
            invariant
                i <= 9,
                h == coord@,
                h <= 8,
                forall|k: int| 0 <= k < 9 ==> (#[trigger] cells[k])@ == cell_at(shape.kind(), coord@, k),
                set@ == Set::new(|c: int| exists|k: int| 0 <= k < i && c == cell_at(shape.kind(), coord@, k)),
            decreases 9 - i,
        {
            set.add_assign(cells[i]);
            proof {
                assert(set@ =~= Set::new(|c: int| exists|k: int| 0 <= k < i + 1 && c == cell_at(shape.kind(), coord@, k)));
            }
            i = i + 1;
        }
        proof {
            assert forall|c: int| #[trigger] house_cells(shape.kind(), coord@).contains(c) implies set@.contains(c) by {
                shapes::lemma_house_of(shape.kind(), c);
            }
            assert forall|c: int| set@.contains(c) implies #[trigger] house_cells(shape.kind(), coord@).contains(c) by {
                let k = choose|k: int| 0 <= k < 9 && c == cell_at(shape.kind(), coord@, k);
                lemma_cell_at(shape.kind(), coord@, k);
            }
            assert(set@ =~= house_cells(shape.kind(), coord@));
        }
        Self { shape, coord, cells, set }
    }

    /// Returns the shape of this house.
    pub fn shape(&self) -> (r: Shape)
        ensures
            r == self.shape_spec(),
    {
        self.shape
    }

    /// Returns the coordinate of this house.
    pub fn coord(&self) -> (r: Coord)
        ensures
            r@ == self.coord_spec(),
    {
        self.coord
    }

    /// Returns the coordinate of this house.
    pub fn usize(&self) -> (r: usize)
        ensures
            r == self.coord_spec(),
    {
        self.coord.usize()
    }

    /// Returns the cell at `coord` in this house.
    pub fn cell(&self, coord: Coord) -> (r: Cell)
        ensures
            r@ == cell_at(self.shape_spec().kind(), self.coord_spec(), coord@),
    {
        proof {
            use_type_invariant(self);
        }
        self.cells[coord.usize()]
    }

    /// Returns the cells of this house.
    pub fn cells(&self) -> (r: CellSet)
        ensures
            r@ == house_cells(self.shape_spec().kind(), self.coord_spec()),
    {
        proof {
            use_type_invariant(self);
        }
        self.set
    }

    /// Returns the cells this house shares with `house`.
    pub fn intersect(&self, house: House) -> (r: CellSet)
        ensures
            r@ == house_cells(self.shape_spec().kind(), self.coord_spec()).intersect(
                house_cells(house.shape_spec().kind(), house.coord_spec()),
            ),
    {
        self.cells().bitand(house.cells())
    }
}

impl PartialEq for House {
    fn eq(&self, other: &Self) -> (r: bool) {
        proof {
            Coord::lemma_view_eq(self.coord, other.coord);
        }
        self.shape == other.shape && self.coord == other.coord
    }
}

impl vstd::std_specs::cmp::PartialEqSpecImpl for House {
    open spec fn obeys_eq_spec() -> bool {
        true
    }

    open spec fn eq_spec(&self, other: &Self) -> bool {
        self.shape_spec() == other.shape_spec() && self.coord_spec() == other.coord_spec()
    }
}

impl Eq for House {}

} // verus!
