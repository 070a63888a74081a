use vstd::prelude::*;

use crate::layout::cells::cell::Cell;
use crate::layout::cells::cell_set::CellSet;
use crate::layout::houses::coord::Coord;
use crate::text::string_of;

verus! {

/// The three house shapes on the board.
#[derive(Clone, Copy, Debug, Default, Hash, PartialEq, Eq, Structural, PartialOrd, Ord)]
pub enum Shape {
    #[default]
    Row,
    Column,
    Block,
}

/// The row of cell `c`.
pub open spec fn row_of(c: int) -> int {
    c / 9
}

/// The column of cell `c`.
pub open spec fn column_of(c: int) -> int {
    c % 9
}

/// The block of cell `c`, numbered left to right, then top to bottom.
pub open spec fn block_of(c: int) -> int {
    (c / 27) * 3 + (c % 9) / 3
}

/// The house of `shape` holding cell `c`.
pub open spec fn house_of(shape: Shape, c: int) -> int {
    match shape {
        Shape::Row => row_of(c),
        Shape::Column => column_of(c),
        Shape::Block => block_of(c),
    }
}

/// The coordinate of cell `c` inside its house of `shape`.
pub open spec fn coord_in(shape: Shape, c: int) -> int {
    match shape {
        Shape::Row => c % 9,
        Shape::Column => c / 9,
        Shape::Block => ((c / 9) % 3) * 3 + c % 3,
    }
}

/// The cell at coordinate `k` of house `h` of `shape`.
pub open spec fn cell_at(shape: Shape, h: int, k: int) -> int {
    match shape {
        Shape::Row => 9 * h + k,
        Shape::Column => h + 9 * k,
        Shape::Block => (h / 3) * 27 + (h % 3) * 3 + (k / 3) * 9 + k % 3,
    }
}

/// The cells of house `h` of `shape`.
pub open spec fn house_cells(shape: Shape, h: int) -> Set<int> {
    Set::new(|c: int| 0 <= c < 81 && house_of(shape, c) == h)
}

/// The cells that share a row, column or block with `c`, without `c` itself.
pub open spec fn peers_of(c: int) -> Set<int> {
    Set::new(
        |d: int|
            0 <= d < 81 && d != c && (row_of(d) == row_of(c) || column_of(d) == column_of(c)
                || block_of(d) == block_of(c)),
    )
}

proof fn lemma_block_cell(h: u32, k: u32)
    by (bit_vector)
    requires
        h < 9,
        k < 9,
    ensures
        ({
            let c = (h / 3) * 27 + (h % 3) * 3 + (k / 3) * 9 + k % 3;
            &&& c < 81
            &&& (c / 27) * 3 + (c % 9) / 3 == h
            &&& ((c / 9) % 3) * 3 + c % 3 == k
        }),
{
}

/// Houses and coordinates address the cells one to one.
pub proof fn lemma_cell_at(shape: Shape, h: int, k: int)
    requires
        0 <= h < 9,
        0 <= k < 9,
    ensures
        0 <= cell_at(shape, h, k) < 81,
        house_of(shape, cell_at(shape, h, k)) == h,
        coord_in(shape, cell_at(shape, h, k)) == k,
{
    if shape == Shape::Block {
        lemma_block_cell(h as u32, k as u32);
    }
}

/// Every cell lies at its coordinate in its house.
pub proof fn lemma_house_of(shape: Shape, c: int)
    requires
        0 <= c < 81,
    ensures
        0 <= house_of(shape, c) < 9,
        0 <= coord_in(shape, c) < 9,
        cell_at(shape, house_of(shape, c), coord_in(shape, c)) == c,
{
}


/// The index of `shape`: 0 for rows, 1 for columns, 2 for blocks.
pub open spec fn shape_index(shape: Shape) -> int {
    match shape {
        Shape::Row => 0,
        Shape::Column => 1,
        Shape::Block => 2,
    }
}

impl Shape {
    /// Returns the index of this shape: 0 for rows, 1 for columns, 2 for blocks.
    pub fn usize(&self) -> (r: usize)
        ensures
            r == shape_index(*self),
    {
        match self {
            Shape::Row => 0,
            Shape::Column => 1,
            Shape::Block => 2,
        }
    }

    /// Returns true for rows.
    pub fn is_row(&self) -> (r: bool)
        ensures
            r == (*self == Shape::Row),
    {
        match self {
            Shape::Row => true,
            _ => false,
        }
    }

    /// Returns true for columns.
    pub fn is_column(&self) -> (r: bool)
        ensures
            r == (*self == Shape::Column),
    {
        match self {
            Shape::Column => true,
            _ => false,
        }
    }

    /// Returns true for blocks.
    pub fn is_block(&self) -> (r: bool)
        ensures
            r == (*self == Shape::Block),
    {
        match self {
            Shape::Block => true,
            _ => false,
        }
    }

    /// Returns the short label used for houses of this shape: "Row", "Col" or "Box".
    pub fn label(&self) -> (r: String)
        ensures
            r@ == shape_label(*self),
    {
        proof {
            reveal_strlit("Row");
            reveal_strlit("Col");
            reveal_strlit("Box");
        }
        match self {
            Shape::Row => string_of("Row"),
            Shape::Column => string_of("Col"),
            Shape::Block => string_of("Box"),
        }
    }

    /// Returns the name of this shape: "row", "column" or "block".
    pub fn name(&self) -> (r: String)
        ensures
            r@ == shape_name(*self),
    {
        proof {
            reveal_strlit("row");
            reveal_strlit("column");
            reveal_strlit("block");
        }
        match self {
            Shape::Row => string_of("row"),
            Shape::Column => string_of("column"),
            Shape::Block => string_of("block"),
        }
    }

    /// Returns the cell at `coord` in house `house` of this shape.
    pub fn cell(&self, house: Coord, coord: Coord) -> (r: Cell)
        ensures
            r@ == cell_at(*self, house@, coord@),
    {
        let h = house.u8();
        let k = coord.u8();
        proof {
            lemma_cell_at(*self, h as int, k as int);
        }
        match self {
            Shape::Row => Cell::new(9 * h + k),
            Shape::Column => Cell::new(h + 9 * k),
            Shape::Block => Cell::new((h / 3) * 27 + (h % 3) * 3 + (k / 3) * 9 + k % 3),
        }
    }

    /// Returns the cells of house `house` of this shape.
    pub fn cells(&self, house: Coord) -> (r: CellSet)
        ensures
            r@ == house_cells(*self, house@),
    {
        let mut set = CellSet::empty();
        let mut k: u8 = 0;
        let h = house.u8();
        while k < 9
            invariant
                k <= 9,
                h == house@,
                0 <= h < 9,
                set@ == Set::new(
                    |c: int| 0 <= c < 81 && house_of(*self, c) == h && coord_in(*self, c) < k,
                ),
            decreases 9 - k,
        {
            let cell = self.cell(house, Coord::new(k));
            let ghost before = set@;
            set.add(cell);
            proof {
                lemma_cell_at(*self, h as int, k as int);
                assert(set@ =~= Set::new(
                    |c: int| 0 <= c < 81 && house_of(*self, c) == h && coord_in(*self, c) < k + 1,
                )) by {
                    assert forall|c: int| 0 <= c < 81 && house_of(*self, c) == h && coord_in(*self, c) == k implies c == cell@ by {
                        lemma_house_of(*self, c);
                    }
                }
            }
            k = k + 1;
        }
        proof {
            assert forall|c: int| 0 <= c < 81 implies coord_in(*self, c) < 9 by {
                lemma_house_of(*self, c);
            }
            assert(set@ =~= house_cells(*self, house@));
        }
        set
    }

    /// Returns the cells of house `house` of this shape, in coordinate order.
    pub fn cell_list(&self, house: Coord) -> (r: [Cell; 9])
        ensures
            forall|k: int| 0 <= k < 9 ==> #[trigger] r@[k]@ == cell_at(*self, house@, k),
    {
        let mut cells = [Cell::new(0); 9];
        let mut k: u8 = 0;
        while k < 9
            invariant
                k <= 9,
                forall|j: int| 0 <= j < k ==> #[trigger] cells@[j]@ == cell_at(*self, house@, j),
            decreases 9 - k,
        {
            cells.set(k as usize, self.cell(house, Coord::new(k)));
            k = k + 1;
        }
        cells
    }
}

/// The short label of houses of `shape`.
pub open spec fn shape_label(shape: Shape) -> Seq<char> {
    match shape {
        Shape::Row => seq!['R', 'o', 'w'],
        Shape::Column => seq!['C', 'o', 'l'],
        Shape::Block => seq!['B', 'o', 'x'],
    }
}

/// The name of `shape`.
pub open spec fn shape_name(shape: Shape) -> Seq<char> {
    match shape {
        Shape::Row => seq!['r', 'o', 'w'],
        Shape::Column => seq!['c', 'o', 'l', 'u', 'm', 'n'],
        Shape::Block => seq!['b', 'l', 'o', 'c', 'k'],
    }
}

} // verus!
