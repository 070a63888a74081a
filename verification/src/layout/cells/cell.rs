use vstd::prelude::*;

use crate::layout::cells::bit::Bit;
use crate::layout::cells::cell_set::CellSet;
use crate::layout::houses::coord::{coord_of_label, is_coord_label, row_letter, Coord};
use crate::layout::houses::house::House;
use crate::layout::houses::shape::{
    block_of, cell_at, column_of, coord_in, house_of, lemma_cell_at, lemma_house_of, peers_of,
    row_of, Shape,
};
use crate::text::{
    byte_len, lemma_byte_len_bounds, push_char, push_str, string_of, trimmed, utf8_byte_len,
};

verus! {

/// Specifies a single cell by its index from left to right and top to bottom.
#[derive(Clone, Copy, Debug, Default, Hash, PartialEq, Eq, Structural, PartialOrd, Ord)]
pub struct Cell(u8);

/// Errors that can occur when parsing a cell label.
#[derive(Debug, Clone, PartialEq, Eq)]
pub enum CellError {
    WrongLength(String),
    InvalidRow { label: String, row: char },
    InvalidColumn { label: String, column: char },
}

/// The label of cell `c`: its row letter and its column digit.
pub open spec fn cell_label(c: int) -> Seq<char> {
    seq![row_letter(row_of(c)), (49 + column_of(c)) as char]
}

/// `t` is two characters of one byte each, as a cell label must be.
pub open spec fn two_bytes_two_chars(t: Seq<char>) -> bool {
    byte_len(t) == 2 && t.len() == 2
}

/// `t` is a single character that takes two bytes: its length in bytes is
/// that of a label, but it holds no second character.
pub open spec fn one_wide_char(t: Seq<char>) -> bool {
    byte_len(t) == 2 && t.len() == 1
}

/// `r` is what parsing `label` as a cell gives: a row letter and a column
/// digit after trimming white space, or the error that says which is wrong.
/// The length is counted in bytes.
pub open spec fn cell_parsed(label: Seq<char>, r: Result<Cell, CellError>) -> bool {
    let t = trimmed(label);
    &&& (two_bytes_two_chars(t) && is_coord_label(t[0]) && is_coord_label(t[1])) <==> r is Ok
    &&& r matches Ok(c) ==> c@ == coord_of_label(t[0]) * 9 + coord_of_label(t[1])
    &&& !two_bytes_two_chars(t) ==> (r matches Err(CellError::WrongLength(l)) && l@ == t)
    &&& two_bytes_two_chars(t) && !is_coord_label(t[0]) ==> (r matches Err(
        CellError::InvalidRow { label: l, row },
    ) && l@ == t && row == t[0])
    &&& two_bytes_two_chars(t) && is_coord_label(t[0]) && !is_coord_label(t[1]) ==> (r matches Err(
        CellError::InvalidColumn { label: l, column },
    ) && l@ == t && column == t[1])
}

impl CellError {
    /// The message that describes this error, as text.
    pub open spec fn message(&self) -> Seq<char> {
        match self {
            CellError::WrongLength(label) => "wrong length "@ + crate::io::numbers::decimal(
                byte_len(label@),
            ) + " for cell \""@ + label@ + "\""@,
            CellError::InvalidRow { label, row } => "invalid row '"@ + seq![*row]
                + "' for cell \""@ + label@ + "\""@,
            CellError::InvalidColumn { label, column } => "invalid column '"@ + seq![*column]
                + "' for cell \""@ + label@ + "\""@,
        }
    }

    /// The message that describes this error.
    pub fn to_string(&self) -> (r: String)
        requires
            self matches CellError::WrongLength(label) ==> byte_len(label@) <= usize::MAX,
        ensures
            r@ == self.message(),
            self matches CellError::InvalidRow { label, row } ==> r@ == "invalid row '"@ + seq![*row] + "' for cell \""@ + label@ + "\""@,
            self matches CellError::InvalidColumn { label, column } ==> r@ == "invalid column '"@ + seq![*column] + "' for cell \""@ + label@ + "\""@,
            self matches CellError::WrongLength(label) ==> r@ == "wrong length "@ + crate::io::numbers::decimal(byte_len(label@)) + " for cell \""@ + label@ + "\""@,
    {
        match self {
            CellError::WrongLength(label) => {
                let mut s = string_of("wrong length ");
                let n = crate::io::numbers::decimal_string(utf8_byte_len(label.as_str()) as u128);
                push_str(&mut s, n.as_str());
                push_str(&mut s, " for cell \"");
                push_str(&mut s, label.as_str());
                push_str(&mut s, "\"");
                s
            },
            CellError::InvalidRow { label, row } => {
                let mut s = string_of("invalid row '");
                push_char(&mut s, *row);
                push_str(&mut s, "' for cell \"");
                push_str(&mut s, label.as_str());
                push_str(&mut s, "\"");
                s
            },
            CellError::InvalidColumn { label, column } => {
                let mut s = string_of("invalid column '");
                push_char(&mut s, *column);
                push_str(&mut s, "' for cell \"");
                push_str(&mut s, label.as_str());
                push_str(&mut s, "\"");
                s
            },
        }
    }
}

impl Cell {
    pub const COUNT: u8 = 81;

    #[verifier::type_invariant]
    spec fn inv(self) -> bool {
        self.0 < 81
    }

    /// The index of this cell from left to right and top to bottom.
    pub closed spec fn view(&self) -> int {
        self.0 as int
    }

    /// Cells are equal exactly when their views are.
    pub proof fn lemma_view_eq(a: Cell, b: Cell)
        ensures
            (a == b) == (a@ == b@),
    {
    }

    /// Returns an iterator over all cells in order.
    pub fn iter() -> (r: CellIter)
        ensures
            r@ == 0,
    {
        CellIter::new()
    }

    /// Returns the cell with `index`.
    pub fn new(index: u8) -> (r: Self)
        requires
            index < 81,
        ensures
            r@ == index,
    {
        Cell(index)
    }

    /// Returns the cell in `row` and `column`.
    pub fn from_coords(row: Coord, column: Coord) -> (r: Self)
        ensures
            r@ == row@ * 9 + column@,
            row_of(r@) == row@,
            column_of(r@) == column@,
    {
        let r = row.u8();
        let c = column.u8();
        Cell(r * 9 + c)
    }

    /// Returns the cell where `row` and `column` cross.
    pub fn from_row_column(row: House, column: House) -> (r: Self)
        ensures
            r@ == row@.1 * 9 + column@.1,
    {
        Self::from_coords(row.coord(), column.coord())
    }

    /// Returns the index of this cell.
    pub fn index(&self) -> (r: u8)
        ensures
            r == self@,
            r < 81,
    {
        proof {
            use_type_invariant(self);
        }
        self.0
    }

    /// Returns the index of this cell.
    pub fn usize(&self) -> (r: usize)
        ensures
            r == self@,
            r < 81,
    {
        proof {
            use_type_invariant(self);
        }
        self.0 as usize
    }

    /// Returns the bit standing for this cell in a set.
    pub fn bit(&self) -> (r: Bit)
        ensures
            r@ == self@,
            r.bit_spec() == 1u128 << (self@ as u128),
    {
        proof {
            use_type_invariant(self);
        }
        Bit::of_index(self.0)
    }

    /// Returns the row, column and block holding this cell.
    pub fn houses(&self) -> (r: [House; 3])
        ensures
            r@[0]@ == (Shape::Row, row_of(self@)),
            r@[1]@ == (Shape::Column, column_of(self@)),
            r@[2]@ == (Shape::Block, block_of(self@)),
    {
        [self.row(), self.column(), self.block()]
    }

    /// Returns the house of `shape` holding this cell.
    pub fn house(&self, shape: Shape) -> (r: House)
        ensures
            r@ == (shape, house_of(shape, self@)),
    {
        match shape {
            Shape::Row => self.row(),
            Shape::Column => self.column(),
            Shape::Block => self.block(),
        }
    }

    /// Returns the row holding this cell.
    pub fn row(&self) -> (r: House)
        ensures
            r@ == (Shape::Row, row_of(self@)),
    {
        House::row(self.row_coord())
    }

    /// Returns the coordinate of the row holding this cell.
    pub fn row_coord(&self) -> (r: Coord)
        ensures
            r@ == row_of(self@),
    {
        proof {
            use_type_invariant(self);
        }
        Coord::new(self.0 / 9)
    }

    /// Returns the column holding this cell.
    pub fn column(&self) -> (r: House)
        ensures
            r@ == (Shape::Column, column_of(self@)),
    {
        House::column(self.column_coord())
    }

    /// Returns the coordinate of the column holding this cell.
    pub fn column_coord(&self) -> (r: Coord)
        ensures
            r@ == column_of(self@),
    {
        Coord::new(self.0 % 9)
    }

    /// Returns the block holding this cell.
    pub fn block(&self) -> (r: House)
        ensures
            r@ == (Shape::Block, block_of(self@)),
    {
        House::block(self.block_coord())
    }

    /// Returns the coordinate of the block holding this cell.
    pub fn block_coord(&self) -> (r: Coord)
        ensures
            r@ == block_of(self@),
    {
        proof {
            use_type_invariant(self);
            lemma_house_of(Shape::Block, self@);
            let x = self.0;
            assert(x / 9 / 3 == x / 27 && (x / 9 / 3) * 3 + x % 9 / 3 < 9) by (bit_vector)
                requires
                    x < 81,
            ;
        }
        Coord::new((self.0 / 9 / 3) * 3 + (self.0 % 9 / 3))
    }

    /// Returns the coordinate of this cell within its row.
    pub fn coord_in_row(&self) -> (r: Coord)
        ensures
            r@ == coord_in(Shape::Row, self@),
    {
        self.column_coord()
    }

    /// Returns the coordinate of this cell within its column.
    pub fn coord_in_column(&self) -> (r: Coord)
        ensures
            r@ == coord_in(Shape::Column, self@),
    {
        self.row_coord()
    }

    /// Returns the coordinate of this cell within its block.
    pub fn coord_in_block(&self) -> (r: Coord)
        ensures
            r@ == coord_in(Shape::Block, self@),
    {
        proof {
            use_type_invariant(self);
            lemma_house_of(Shape::Block, self@);
        }
        Coord::new(3 * ((self.0 / 9) % 3) + (self.0 % 3))
    }

    /// Returns the row or column shared with `peer`, preferring the row.
    pub fn common_row_or_column(&self, peer: Cell) -> (r: Option<House>)
        ensures
            row_of(self@) == row_of(peer@) ==> (r matches Some(h) && h@ == (Shape::Row, row_of(self@))),
            row_of(self@) != row_of(peer@) && column_of(self@) == column_of(peer@) ==> (r matches Some(h) && h@ == (Shape::Column, column_of(self@))),
            row_of(self@) != row_of(peer@) && column_of(self@) != column_of(peer@) ==> r is None,
    {
        let row = self.row();
        let peer_row = peer.row();
        proof {
            House::lemma_view_eq(row, peer_row);
        }
        if row == peer_row {
            Some(row)
        } else {
            let column = self.column();
            let peer_column = peer.column();
            proof {
                House::lemma_view_eq(column, peer_column);
            }
            if column == peer_column {
                Some(column)
            } else {
                None
            }
        }
    }

    /// Returns the houses of this cell, in row, column, block order, that also hold `peer`.
    pub fn common_houses(&self, peer: Cell) -> (r: Vec<House>)
        ensures
            r@.map_values(|h: House| h@) == common_house_views(self@, peer@),
    {
        let mut v: Vec<House> = Vec::new();
        let houses = self.houses();
        let ghost all = seq![
            (Shape::Row, row_of(self@)),
            (Shape::Column, column_of(self@)),
            (Shape::Block, block_of(self@)),
        ];
        let ghost p = |h: (Shape, int)| house_of(h.0, peer@) == h.1;
        let mut i: usize = 0;
        proof {
            assert(all.subrange(0, 0).filter(p) =~= Seq::<(Shape, int)>::empty()) by {
                reveal(Seq::filter);
            }
        }
        while i < 3
            invariant
                0 <= i <= 3,
                forall|k: int| 0 <= k < 3 ==> #[trigger] houses@[k]@ == all[k],
                all.len() == 3,
                p == (|h: (Shape, int)| house_of(h.0, peer@) == h.1),
                v@.map_values(|h: House| h@) == all.subrange(0, i as int).filter(p),
            decreases 3 - i,
        {
            let house = houses[i];
            let ghost before = v@;
            proof {
                crate::text::lemma_filter_prefix(all, i as int, p);
            }
            if house.has(peer) {
                v.push(house);
                proof {
                    assert(v@.map_values(|h: House| h@) =~= before.map_values(|h: House| h@).push(house@));
                }
            }
            i = i + 1;
        }
        proof {
            assert(all.subrange(0, 3) =~= all);
        }
        v
    }

    /// Returns the cells sharing a row, column or block with this one.
    pub fn peers(&self) -> (r: CellSet)
        ensures
            r@ == peers_of(self@),
    {
        let all = self.row().cells().union(self.column().cells()).union(self.block().cells());
        let r = all.without(*self);
        proof {
            use_type_invariant(self);
            assert(r@ =~= peers_of(self@));
        }
        r
    }

    /// Returns true if `other` shares a row, column or block with this cell.
    pub fn sees(&self, other: Cell) -> (r: bool)
        ensures
            r == peers_of(self@).contains(other@),
    {
        self.peers().has(other)
    }

    /// Returns the lower of the two cells.
    pub fn min(self, other: Cell) -> (r: Cell)
        ensures
            r == (if self@ <= other@ {
                self
            } else {
                other
            }),
    {
        if self.0 <= other.0 {
            self
        } else {
            other
        }
    }

    /// Returns the higher of the two cells.
    pub fn max(self, other: Cell) -> (r: Cell)
        ensures
            r == (if self@ >= other@ {
                self
            } else {
                other
            }),
    {
        if self.0 >= other.0 {
            self
        } else {
            other
        }
    }

    /// Returns the label of this cell, such as "A1".
    pub fn label(&self) -> (r: String)
        ensures
            r@ == cell_label(self@),
    {
        let mut s = String::new();
        push_char(&mut s, self.row_coord().row_label());
        push_char(&mut s, self.column_coord().label());
        proof {
            assert(s@ =~= cell_label(self@));
        }
        s
    }

    /// Returns the labels of `cells` inside parentheses.
    pub fn labels(cells: &Vec<Cell>) -> (r: String)
        ensures
            r@ == labels_spec(cells@),
    {
        let mut s = String::new();
        push_char(&mut s, '(');
        let mut i: usize = 0;
        while i < cells.len()
            invariant
                i <= cells@.len(),
                s@ == seq!['('] + labels_body(cells@.subrange(0, i as int)),
            decreases cells@.len() - i,
        {
            push_char(&mut s, ' ');
            let label = cells[i].label();
            push_str(&mut s, label.as_str());
            proof {
                let pre = cells@.subrange(0, i as int);
                assert(cells@.subrange(0, i + 1).drop_last() =~= pre);
                assert(s@ =~= seq!['('] + labels_body(cells@.subrange(0, i + 1)));
            }
            i = i + 1;
        }
        push_char(&mut s, ' ');
        push_char(&mut s, ')');
        proof {
            assert(cells@.subrange(0, cells@.len() as int) =~= cells@);
            assert(s@ =~= labels_spec(cells@));
        }
        s
    }

    /// Returns the cell labelled `label`, a row letter and a column digit, after trimming spaces.
    pub fn try_from(label: &str) -> (r: Result<Self, CellError>)
        requires
            !one_wide_char(trimmed(label@)),
        ensures
            cell_parsed(label@, r),
    {
        let trimmed = crate::text::trim(label);
        let n = trimmed.unicode_len();
        proof {
            lemma_byte_len_bounds(trimmed@);
        }
        if n > 2 || utf8_byte_len(trimmed) != 2 {
            return Err(CellError::WrongLength(string_of(trimmed)));
        }
        let row_char = trimmed.get_char(0);
        let col_char = trimmed.get_char(1);
        let row = match Coord::try_from(row_char) {
            Ok(row) => row,
            Err(_) => {
                return Err(CellError::InvalidRow { label: string_of(trimmed), row: row_char });
            },
        };
        let col = match Coord::try_from(col_char) {
            Ok(col) => col,
            Err(_) => {
                return Err(
                    CellError::InvalidColumn { label: string_of(trimmed), column: col_char },
                );
            },
        };
        Ok(Self::from_coords(row, col))
    }
}

/// The houses of cell `c`, in row, column, block order, that also hold `p`.
pub open spec fn common_house_views(c: int, p: int) -> Seq<(Shape, int)> {
    seq![(Shape::Row, row_of(c)), (Shape::Column, column_of(c)), (Shape::Block, block_of(c))].filter(
        |h: (Shape, int)| house_of(h.0, p) == h.1,
    )
}

/// The labels of `cells`, each after a space.
pub open spec fn labels_body(cells: Seq<Cell>) -> Seq<char>
    decreases cells.len(),
{
    if cells.len() == 0 {
        Seq::empty()
    } else {
        labels_body(cells.drop_last()) + seq![' '] + cell_label(cells.last()@)
    }
}

/// The labels of `cells` inside parentheses.
pub open spec fn labels_spec(cells: Seq<Cell>) -> Seq<char> {
    seq!['('] + labels_body(cells) + seq![' ', ')']
}

/// Iterates over all cells in order.
pub struct CellIter(u8);

impl CellIter {
    #[verifier::type_invariant]
    spec fn inv(self) -> bool {
        self.0 <= 81
    }

    /// The index of the next cell to return, or 81 when done.
    pub closed spec fn view(&self) -> int {
        self.0 as int
    }

    /// Returns an iterator positioned at the first cell.
    pub fn new() -> (r: Self)
        ensures
            r@ == 0,
    {
        CellIter(0)
    }

    /// Returns the next cell, if any.
    pub fn next(&mut self) -> (r: Option<Cell>)
        ensures
            old(self)@ < 81 ==> (r matches Some(c) && c@ == old(self)@ && final(self)@ == old(self)@ + 1),
            old(self)@ >= 81 ==> r is None && final(self)@ == old(self)@,
            0 <= final(self)@ <= 81,
    {
        proof {
            use_type_invariant(&*self);
        }
        if self.0 < 81 {
            let cell = Cell::new(self.0);
            self.0 = self.0 + 1;
            Some(cell)
        } else {
            None
        }
    }

    /// Returns the number of cells left.
    pub fn len(&self) -> (r: usize)
        ensures
            r == 81 - self@,
    {
        proof {
            use_type_invariant(self);
        }
        81 - self.0 as usize
    }
}

} // verus!
