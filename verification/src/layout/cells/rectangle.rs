//! Rectangles of four cells on two rows and two columns.
use vstd::prelude::*;

use crate::layout::cells::cell::{cell_label, Cell};
use crate::layout::cells::cell_set::{houses_of, CellSet};
use crate::layout::houses::coord::Coord;
use crate::layout::houses::house::House;
use crate::layout::houses::shape::{
    block_of, cell_at, column_of, lemma_cell_at, row_of, Shape,
};
use crate::text::{push_char, push_str, string_of};

verus! {

/// A rectangle of four cells.
#[derive(Clone, Copy, Debug, PartialEq, Eq, Structural)]
pub struct Rectangle {
    pub top_left: Cell,
    pub top_right: Cell,
    pub bottom_left: Cell,
    pub bottom_right: Cell,
    pub cells: CellSet,
    pub block_count: usize,
}

/// The number of blocks touched by the rectangle with corners `tl` and `br`: one when they
/// share a block, two when their blocks share a band or a stack, else four.
pub open spec fn block_count_of(tl: int, br: int) -> int {
    let a = block_of(tl);
    let b = block_of(br);
    if a == b {
        1
    } else if a % 3 == b % 3 || a / 3 == b / 3 {
        2
    } else {
        4
    }
}

/// `r` is the rectangle with corners `tl` and `br`.
pub open spec fn rectangle_of(tl: int, br: int, r: Rectangle) -> bool {
    &&& r.top_left@ == tl
    &&& r.bottom_right@ == br
    &&& r.top_right@ == row_of(tl) * 9 + column_of(br)
    &&& r.bottom_left@ == row_of(br) * 9 + column_of(tl)
    &&& r.cells@ == set![tl, r.top_right@, r.bottom_left@, br]
    &&& r.block_count == block_count_of(tl, br)
}

/// The lowest of four cells.
pub open spec fn min4(a: int, b: int, c: int, d: int) -> int {
    let ab = if a <= b {
        a
    } else {
        b
    };
    let abc = if ab <= c {
        ab
    } else {
        c
    };
    if abc <= d {
        abc
    } else {
        d
    }
}

/// The highest of four cells.
pub open spec fn max4(a: int, b: int, c: int, d: int) -> int {
    let ab = if a >= b {
        a
    } else {
        b
    };
    let abc = if ab >= c {
        ab
    } else {
        c
    };
    if abc >= d {
        abc
    } else {
        d
    }
}

impl Rectangle {
    /// Returns an iterator over all rectangles whose corners lie in two blocks of one band
    /// or one stack.
    pub fn iter() -> (r: RectangleIter)
        ensures
            r@ == (0int, 0int, 0int),
    {
        RectangleIter::default()
    }

    /// Returns the rectangle with corners `top_left` and `bottom_right`.
    pub fn new(top_left: Cell, bottom_right: Cell) -> (r: Rectangle)
        ensures
            rectangle_of(top_left@, bottom_right@, r),
    {
        let top_right = Cell::from_coords(top_left.row_coord(), bottom_right.column_coord());
        let bottom_left = Cell::from_coords(bottom_right.row_coord(), top_left.column_coord());
        let cells = CellSet::of(&[top_left, top_right, bottom_left, bottom_right]);
        let tl_block = top_left.block_coord().usize();
        let br_block = bottom_right.block_coord().usize();
        let block_count = if tl_block == br_block {
            1
        } else if tl_block % 3 == br_block % 3 || tl_block / 3 == br_block / 3 {
            2
        } else {
            4
        };
        let r = Rectangle { top_left, top_right, bottom_left, bottom_right, cells, block_count };
        proof {
            let s = seq![top_left, top_right, bottom_left, bottom_right];
            assert(r.cells@ =~= set![top_left@, top_right@, bottom_left@, bottom_right@]) by {
                assert(s[0] == top_left && s[1] == top_right && s[2] == bottom_left && s[3] == bottom_right);
            }
        }
        r
    }

    /// Returns the rectangle spanned by four cells: from the lowest to the highest.
    pub fn from(c1: Cell, c2: Cell, c3: Cell, c4: Cell) -> (r: Rectangle)
        ensures
            rectangle_of(min4(c1@, c2@, c3@, c4@), max4(c1@, c2@, c3@, c4@), r),
    {
        Rectangle::new(c1.min(c2).min(c3).min(c4), c1.max(c2).max(c3).max(c4))
    }

    /// Returns a flipped copy that moves `origin` to the top-left corner, or this rectangle
    /// when `origin` is not one of its other corners.
    pub fn with_origin(self, origin: Cell) -> (r: Rectangle)
        ensures
            r.cells == self.cells,
            r.block_count == self.block_count,
            origin == self.bottom_right ==> r.top_left == self.bottom_right && r.top_right
                == self.bottom_left && r.bottom_left == self.top_right && r.bottom_right
                == self.top_left,
            origin != self.bottom_right && origin == self.top_right ==> r.top_left == self.top_right
                && r.top_right == self.top_left && r.bottom_left == self.bottom_right
                && r.bottom_right == self.bottom_left,
            origin != self.bottom_right && origin != self.top_right && origin == self.bottom_left
                ==> r.top_left == self.bottom_left && r.top_right == self.bottom_right
                && r.bottom_left == self.top_left && r.bottom_right == self.top_right,
            origin != self.bottom_right && origin != self.top_right && origin != self.bottom_left
                ==> r == self,
    {
        if origin == self.bottom_right {
            Rectangle {
                top_left: self.bottom_right,
                top_right: self.bottom_left,
                bottom_left: self.top_right,
                bottom_right: self.top_left,
                cells: self.cells,
                block_count: self.block_count,
            }
        } else if origin == self.top_right {
            Rectangle {
                top_left: self.top_right,
                top_right: self.top_left,
                bottom_left: self.bottom_right,
                bottom_right: self.bottom_left,
                cells: self.cells,
                block_count: self.block_count,
            }
        } else if origin == self.bottom_left {
            Rectangle {
                top_left: self.bottom_left,
                top_right: self.bottom_right,
                bottom_left: self.top_left,
                bottom_right: self.top_right,
                cells: self.cells,
                block_count: self.block_count,
            }
        } else {
            self
        }
    }

    /// Returns the rectangle whose corners are `cells`, which must lie on exactly two rows
    /// and two columns, or an error.
    pub fn try_from(cells: CellSet) -> (r: Result<Rectangle, ()>)
        ensures
            r is Ok <==> (2 <= cells@.len() <= 4 && houses_of(Shape::Row, cells@).len() == 2
                && houses_of(Shape::Column, cells@).len() == 2),
            r matches Ok(rect) ==> rectangle_of(rect.top_left@, rect.bottom_right@, rect) && row_of(
                rect.top_left@,
            ) < row_of(rect.bottom_right@) && column_of(rect.top_left@) < column_of(
                rect.bottom_right@,
            ) && houses_of(Shape::Row, cells@) == set![row_of(rect.top_left@), row_of(rect.bottom_right@)]
                && houses_of(Shape::Column, cells@) == set![column_of(rect.top_left@), column_of(rect.bottom_right@)],
    {
        let n = cells.len();
        if n < 2 || 4 < n {
            return Err(());
        }
        let rows = cells.rows();
        let columns = cells.columns();
        if rows.len() != 2 || columns.len() != 2 {
            return Err(());
        }
        match (rows.as_pair(), columns.as_pair()) {
            (Some((top, bottom)), Some((left, right))) => {
                let tl = Cell::from_coords(top.coord(), left.coord());
                let br = Cell::from_coords(bottom.coord(), right.coord());
                Ok(Rectangle::new(tl, br))
            },
            _ => Err(()),
        }
    }

    /// Returns the rectangle whose corners are `cells`, or an error as
    /// [`Rectangle::try_from`] decides for the set of those cells.
    pub fn try_from_cells(cells: Vec<Cell>) -> (r: Result<Rectangle, ()>)
        ensures
            ({
                let set = Set::new(|c: int| exists|i: int| 0 <= i < cells@.len() && #[trigger] cells@[i]@ == c);
                &&& r is Ok <==> (2 <= set.len() <= 4 && houses_of(Shape::Row, set).len() == 2
                    && houses_of(Shape::Column, set).len() == 2)
                &&& r matches Ok(rect) ==> rectangle_of(rect.top_left@, rect.bottom_right@, rect)
                    && houses_of(Shape::Row, set) == set![row_of(rect.top_left@), row_of(rect.bottom_right@)]
                    && houses_of(Shape::Column, set) == set![column_of(rect.top_left@), column_of(rect.bottom_right@)]
            }),
    {
        Rectangle::try_from(CellSet::of(cells.as_slice()))
    }

    /// Returns the rows and columns of this rectangle, such as "R14C27".
    pub fn to_string(&self) -> (r: String)
        ensures
            r@ == seq![
                'R',
                (49 + row_of(self.top_left@)) as char,
                (49 + row_of(self.bottom_right@)) as char,
                'C',
                (49 + column_of(self.top_left@)) as char,
                (49 + column_of(self.bottom_right@)) as char,
            ],
    {
        let mut s = String::new();
        push_char(&mut s, 'R');
        push_char(&mut s, self.top_left.row().coord().label());
        push_char(&mut s, self.bottom_right.row().coord().label());
        push_char(&mut s, 'C');
        push_char(&mut s, self.top_left.column().coord().label());
        push_char(&mut s, self.bottom_right.column().coord().label());
        proof {
            assert(s@ =~= seq![
                'R',
                (49 + row_of(self.top_left@)) as char,
                (49 + row_of(self.bottom_right@)) as char,
                'C',
                (49 + column_of(self.top_left@)) as char,
                (49 + column_of(self.bottom_right@)) as char,
            ]);
        }
        s
    }

    /// Returns the corners of this rectangle for debugging, such as "Rectangle(A1 D7)".
    pub fn debug(&self) -> (r: String)
        ensures
            r@ == "Rectangle("@ + cell_label(self.top_left@) + " "@ + cell_label(self.bottom_right@)
                + ")"@,
    {
        let mut s = string_of("Rectangle(");
        push_str(&mut s, self.top_left.label().as_str());
        push_str(&mut s, " ");
        push_str(&mut s, self.bottom_right.label().as_str());
        push_str(&mut s, ")");
        s
    }
}

/// The blocks of pair `block` among the block pairs of a band (`horiz_vert` 0) or a stack
/// (1), each block with a later one of the same band or stack.
pub open spec fn block_pair(horiz_vert: int, block: int) -> (int, int) {
    let f = if block % 3 == 2 {
        1int
    } else {
        0int
    };
    let t = if block % 3 == 0 {
        1int
    } else {
        2int
    };
    if horiz_vert == 0 {
        (3 * (block / 3) + f, 3 * (block / 3) + t)
    } else {
        (block / 3 + 3 * f, block / 3 + 3 * t)
    }
}

/// The coordinates in their blocks of the top-left and bottom-right corners of rectangle
/// `cell` between two blocks of a band (`horiz_vert` 0) or a stack (1).
pub open spec fn corner_coords(horiz_vert: int, cell: int) -> (int, int) {
    let x = cell / 9;
    let y = (cell / 3) % 3;
    let z = cell % 3;
    let lo = if y == 2 {
        if horiz_vert == 0 {
            3int
        } else {
            1int
        }
    } else {
        0int
    };
    let hi = if horiz_vert == 0 {
        if y == 0 {
            3int
        } else {
            6int
        }
    } else {
        if y == 0 {
            1int
        } else {
            2int
        }
    };
    if horiz_vert == 0 {
        (lo + x, hi + z)
    } else {
        (lo + 3 * x, hi + 3 * z)
    }
}

/// Iterates through all rectangles whose corners lie in two blocks of one band or one
/// stack: first the bands, then the stacks.
#[derive(Clone, Copy, Debug, Eq, PartialEq, Structural)]
pub struct RectangleIter {
    horiz_vert: usize,
    block: usize,
    cell: usize,
}

impl Default for RectangleIter {
    fn default() -> (r: Self)
        ensures
            r@ == (0int, 0int, 0int),
    {
        RectangleIter { horiz_vert: 0, block: 0, cell: 0 }
    }
}

impl RectangleIter {
    /// The position of this iterator: band or stack, block pair, and rectangle.
    pub closed spec fn view(&self) -> (int, int, int) {
        (self.horiz_vert as int, self.block as int, self.cell as int)
    }

    /// Returns the next rectangle.
    pub fn next(&mut self) -> (r: Option<Rectangle>)
        requires
            old(self)@.0 <= 2,
            old(self)@.1 < 9,
            old(self)@.2 < 27,
        ensures
            final(self)@.0 <= 2,
            final(self)@.1 < 9,
            final(self)@.2 < 27,
            old(self)@.0 == 2 ==> r is None && final(self)@ == old(self)@,
            old(self)@.0 < 2 ==> ({
                let (hv, b, c) = old(self)@;
                let (from, to) = block_pair(hv, b);
                let (tl, br) = corner_coords(hv, c);
                &&& r matches Some(rect) && rectangle_of(
                    cell_at(Shape::Block, from, tl),
                    cell_at(Shape::Block, to, br),
                    rect,
                )
                &&& final(self)@ == (if c + 1 < 27 {
                    (hv, b, c + 1)
                } else if b + 1 < 9 {
                    (hv, b + 1, 0)
                } else {
                    (hv + 1, 0, 0)
                })
            }),
    {
        if self.horiz_vert == 2 {
            return None;
        }
        let hv = self.horiz_vert;
        let b = self.block;
        let c = self.cell;
        let f: u8 = if b % 3 == 2 {
            1
        } else {
            0
        };
        let t: u8 = if b % 3 == 0 {
            1
        } else {
            2
        };
        let band = (b / 3) as u8;
        let (from, to) = if hv == 0 {
            (3 * band + f, 3 * band + t)
        } else {
            (band + 3 * f, band + 3 * t)
        };
        let x = (c / 9) as u8;
        let y = (c / 3) % 3;
        let z = (c % 3) as u8;
        let lo: u8 = if y == 2 {
            if hv == 0 {
                3
            } else {
                1
            }
        } else {
            0
        };
        let hi: u8 = if hv == 0 {
            if y == 0 {
                3
            } else {
                6
            }
        } else {
            if y == 0 {
                1
            } else {
                2
            }
        };
        let (tl, br) = if hv == 0 {
            (lo + x, hi + z)
        } else {
            (lo + 3 * x, hi + 3 * z)
        };
        let rect = Rectangle::new(
            House::block(Coord::new(from)).cell(Coord::new(tl)),
            House::block(Coord::new(to)).cell(Coord::new(br)),
        );
        let mut cell = c + 1;
        let mut block = b;
        let mut horiz_vert = hv;
        if cell == 27 {
            cell = 0;
            block = block + 1;
            if block == 9 {
                block = 0;
                horiz_vert = horiz_vert + 1;
            }
        }
        *self = RectangleIter { horiz_vert, block, cell };
        Some(rect)
    }
}

} // verus!
