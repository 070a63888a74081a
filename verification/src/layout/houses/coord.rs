use vstd::prelude::*;

use crate::text::{is_space, sole_char, sole_char_of, string_of, string_of_char, push_str};

verus! {

/// Identifies a row, column, or block or a cell in a house.
#[derive(Clone, Copy, Debug, Default, Hash, PartialEq, Eq, Structural, PartialOrd, Ord)]
pub struct Coord(u8);

/// Errors that can occur when parsing a coordinate label.
#[derive(Debug, Clone, PartialEq, Eq)]
pub enum CoordError {
    InvalidValue(String),
}

impl CoordError {
    /// The message that describes this error.
    pub fn to_string(&self) -> (r: String)
        ensures
            self matches CoordError::InvalidValue(label) ==> r@ == "invalid coord '"@ + label@
                + "'"@,
    {
        match self {
            CoordError::InvalidValue(label) => {
                let mut s = string_of("invalid coord '");
                push_str(&mut s, label.as_str());
                push_str(&mut s, "'");
                s
            },
        }
    }
}

/// `c` labels a coordinate: a digit from '1', or a row letter from 'A' (or 'a') skipping 'I'.
pub open spec fn is_coord_label(c: char) -> bool {
    ('1' <= c <= '9') || ('A' <= c <= 'H') || ('a' <= c <= 'h') || c == 'J' || c == 'j'
}

/// The zero-based coordinate that the label `c` stands for.
pub open spec fn coord_of_label(c: char) -> int {
    if '1' <= c <= '9' {
        c as int - 49
    } else if 'A' <= c <= 'H' {
        c as int - 65
    } else if 'a' <= c <= 'h' {
        c as int - 97
    } else {
        8
    }
}

/// The row letter of the coordinate `i`: 'A' to 'H', then 'J'.
pub open spec fn row_letter(i: int) -> char {
    if i < 8 {
        (65 + i) as char
    } else {
        'J'
    }
}

impl Coord {
    pub const COUNT: u8 = 9;

    #[verifier::type_invariant]
    spec fn inv(self) -> bool {
        self.0 < 9
    }

    /// The zero-based coordinate.
    pub closed spec fn view(&self) -> int {
        self.0 as int
    }

    /// Coordinates are equal exactly when their views are.
    pub proof fn lemma_view_eq(a: Coord, b: Coord)
        ensures
            (a == b) == (a@ == b@),
    {
    }

    /// Returns the coordinate `index`.
    pub fn new(index: u8) -> (r: Self)
        requires
            index < 9,
        ensures
            r@ == index,
    {
        Coord(index)
    }

    /// Returns the coordinate with the one-based `digit`.
    pub fn from_ordinal(digit: u8) -> (r: Self)
        requires
            1 <= digit <= 9,
        ensures
            r@ == digit - 1,
    {
        Coord(digit - 1)
    }

    /// Returns the coordinate `coord`, as `Coord::from` does.
    pub fn from(coord: u8) -> (r: Self)
        requires
            coord < 9,
        ensures
            r@ == coord,
    {
        Self::new(coord)
    }

    /// Returns the zero-based coordinate.
    pub fn u8(&self) -> (r: u8)
        ensures
            r == self@,
            r < 9,
    {
        proof {
            use_type_invariant(self);
        }
        self.0
    }

    /// Returns the zero-based coordinate.
    pub fn usize(&self) -> (r: usize)
        ensures
            r == self@,
            r < 9,
    {
        proof {
            use_type_invariant(self);
        }
        self.0 as usize
    }

    /// Returns the bit that stands for this coordinate in a set.
    pub fn bit(&self) -> (r: u16)
        ensures
            r as u128 == 1u128 << (self@ as u128),
            r == 1u16 << (self@ as u16),
            0 <= self@ < 9,
    {
        proof {
            use_type_invariant(self);
            crate::bits::lemma_widen16();
        }
        1u16 << self.0
    }

    /// Returns the label '1' to '9'.
    pub fn label(&self) -> (c: char)
        ensures
            c == (49 + self@) as char,
    {
        proof {
            use_type_invariant(self);
        }
        (49u8 + self.0) as char
    }

    /// Returns the row label 'A' to 'H', then 'J'.
    pub fn row_label(&self) -> (c: char)
        ensures
            c == row_letter(self@),
    {
        proof {
            use_type_invariant(self);
        }
        if self.0 < 8 {
            (65u8 + self.0) as char
        } else {
            'J'
        }
    }

    /// Returns the lesser of the two coordinates.
    pub fn min(self, other: Self) -> (r: Self)
        ensures
            r == (if self@ <= other@ {
                self
            } else {
                other
            }),
    {
        if self.0 <= other.0 {
            self
        } else {
            other
        }
    }

    /// Returns the greater of the two coordinates.
    pub fn max(self, other: Self) -> (r: Self)
        ensures
            r == (if self@ >= other@ {
                self
            } else {
                other
            }),
    {
        if self.0 >= other.0 {
            self
        } else {
            other
        }
    }

    /// Returns the label of this coordinate as text.
    pub fn to_string(&self) -> (r: String)
        ensures
            r@ == seq![(49 + self@) as char],
    {
        string_of_char(self.label())
    }

    /// Returns the coordinate labelled `label`.
    pub fn try_from(label: char) -> (r: Result<Self, CoordError>)
        ensures
            is_coord_label(label) ==> (r matches Ok(d) && d@ == coord_of_label(label)),
            !is_coord_label(label) ==> (r matches Err(CoordError::InvalidValue(s)) && s@ == seq![label]),
    {
        if '1' <= label && label <= '9' {
            Ok(Coord(((label as u32) - 49) as u8))
        } else if 'A' <= label && label <= 'H' {
            Ok(Coord(((label as u32) - 65) as u8))
        } else if 'a' <= label && label <= 'h' {
            Ok(Coord(((label as u32) - 97) as u8))
        } else if label == 'J' || label == 'j' {
            Ok(Coord(8))
        } else {
            Err(CoordError::InvalidValue(string_of_char(label)))
        }
    }

    /// Returns the coordinate labelled by `label` after trimming white space.
    pub fn from_str(label: &str) -> (r: Result<Self, CoordError>)
        ensures
            (exists|c: char| sole_char_of(label@, c) && is_coord_label(c)) <==> r is Ok,
            r matches Ok(d) ==> exists|c: char| sole_char_of(label@, c) && coord_of_label(c) == d@,
            r matches Err(CoordError::InvalidValue(s)) ==> s@ == label@,
    {
        match sole_char(label) {
            Some(c) => {
                match Coord::try_from(c) {
                    Ok(coord) => {
                        assert(sole_char_of(label@, c) && is_coord_label(c));
                        return Ok(coord);
                    },
                    Err(_) => {},
                }
                proof {
                    assert forall|d: char| sole_char_of(label@, d) implies d == c by {
                        let k = choose|k: int|
                            0 <= k < label@.len() && label@[k] == d && !is_space(d) && forall|j: int|
                                0 <= j < label@.len() && j != k ==> is_space(#[trigger] label@[j]);
                        let m = choose|m: int|
                            0 <= m < label@.len() && label@[m] == c && !is_space(c) && forall|j: int|
                                0 <= j < label@.len() && j != m ==> is_space(#[trigger] label@[j]);
                        if k != m {
                            assert(is_space(label@[m]));
                        }
                    }
                }
                Err(CoordError::InvalidValue(string_of(label)))
            },
            None => Err(CoordError::InvalidValue(string_of(label))),
        }
    }
}

} // verus!
