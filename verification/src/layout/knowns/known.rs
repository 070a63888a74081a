use vstd::prelude::*;

use crate::text::string_of_char;

verus! {

/// Specifies a single known value using its zero-based index.
#[derive(Clone, Copy, Debug, Default, Hash, PartialEq, Eq, Structural, PartialOrd, Ord)]
pub struct Known(u8);

impl Known {
    pub const UNKNOWN: u8 = 0;

    #[verifier::type_invariant]
    spec fn inv(self) -> bool {
        self.0 < 9
    }

    /// The zero-based index of this known.
    pub closed spec fn view(&self) -> int {
        self.0 as int
    }

    /// Returns the known with the one-based `value`.
    pub fn new(value: u8) -> (r: Self)
        requires
            1 <= value <= 9,
        ensures
            r@ == value - 1,
    {
        Known(value - 1)
    }

    /// Returns the zero-based index.
    pub fn usize(&self) -> (r: usize)
        ensures
            r == self@,
            r < 9,
    {
        proof {
            use_type_invariant(self);
        }
        self.0 as usize
    }

    /// Returns the bit that stands for this known in a set.
    pub fn bit(&self) -> (r: u16)
        ensures
            r == 1u16 << (self@ as u16),
            0 <= self@ < 9,
    {
        proof {
            use_type_invariant(self);
        }
        1u16 << self.0
    }

    /// Returns the one-based value.
    pub fn value(&self) -> (r: u8)
        ensures
            r == self@ + 1,
    {
        proof {
            use_type_invariant(self);
        }
        self.0 + 1
    }

    /// Returns the label "1" to "9".
    pub fn label(&self) -> (r: String)
        ensures
            r@ == seq![(49 + self@) as char],
    {
        proof {
            use_type_invariant(self);
        }
        string_of_char((49u8 + self.0) as char)
    }

    /// Returns the known with the zero-based `index`.
    pub fn from_index(index: u8) -> (r: Self)
        requires
            index < 9,
        ensures
            r@ == index,
    {
        Known(index)
    }

    /// Returns the known labelled `label`, '1' to '9'.
    pub fn from_char(label: char) -> (r: Self)
        requires
            '1' <= label <= '9',
        ensures
            r@ == label as int - 49,
    {
        Known(((label as u32) - 49) as u8)
    }

    /// Returns the known labelled by the first character of `label`.
    pub fn from_str(label: &str) -> (r: Self)
        requires
            label@.len() > 0,
            '1' <= label@[0] <= '9',
        ensures
            r@ == label@[0] as int - 49,
    {
        Known::from_char(label.get_char(0))
    }
}

} // verus!
