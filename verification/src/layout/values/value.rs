use vstd::prelude::*;

use crate::layout::values::digit::Digit;

verus! {

/// The character shown for a cell without a value.
pub const MISSING: char = '·';

/// The value a label stands for: a digit '1' to '9', else none.
pub open spec fn value_of_label(c: char) -> int {
    if '1' <= c <= '9' {
        c as int - 48
    } else {
        0
    }
}

/// Holds the value stored in a cell, either unsolved or one of the nine digits.
#[derive(Clone, Copy, Default, Hash, PartialEq, Eq, Structural, PartialOrd, Ord, Debug)]
pub struct Value(u8);

impl Value {
    pub const NONE: u8 = 0;

    #[verifier::type_invariant]
    spec fn inv(self) -> bool {
        self.0 <= 9
    }

    /// 0 for an unsolved cell, else the digit 1 to 9.
    pub closed spec fn view(&self) -> int {
        self.0 as int
    }

    /// Returns the value of an unsolved cell.
    pub fn none() -> (r: Self)
        ensures
            r@ == 0,
    {
        Value(Self::NONE)
    }

    /// Returns the value `value`, 0 standing for an unsolved cell.
    pub fn new(value: u8) -> (r: Self)
        requires
            value <= 9,
        ensures
            r@ == value,
    {
        Value(value)
    }

    /// Returns true if this is the value of an unsolved cell.
    pub fn is_none(&self) -> (r: bool)
        ensures
            r == (self@ == 0),
    {
        self.0 == Self::NONE
    }

    /// Returns true if this value holds a digit.
    pub fn is_digit(&self) -> (r: bool)
        ensures
            r == (self@ != 0),
    {
        self.0 != Self::NONE
    }

    /// Returns the digit held, if any.
    pub fn digit(&self) -> (r: Option<Digit>)
        ensures
            self@ == 0 ==> r is None,
            self@ != 0 ==> (r matches Some(d) && d@ == self@ - 1),
    {
        proof {
            use_type_invariant(self);
        }
        if self.is_digit() {
            Some(Digit::from_ordinal(self.0))
        } else {
            None
        }
    }

    /// Returns 0 for an unsolved cell, else the digit.
    pub fn value(&self) -> (r: u8)
        ensures
            r == self@,
            r <= 9,
    {
        proof {
            use_type_invariant(self);
        }
        self.0
    }

    /// Returns the label: the digit, or the missing marker.
    pub fn label(&self) -> (c: char)
        ensures
            self@ == 0 ==> c == MISSING,
            self@ != 0 ==> c == (48 + self@) as char,
    {
        proof {
            use_type_invariant(self);
        }
        if self.is_none() {
            MISSING
        } else {
            (48u8 + self.0) as char
        }
    }

    /// Returns the value of `digit`.
    pub fn from_digit(digit: Digit) -> (r: Self)
        ensures
            r@ == digit@ + 1,
    {
        digit.value()
    }

    /// Returns the value `value`.
    pub fn from_u8(value: u8) -> (r: Self)
        requires
            value <= 9,
        ensures
            r@ == value,
    {
        Value::new(value)
    }

    /// Returns the value labelled `label`: a digit '1' to '9', else none.
    pub fn from_char(label: char) -> (r: Self)
        ensures
            r@ == value_of_label(label),
    {
        if !('1' <= label && label <= '9') {
            return Value::none();
        }
        Value::new(((label as u32) - 48) as u8)
    }

    /// Returns the value labelled by the first character of `label`.
    pub fn from_label(label: &str) -> (r: Self)
        requires
            label@.len() > 0,
        ensures
            r@ == value_of_label(label@[0]),
    {
        Value::from_char(label.get_char(0))
    }

    /// Returns true if this value is none, as `!value` does.
    pub fn not(self) -> (r: bool)
        ensures
            r == (self@ == 0),
    {
        self.is_none()
    }
}

} // verus!
