use vstd::prelude::*;

use crate::layout::values::value::Value;
use crate::text::{is_space, sole_char, sole_char_of, string_of, string_of_char, push_char, push_str};

verus! {

/// Holds one of the possible digit values.
#[derive(Clone, Copy, Debug, Default, Hash, PartialEq, Eq, Structural, PartialOrd, Ord)]
pub struct Digit(u8);

/// Errors that can occur when parsing a digit value.
#[derive(Debug, Clone, PartialEq, Eq)]
pub enum DigitError {
    InvalidValue(String),
}

/// `r` is what parsing `label` as a digit gives: its one character other than
/// white space, '1' to '9', or an error that holds `label`.
pub open spec fn digit_parsed(label: Seq<char>, r: Result<Digit, DigitError>) -> bool {
    &&& (exists|c: char| sole_char_of(label, c) && is_digit_label(c)) <==> r is Ok
    &&& r matches Ok(d) ==> exists|c: char| sole_char_of(label, c) && digit_of_label(c) == d@
    &&& r matches Err(DigitError::InvalidValue(s)) ==> s@ == label
}

impl DigitError {
    /// The message that describes this error, as text.
    pub open spec fn message(&self) -> Seq<char> {
        match self {
            DigitError::InvalidValue(label) => "invalid digit '"@ + label@ + "'"@,
        }
    }

    /// The message that describes this error.
    pub fn to_string(&self) -> (r: String)
        ensures
            r@ == self.message(),
            self matches DigitError::InvalidValue(label) ==> r@ == "invalid digit '"@ + label@
                + "'"@,
    {
        match self {
            DigitError::InvalidValue(label) => {
                let mut s = string_of("invalid digit '");
                push_str(&mut s, label.as_str());
                push_str(&mut s, "'");
                s
            },
        }
    }
}

/// The digit whose label is `c`, if any: '1' is the first digit.
pub open spec fn digit_of_label(c: char) -> int {
    c as int - 49
}

/// `c` labels a digit.
pub open spec fn is_digit_label(c: char) -> bool {
    '1' <= c <= '9'
}

/// The circled label of the digit with index `i`.
pub open spec fn highlight_label(i: int) -> char {
    seq!['❶', '❷', '❸', '❹', '❺', '❻', '❼', '❽', '❾'][i]
}

impl Digit {
    pub const COUNT: u8 = 9;

    #[verifier::type_invariant]
    spec fn inv(self) -> bool {
        self.0 < 9
    }

    /// The zero-based index of this digit.
    pub closed spec fn view(&self) -> int {
        self.0 as int
    }

    /// Digits are equal exactly when their views are.
    pub proof fn lemma_view_eq(a: Digit, b: Digit)
        ensures
            (a == b) == (a@ == b@),
    {
    }

    /// Returns an iterator over all digits in order.
    pub fn iter() -> (r: DigitIter)
        ensures
            r@ == 0,
    {
        DigitIter::new()
    }

    /// Returns the digit with the zero-based `index`.
    pub fn new(index: u32) -> (d: Self)
        requires
            index < 9,
        ensures
            d@ == index,
    {
        Digit(index as u8)
    }

    /// Returns the digit with the one-based `digit`.
    pub fn from_ordinal(digit: u8) -> (d: Self)
        requires
            1 <= digit <= 9,
        ensures
            d@ == digit - 1,
    {
        Digit(digit - 1)
    }

    /// Returns the zero-based index.
    pub fn usize(&self) -> (r: usize)
        ensures
            r == self@,
            r < 9,
    {
        proof {
            use_type_invariant(self);
        }
        self.0 as usize
    }

    /// Returns the bit that stands for this digit in a set.
    pub fn bit(&self) -> (r: u16)
        ensures
            r as u128 == 1u128 << (self@ as u128),
            r == 1u16 << (self@ as u16),
            0 <= self@ < 9,
    {
        proof {
            use_type_invariant(self);
            crate::bits::lemma_widen16();
        }
        1u16 << self.0
    }

    /// Returns the cell value of this digit.
    pub fn value(&self) -> (r: Value)
        ensures
            r@ == self@ + 1,
    {
        proof {
            use_type_invariant(self);
        }
        Value::new(self.0 + 1)
    }

    /// Returns the label '1' to '9'.
    pub fn label(&self) -> (c: char)
        ensures
            c == (49 + self@) as char,
            is_digit_label(c),
            digit_of_label(c) == self@,
    {
        proof {
            use_type_invariant(self);
        }
        (49u8 + self.0) as char
    }

    /// Returns the circled label of this digit.
    pub fn highlight(&self) -> (c: char)
        ensures
            c == highlight_label(self@),
    {
        proof {
            use_type_invariant(self);
        }
        match self.0 {
            0 => '❶',
            1 => '❷',
            2 => '❸',
            3 => '❹',
            4 => '❺',
            5 => '❻',
            6 => '❼',
            7 => '❽',
            _ => '❾',
        }
    }

    /// Returns the digit labelled `label`.
    pub fn try_from(label: char) -> (r: Result<Self, DigitError>)
        ensures
            is_digit_label(label) ==> (r matches Ok(d) && d@ == digit_of_label(label)),
            !is_digit_label(label) ==> (r matches Err(DigitError::InvalidValue(s)) && s@ == seq![label]),
    {
        if '1' <= label && label <= '9' {
            Ok(Digit(((label as u32) - 49) as u8))
        } else {
            Err(DigitError::InvalidValue(string_of_char(label)))
        }
    }

    /// Returns the digit labelled by `label` after trimming white space.
    pub fn from_str(label: &str) -> (r: Result<Self, DigitError>)
        ensures
            digit_parsed(label@, r),
    {
        match sole_char(label) {
            Some(c) => {
                if '1' <= c && c <= '9' {
                    assert(sole_char_of(label@, c) && is_digit_label(c));
                    assert(digit_of_label(c) == (c as u32 - 49) as u8);
                    return Ok(Digit(((c as u32) - 49) as u8));
                }
                proof {
                    assert forall|d: char| sole_char_of(label@, d) implies d == c by {
                        let k = choose|k: int|
                            0 <= k < label@.len() && label@[k] == d && !is_space(d) && forall|j: int|
                                0 <= j < label@.len() && j != k ==> is_space(#[trigger] label@[j]);
                        let m = choose|m: int|
                            0 <= m < label@.len() && label@[m] == c && !is_space(c) && forall|j: int|
                                0 <= j < label@.len() && j != m ==> is_space(#[trigger] label@[j]);
                        if k != m {
                            assert(is_space(label@[m]));
                        }
                    }
                }
                Err(DigitError::InvalidValue(string_of(label)))
            },
            None => Err(DigitError::InvalidValue(string_of(label))),
        }
    }
}

/// Iterates over the nine digits in order.
pub struct DigitIter(u8);

impl DigitIter {
    #[verifier::type_invariant]
    spec fn inv(self) -> bool {
        self.0 <= 9
    }

    /// The index of the next digit to return, or 9 when done.
    pub closed spec fn view(&self) -> int {
        self.0 as int
    }

    /// Returns an iterator positioned at the first digit.
    pub fn new() -> (r: Self)
        ensures
            r@ == 0,
    {
        DigitIter(0)
    }

    /// Returns the next digit, if any.
    pub fn next(&mut self) -> (r: Option<Digit>)
        ensures
            old(self)@ < 9 ==> (r matches Some(d) && d@ == old(self)@ && final(self)@ == old(self)@ + 1),
            old(self)@ >= 9 ==> r is None && final(self)@ == old(self)@,
            0 <= final(self)@ <= 9,
    {
        proof {
            use_type_invariant(&*self);
        }
        if self.0 < 9 {
            let digit = Digit::new(self.0 as u32);
            self.0 = self.0 + 1;
            Some(digit)
        } else {
            None
        }
    }

    /// Returns the number of digits left.
    pub fn len(&self) -> (r: usize)
        ensures
            r == 9 - self@,
    {
        proof {
            use_type_invariant(self);
        }
        9 - self.0 as usize
    }
}

} // verus!
