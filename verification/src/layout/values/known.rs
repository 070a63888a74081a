use vstd::prelude::*;

use crate::layout::values::value::Value;
use crate::text::{is_space, sole_char, sole_char_of, string_of, string_of_char, push_char, push_str};

verus! {

/// Holds one of the possible known values.
#[derive(Clone, Copy, Debug, Default, Hash, PartialEq, Eq, Structural, PartialOrd, Ord)]
pub struct Known(u8);

/// Errors that can occur when parsing a known value.
#[derive(Debug, Clone, PartialEq, Eq)]
pub enum KnownError {
    InvalidValue(String),
}

impl KnownError {
    /// The message that describes this error.
    pub fn to_string(&self) -> (r: String)
        ensures
            self matches KnownError::InvalidValue(label) ==> r@ == "invalid known '"@ + label@
                + "'"@,
    {
        match self {
            KnownError::InvalidValue(label) => {
                let mut s = string_of("invalid known '");
                push_str(&mut s, label.as_str());
                push_str(&mut s, "'");
                s
            },
        }
    }
}

/// The known whose label is `c`, if any: '1' is the first known.
pub open spec fn known_of_label(c: char) -> int {
    c as int - 49
}

/// `c` labels a known.
pub open spec fn is_known_label(c: char) -> bool {
    '1' <= c <= '9'
}

/// The circled label of the known with index `i`.
pub open spec fn highlight_label(i: int) -> char {
    seq!['❶', '❷', '❸', '❹', '❺', '❻', '❼', '❽', '❾'][i]
}

impl Known {
    pub const COUNT: u8 = 9;

    #[verifier::type_invariant]
    spec fn inv(self) -> bool {
        self.0 < 9
    }

    /// The zero-based index of this known.
    pub closed spec fn view(&self) -> int {
        self.0 as int
    }

    /// Returns an iterator over all knowns in order.
    pub fn iter() -> (r: KnownIter)
        ensures
            r@ == 0,
    {
        KnownIter::new()
    }

    /// Returns the known with the zero-based `index`.
    pub fn new(index: u32) -> (d: Self)
        requires
            index < 9,
        ensures
            d@ == index,
    {
        Known(index as u8)
    }

    /// Returns the known with the one-based `known`.
    pub fn from_ordinal(known: u8) -> (d: Self)
        requires
            1 <= known <= 9,
        ensures
            d@ == known - 1,
    {
        Known(known - 1)
    }

    /// Returns the zero-based index.
    pub fn usize(&self) -> (r: usize)
        ensures
            r == self@,
            r < 9,
    {
        proof {
            use_type_invariant(self);
        }
        self.0 as usize
    }

    /// Returns the bit that stands for this known in a set.
    pub fn bit(&self) -> (r: u16)
        ensures
            r as u128 == 1u128 << (self@ as u128),
            r == 1u16 << (self@ as u16),
            0 <= self@ < 9,
    {
        proof {
            use_type_invariant(self);
            crate::bits::lemma_widen16();
        }
        1u16 << self.0
    }

    /// Returns the cell value of this known.
    pub fn value(&self) -> (r: Value)
        ensures
            r@ == self@ + 1,
    {
        proof {
            use_type_invariant(self);
        }
        Value::new(self.0 + 1)
    }

    /// Returns the label '1' to '9'.
    pub fn label(&self) -> (c: char)
        ensures
            c == (49 + self@) as char,
            is_known_label(c),
            known_of_label(c) == self@,
    {
        proof {
            use_type_invariant(self);
        }
        (49u8 + self.0) as char
    }

    /// Returns the circled label of this known.
    pub fn highlight(&self) -> (c: char)
        ensures
            c == highlight_label(self@),
    {
        proof {
            use_type_invariant(self);
        }
        match self.0 {
            0 => '❶',
            1 => '❷',
            2 => '❸',
            3 => '❹',
            4 => '❺',
            5 => '❻',
            6 => '❼',
            7 => '❽',
            _ => '❾',
        }
    }

    /// Returns the known labelled `label`.
    pub fn try_from(label: char) -> (r: Result<Self, KnownError>)
        ensures
            is_known_label(label) ==> (r matches Ok(d) && d@ == known_of_label(label)),
            !is_known_label(label) ==> (r matches Err(KnownError::InvalidValue(s)) && s@ == seq![label]),
    {
        if '1' <= label && label <= '9' {
            Ok(Known(((label as u32) - 49) as u8))
        } else {
            Err(KnownError::InvalidValue(string_of_char(label)))
        }
    }

    /// Returns the known labelled by `label` after trimming white space.
    pub fn from_str(label: &str) -> (r: Result<Self, KnownError>)
        ensures
            (exists|c: char| sole_char_of(label@, c) && is_known_label(c)) <==> r is Ok,
            r matches Ok(d) ==> exists|c: char| sole_char_of(label@, c) && known_of_label(c) == d@,
            r matches Err(KnownError::InvalidValue(s)) ==> s@ == label@,
    {
        match sole_char(label) {
            Some(c) => {
                if '1' <= c && c <= '9' {
                    assert(sole_char_of(label@, c) && is_known_label(c));
                    assert(known_of_label(c) == (c as u32 - 49) as u8);
                    return Ok(Known(((c as u32) - 49) as u8));
                }
                proof {
                    assert forall|d: char| sole_char_of(label@, d) implies d == c by {
                        let k = choose|k: int|
                            0 <= k < label@.len() && label@[k] == d && !is_space(d) && forall|j: int|
                                0 <= j < label@.len() && j != k ==> is_space(#[trigger] label@[j]);
                        let m = choose|m: int|
                            0 <= m < label@.len() && label@[m] == c && !is_space(c) && forall|j: int|
                                0 <= j < label@.len() && j != m ==> is_space(#[trigger] label@[j]);
                        if k != m {
                            assert(is_space(label@[m]));
                        }
                    }
                }
                Err(KnownError::InvalidValue(string_of(label)))
            },
            None => Err(KnownError::InvalidValue(string_of(label))),
        }
    }
}

/// Iterates over the nine knowns in order.
pub struct KnownIter(u8);

impl KnownIter {
    #[verifier::type_invariant]
    spec fn inv(self) -> bool {
        self.0 <= 9
    }

    /// The index of the next known to return, or 9 when done.
    pub closed spec fn view(&self) -> int {
        self.0 as int
    }

    /// Returns an iterator positioned at the first known.
    pub fn new() -> (r: Self)
        ensures
            r@ == 0,
    {
        KnownIter(0)
    }

    /// Returns the next known, if any.
    pub fn next(&mut self) -> (r: Option<Known>)
        ensures
            old(self)@ < 9 ==> (r matches Some(d) && d@ == old(self)@ && final(self)@ == old(self)@ + 1),
            old(self)@ >= 9 ==> r is None && final(self)@ == old(self)@,
            0 <= final(self)@ <= 9,
    {
        proof {
            use_type_invariant(&*self);
        }
        if self.0 < 9 {
            let known = Known::new(self.0 as u32);
            self.0 = self.0 + 1;
            Some(known)
        } else {
            None
        }
    }

    /// Returns the number of knowns left.
    pub fn len(&self) -> (r: usize)
        ensures
            r == 9 - self@,
    {
        proof {
            use_type_invariant(self);
        }
        9 - self.0 as usize
    }
}

} // verus!
