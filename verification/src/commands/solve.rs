//! Columns of the table that reports how puzzles were solved.
use vstd::prelude::*;

use crate::io::numbers::{decimal, decimal_string};
use crate::text::{push_char, push_str, string_of};

verus! {

/// The decimal text of `v`, with a minus sign where it is negative.
pub open spec fn signed_decimal(v: int) -> Seq<char> {
    if v < 0 {
        seq!['-'] + decimal((-v) as nat)
    } else {
        decimal(v as nat)
    }
}

/// Returns "-" for zero and the decimal text of any other count.
pub fn dash_zero(value: i32) -> (r: String)
    ensures
        value == 0 ==> r@ == seq!['-'],
        value != 0 ==> r@ == signed_decimal(value as int),
{
    if value == 0 {
        return crate::text::string_of_char('-');
    }
    if value < 0 {
        let magnitude: u128 = (-(value as i64)) as u128;
        let mut r = crate::text::string_of_char('-');
        let digits = decimal_string(magnitude);
        push_str(&mut r, digits.as_str());
        r
    } else {
        decimal_string(value as u128)
    }
}

/// `value` right-aligned in a column `width` wide, less the space between columns.
pub open spec fn column_text(value: Seq<char>, width: nat) -> Seq<char> {
    let inner: nat = if width > 0 {
        (width - 1) as nat
    } else {
        0
    };
    if value.len() >= inner {
        value
    } else {
        Seq::new((inner - value.len()) as nat, |i: int| ' ') + value
    }
}

/// Returns `value` right-aligned in a column `width` wide, less the space
/// between columns.
pub fn format_column(value: &str, width: usize) -> (r: String)
    ensures
        r@ == column_text(value@, width as nat),
{
    let inner = if width > 0 {
        width - 1
    } else {
        0
    };
    let len = value.unicode_len();
    if len >= inner {
        return string_of(value);
    }
    let mut r = String::new();
    let mut k: usize = 0;
    while k < inner - len
        invariant
            len < inner,
            k <= inner - len,
            r@ == Seq::new(k as nat, |i: int| ' '),
        decreases inner - len - k,
    {
        push_char(&mut r, ' ');
        k += 1;
        proof {
            assert(r@ =~= Seq::new(k as nat, |i: int| ' '));
        }
    }
    push_str(&mut r, value);
    r
}

} // verus!
