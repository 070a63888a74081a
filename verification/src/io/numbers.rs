//! Format numbers and durations.
use std::time::Duration;

use vstd::prelude::*;

use crate::text::{push_char, push_str};

verus! {

/// The whole microseconds in `d`, as `Duration::as_micros` counts them.
pub uninterp spec fn micros_of(d: Duration) -> u128;

/// Calls `Duration::as_micros`, which returns the whole microseconds of the duration; the
/// contract only names that count.
#[verifier::external_body]
fn as_micros(d: Duration) -> (r: u128)
    ensures
        r == micros_of(d),
{
    d.as_micros()
}

/// Formats a duration in microseconds with commas.
pub fn format_runtime(runtime: Duration) -> (r: String)
    ensures
        r@ == grouped(micros_of(runtime) as nat),
{
    format_number(as_micros(runtime))
}

/// The character of the decimal digit `d`.
pub open spec fn digit_char(d: nat) -> char {
    (48 + d) as char
}

/// The decimal digits of `n`, most significant first.
pub open spec fn decimal(n: nat) -> Seq<char>
    decreases n,
{
    if n < 10 {
        seq![digit_char(n)]
    } else {
        decimal(n / 10).push(digit_char(n % 10))
    }
}

/// The three decimal digits of `n` below 1000, with leading zeros.
pub open spec fn three_digits(n: nat) -> Seq<char> {
    seq![digit_char(n / 100), digit_char((n / 10) % 10), digit_char(n % 10)]
}

/// The decimal digits of `n` with a comma between each group of three.
pub open spec fn grouped(n: nat) -> Seq<char>
    decreases n,
{
    if n < 1000 {
        decimal(n)
    } else {
        grouped(n / 1000) + seq![','] + three_digits(n % 1000)
    }
}

/// Returns the decimal digits of `number`.
pub fn decimal_string(number: u128) -> (r: String)
    ensures
        r@ == decimal(number as nat),
    decreases number,
{
    if number < 10 {
        let mut s = String::new();
        push_char(&mut s, (48u8 + number as u8) as char);
        proof {
            assert(s@ =~= decimal(number as nat));
        }
        s
    } else {
        let mut s = decimal_string(number / 10);
        push_char(&mut s, (48u8 + (number % 10) as u8) as char);
        s
    }
}

/// Formats a number with commas as thousands separator.
pub fn format_number(number: u128) -> (r: String)
    ensures
        r@ == grouped(number as nat),
    decreases number,
{
    if number < 1000 {
        decimal_string(number)
    } else {
        let mut s = format_number(number / 1000);
        let rest = number % 1000;
        push_char(&mut s, ',');
        push_char(&mut s, (48u8 + (rest / 100) as u8) as char);
        push_char(&mut s, (48u8 + ((rest / 10) % 10) as u8) as char);
        push_char(&mut s, (48u8 + (rest % 10) as u8) as char);
        proof {
            assert(s@ =~= grouped(number as nat));
        }
        s
    }
}

/// The ordinal suffix of `n`: "st" for 1, "nd" for 2, "rd" for 3, "th" for 11 to 13, and so on.
pub open spec fn ordinal_suffix_spec(n: nat) -> Seq<char> {
    if 11 <= n % 100 <= 13 {
        seq!['t', 'h']
    } else if n % 10 == 1 {
        seq!['s', 't']
    } else if n % 10 == 2 {
        seq!['n', 'd']
    } else if n % 10 == 3 {
        seq!['r', 'd']
    } else {
        seq!['t', 'h']
    }
}

/// Returns the ordinal suffix for a given number (e.g., "st" for 1, "nd" for 2).
pub fn ordinal_suffix(n: usize) -> (r: &'static str)
    ensures
        r@ == ordinal_suffix_spec(n as nat),
{
    proof {
        reveal_strlit("th");
        reveal_strlit("st");
        reveal_strlit("nd");
        reveal_strlit("rd");
    }
    if n % 100 >= 11 && n % 100 <= 13 {
        return "th";
    }
    match n % 10 {
        1 => "st",
        2 => "nd",
        3 => "rd",
        _ => "th",
    }
}

/// The value of the decimal digits `s`.
pub open spec fn digits_value(s: Seq<char>) -> nat
    decreases s.len(),
{
    if s.len() == 0 {
        0
    } else {
        digits_value(s.drop_last()) * 10 + (s.last() as nat - 48) as nat
    }
}

/// Every character of `s` is a decimal digit.
pub open spec fn all_digits(s: Seq<char>) -> bool {
    forall|i: int| 0 <= i < s.len() ==> '0' <= #[trigger] s[i] <= '9'
}

/// The number that `str::parse::<usize>` reads from `s`, if any: decimal
/// digits after an optional `+`, small enough for a `usize`.
pub open spec fn number_of(s: Seq<char>) -> Option<nat> {
    let d = if s.len() > 0 && s[0] == '+' {
        s.drop_first()
    } else {
        s
    };
    if d.len() > 0 && all_digits(d) && digits_value(d) <= usize::MAX {
        Some(digits_value(d))
    } else {
        None
    }
}

/// Returns the number written in `s`, as `str::parse::<usize>` reads it.
pub fn parse_usize(s: &str) -> (r: Option<usize>)
    ensures
        r matches Some(n) ==> number_of(s@) == Some(n as nat),
        r is None ==> number_of(s@) is None,
{
    let n = s.unicode_len();
    let start: usize = if n > 0 && s.get_char(0) == '+' {
        1
    } else {
        0
    };
    let ghost d = s@.skip(start as int);
    proof {
        if start == 1 {
            assert(d =~= s@.drop_first());
        } else {
            assert(d =~= s@);
        }
    }
    if start == n {
        return None;
    }
    let cap: u128 = usize::MAX as u128 + 1;
    let mut value: u128 = 0;
    let mut i: usize = start;
    while i < n
        invariant
            n == s@.len(),
            start <= i <= n,
            d == s@.skip(start as int),
            d == (if s@.len() > 0 && s@[0] == '+' {
                s@.drop_first()
            } else {
                s@
            }),
            cap == usize::MAX + 1,
            all_digits(s@.subrange(start as int, i as int)),
            value == if digits_value(s@.subrange(start as int, i as int)) < cap {
                digits_value(s@.subrange(start as int, i as int))
            } else {
                cap as nat
            },
        decreases n - i,
    {
        let c = s.get_char(i);
        if c < '0' || c > '9' {
            proof {
                assert(d[i - start] == c);
            }
            return None;
        }
        let digit = (c as u32 - 48) as u128;
        let ghost prefix = s@.subrange(start as int, i as int);
        proof {
            assert(s@.subrange(start as int, i + 1).drop_last() =~= prefix);
        }
        value = if value * 10 + digit < cap {
            value * 10 + digit
        } else {
            cap
        };
        i += 1;
        proof {
            let next = s@.subrange(start as int, i as int);
            assert(digits_value(next) == digits_value(prefix) * 10 + digit);
            assert forall|k: int| 0 <= k < next.len() implies '0' <= #[trigger] next[k] <= '9' by {
                if k < prefix.len() {
                    assert(next[k] == prefix[k]);
                }
            }
        }
    }
    proof {
        assert(s@.subrange(start as int, n as int) =~= d);
    }
    if value < cap {
        Some(value as usize)
    } else {
        None
    }
}

} // verus!
