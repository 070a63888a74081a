//! The options of the command that solves a puzzle by trying every candidate.
use vstd::prelude::*;

use crate::io::numbers::{number_of, parse_usize};
use crate::text::{lemma_filter_push, push_char, push_str, string_of};

verus! {

/// The smallest number of solutions that may be asked for.
pub const MAX_SOLUTIONS_LOW: usize = 1;

/// The largest number of solutions that may be asked for.
pub const MAX_SOLUTIONS_HIGH: usize = 1_000_000;

/// `c` is not a comma.
pub open spec fn not_comma(c: char) -> bool {
    c != ','
}

/// `r` is what reading `s` as the largest number of solutions to look for
/// gives: a whole number, commas ignored, from one to a million.
pub open spec fn max_solutions_read(s: Seq<char>, r: Result<usize, String>) -> bool {
    match number_of(s.filter(|c: char| not_comma(c))) {
        None => r matches Err(m) && m@ == seq!['`'] + s + "` must be an integer"@,
        Some(n) => if 1 <= n <= 1_000_000 {
            r == Ok::<usize, String>(n as usize)
        } else {
            r matches Err(m) && m@ == "must be in range 1-1000000"@
        },
    }
}

/// Returns the largest number of solutions to look for, read from `s`.
pub fn max_solutions_in_range(s: &str) -> (r: Result<usize, String>)
    ensures
        max_solutions_read(s@, r),
{
    let ghost p = |c: char| not_comma(c);
    let n = s.unicode_len();
    let mut cleaned = String::new();
    let mut i: usize = 0;
    while i < n
        invariant
            n == s@.len(),
            i <= n,
            p == (|c: char| not_comma(c)),
            cleaned@ == s@.take(i as int).filter(p),
        decreases n - i,
    {
        let c = s.get_char(i);
        proof {
            assert(s@.take(i + 1) =~= s@.take(i as int).push(c));
            lemma_filter_push(s@.take(i as int), c, p);
        }
        if c != ',' {
            push_char(&mut cleaned, c);
        }
        i += 1;
    }
    proof {
        assert(s@.take(n as int) =~= s@);
    }
    match parse_usize(cleaned.as_str()) {
        None => {
            let mut m = string_of("`");
            push_str(&mut m, s);
            push_str(&mut m, "` must be an integer");
            proof {
                reveal_strlit("`");
                assert("`"@ =~= seq!['`']);
            }
            Err(m)
        },
        Some(max) => {
            if MAX_SOLUTIONS_LOW <= max && max <= MAX_SOLUTIONS_HIGH {
                Ok(max)
            } else {
                Err(string_of("must be in range 1-1000000"))
            }
        },
    }
}

} // verus!
