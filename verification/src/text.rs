use vstd::prelude::*;

verus! {

/// Appends `c` to `s`.
///
/// Calls `String::push`, which appends one character; the contract says the
/// text grows by exactly that character.
#[verifier::external_body]
pub fn push_char(s: &mut String, c: char)
    ensures
        final(s)@ == old(s)@.push(c),
{
    s.push(c);
}

/// Appends the text of `t` to `s`.
pub fn push_str(s: &mut String, t: &str)
    ensures
        final(s)@ == old(s)@ + t@,
{
    s.append(t);
}


/// White space as `char::is_whitespace` defines it (the Unicode `White_Space` property).
pub open spec fn is_space(c: char) -> bool {
    let u = c as u32;
    (0x9 <= u <= 0xd) || u == 0x20 || u == 0x85 || u == 0xa0 || u == 0x1680 || (0x2000 <= u
        <= 0x200a) || u == 0x2028 || u == 0x2029 || u == 0x202f || u == 0x205f || u == 0x3000
}

/// Returns whether `c` is white space.
pub fn is_space_char(c: char) -> (r: bool)
    ensures
        r == is_space(c),
{
    let u = c as u32;
    (0x9 <= u && u <= 0xd) || u == 0x20 || u == 0x85 || u == 0xa0 || u == 0x1680 || (0x2000 <= u
        && u <= 0x200a) || u == 0x2028 || u == 0x2029 || u == 0x202f || u == 0x205f || u == 0x3000
}

/// `s` holds exactly one character other than white space, and it is `c`.
pub open spec fn sole_char_of(s: Seq<char>, c: char) -> bool {
    exists|i: int|
        0 <= i < s.len() && s[i] == c && !is_space(c) && forall|j: int|
            0 <= j < s.len() && j != i ==> is_space(#[trigger] s[j])
}

/// Returns the one character of `s` that is not white space, if there is exactly one.
pub fn sole_char(s: &str) -> (r: Option<char>)
    ensures
        r matches Some(c) ==> sole_char_of(s@, c),
        r is None ==> forall|c: char| !sole_char_of(s@, c),
{
    let n = s.unicode_len();
    let mut found: Option<char> = None;
    let ghost mut at: int = -1;
    let mut i: usize = 0;
    while i < n
        invariant
            n == s@.len(),
            i <= n,
            found is None ==> at == -1 && forall|j: int| 0 <= j < i ==> is_space(#[trigger] s@[j]),
            found matches Some(c) ==> 0 <= at < i && s@[at] == c && !is_space(c) && forall|j: int|
                0 <= j < i && j != at ==> is_space(#[trigger] s@[j]),
        decreases n - i,
    {
        let c = s.get_char(i);
        if !is_space_char(c) {
            if found.is_some() {
                proof {
                    assert forall|d: char| !sole_char_of(s@, d) by {
                        if sole_char_of(s@, d) {
                            let k = choose|k: int|
                                0 <= k < s@.len() && s@[k] == d && !is_space(d) && forall|j: int|
                                    0 <= j < s@.len() && j != k ==> is_space(#[trigger] s@[j]);
                            if k == at {
                                assert(is_space(s@[i as int]));
                            } else {
                                assert(is_space(s@[at]));
                            }
                        }
                    }
                }
                return None;
            }
            found = Some(c);
            proof {
                at = i as int;
            }
        }
        i = i + 1;
    }
    proof {
        if found is None {
            assert forall|d: char| !sole_char_of(s@, d) by {
                if sole_char_of(s@, d) {
                    let k = choose|k: int|
                        0 <= k < s@.len() && s@[k] == d && !is_space(d) && forall|j: int|
                            0 <= j < s@.len() && j != k ==> is_space(#[trigger] s@[j]);
                    assert(is_space(s@[k]));
                }
            }
        }
    }
    found
}

/// A string holding the text of `s`.
pub fn string_of(s: &str) -> (r: String)
    ensures
        r@ == s@,
{
    String::from_str(s)
}

/// A string holding the single character `c`.
pub fn string_of_char(c: char) -> (r: String)
    ensures
        r@ == seq![c],
{
    let mut r = String::new();
    push_char(&mut r, c);
    proof {
        assert(r@ =~= seq![c]);
    }
    r
}


/// Keeps the characters of a list other than spaces and commas.
pub open spec fn not_separator(c: char) -> bool {
    c != ' ' && c != ','
}

/// Filtering a sequence extended by one element.
pub proof fn lemma_filter_push<A>(s: Seq<A>, c: A, p: spec_fn(A) -> bool)
    ensures
        s.push(c).filter(p) == if p(c) {
            s.filter(p).push(c)
        } else {
            s.filter(p)
        },
{
    reveal(Seq::filter);
    assert(s.push(c).drop_last() =~= s);
}

/// Filtering the prefix of `s` that ends at `i + 1`.
pub proof fn lemma_filter_prefix<A>(s: Seq<A>, i: int, p: spec_fn(A) -> bool)
    requires
        0 <= i < s.len(),
    ensures
        s.subrange(0, i + 1).filter(p) == if p(s[i]) {
            s.subrange(0, i).filter(p).push(s[i])
        } else {
            s.subrange(0, i).filter(p)
        },
        s.filter(p) == s.subrange(0, i).filter(p) + s.subrange(i, s.len() as int).filter(p),
{
    assert(s.subrange(0, i + 1) =~= s.subrange(0, i).push(s[i]));
    lemma_filter_push(s.subrange(0, i), s[i], p);
    assert(s =~= s.subrange(0, i) + s.subrange(i, s.len() as int));
    Seq::filter_distributes_over_add(s.subrange(0, i), s.subrange(i, s.len() as int), p);
}


/// The number of white-space characters that start `s`.
pub open spec fn leading_spaces(s: Seq<char>) -> nat
    decreases s.len(),
{
    if s.len() > 0 && is_space(s[0]) {
        1 + leading_spaces(s.drop_first())
    } else {
        0
    }
}

/// The number of white-space characters that end `s`.
pub open spec fn trailing_spaces(s: Seq<char>) -> nat
    decreases s.len(),
{
    if s.len() > 0 && is_space(s.last()) {
        1 + trailing_spaces(s.drop_last())
    } else {
        0
    }
}

/// `s` without its leading and trailing white space, as `str::trim` returns it.
pub open spec fn trimmed(s: Seq<char>) -> Seq<char> {
    let t = s.subrange(leading_spaces(s) as int, s.len() as int);
    t.subrange(0, t.len() - trailing_spaces(t))
}

proof fn lemma_leading_bound(s: Seq<char>)
    ensures
        leading_spaces(s) <= s.len(),
    decreases s.len(),
{
    if s.len() > 0 && is_space(s[0]) {
        lemma_leading_bound(s.drop_first());
    }
}

proof fn lemma_trailing_bound(s: Seq<char>)
    ensures
        trailing_spaces(s) <= s.len(),
    decreases s.len(),
{
    if s.len() > 0 && is_space(s.last()) {
        lemma_trailing_bound(s.drop_last());
    }
}

/// Returns `s` without its leading and trailing white space.
pub fn trim(s: &str) -> (r: &str)
    ensures
        r@ == trimmed(s@),
{
    let n = s.unicode_len();
    let mut start: usize = 0;
    proof {
        lemma_leading_bound(s@);
        assert(s@.subrange(0, n as int) =~= s@);
    }
    while start < n && is_space_char(s.get_char(start))
        invariant
            n == s@.len(),
            start <= leading_spaces(s@),
            leading_spaces(s@.subrange(start as int, n as int)) + start == leading_spaces(s@),
        decreases n - start,
    {
        proof {
            assert(s@.subrange(start as int, n as int).drop_first() =~= s@.subrange(start + 1, n as int));
        }
        start = start + 1;
    }
    proof {
        if start < n {
            assert(s@.subrange(start as int, n as int)[0] == s@[start as int]);
        }
        assert(leading_spaces(s@.subrange(start as int, n as int)) == 0);
    }
    let ghost t = s@.subrange(start as int, n as int);
    let mut end: usize = n;
    proof {
        assert(t.subrange(0, t.len() as int) =~= t);
    }
    while end > start && is_space_char(s.get_char(end - 1))
        invariant
            n == s@.len(),
            start <= end <= n,
            t == s@.subrange(start as int, n as int),
            trailing_spaces(t.subrange(0, end - start)) + (n - end) == trailing_spaces(t),
        decreases end,
    {
        proof {
            assert(t.subrange(0, end - start).drop_last() =~= t.subrange(0, end - 1 - start));
            assert(t.subrange(0, end - start).last() == s@[end - 1]);
        }
        end = end - 1;
    }
    proof {
        if end > start {
            assert(t.subrange(0, end - start).last() == s@[end - 1]);
        }
        assert(trailing_spaces(t.subrange(0, end - start)) == 0);
        assert(s@.subrange(start as int, end as int) =~= trimmed(s@));
    }
    s.substring_char(start, end)
}

/// The number of characters that start `s` before its first white space.
pub open spec fn word_len(s: Seq<char>) -> nat
    decreases s.len(),
{
    if s.len() > 0 && !is_space(s[0]) {
        1 + word_len(s.drop_first())
    } else {
        0
    }
}

/// A word is non-empty where `s` starts with a character other than white
/// space, holds no white space, and ends at white space or at the end.
pub proof fn lemma_word_len(s: Seq<char>)
    ensures
        word_len(s) <= s.len(),
        s.len() > 0 && !is_space(s[0]) ==> word_len(s) >= 1,
        forall|i: int| 0 <= i < word_len(s) ==> !is_space(#[trigger] s[i]),
        word_len(s) < s.len() ==> is_space(s[word_len(s) as int]),
    decreases s.len(),
{
    if s.len() > 0 && !is_space(s[0]) {
        lemma_word_len(s.drop_first());
        assert forall|i: int| 0 <= i < word_len(s) implies !is_space(#[trigger] s[i]) by {
            if i > 0 {
                assert(s[i] == s.drop_first()[i - 1]);
            }
        }
        if word_len(s) < s.len() {
            assert(s[word_len(s) as int] == s.drop_first()[word_len(s) - 1]);
        }
    }
}

/// The words of `s`: its longest runs of characters other than white space,
/// in order, as `str::split_whitespace` yields them.
pub open spec fn words(s: Seq<char>) -> Seq<Seq<char>>
    decreases s.len(),
{
    if s.len() == 0 {
        Seq::empty()
    } else if is_space(s[0]) {
        words(s.drop_first())
    } else {
        proof {
            lemma_word_len(s);
        }
        seq![s.take(word_len(s) as int)] + words(s.skip(word_len(s) as int))
    }
}

/// Every word is a non-empty run of characters other than white space.
pub proof fn lemma_words_nonempty(s: Seq<char>, k: int)
    requires
        0 <= k < words(s).len(),
    ensures
        words(s)[k].len() > 0,
        forall|i: int| 0 <= i < words(s)[k].len() ==> !is_space(#[trigger] words(s)[k][i]),
    decreases s.len(),
{
    if s.len() > 0 {
        if is_space(s[0]) {
            lemma_words_nonempty(s.drop_first(), k);
        } else {
            lemma_word_len(s);
            let w = s.take(word_len(s) as int);
            if k > 0 {
                assert(words(s)[k] == words(s.skip(word_len(s) as int))[k - 1]);
                lemma_words_nonempty(s.skip(word_len(s) as int), k - 1);
            } else {
                assert(words(s)[0] == w);
            }
        }
    }
}

/// The text of each of `parts`.
pub open spec fn texts(parts: Seq<&str>) -> Seq<Seq<char>> {
    parts.map_values(|p: &str| p@)
}

/// Returns the words of `s`.
pub fn split_words(s: &str) -> (r: Vec<&str>)
    ensures
        texts(r@) == words(s@),
{
    let n = s.unicode_len();
    let mut r: Vec<&str> = Vec::new();
    let mut i: usize = 0;
    proof {
        assert(s@.skip(0) =~= s@);
        assert(texts(r@) =~= Seq::<Seq<char>>::empty());
    }
    while i < n
        invariant
            n == s@.len(),
            i <= n,
            texts(r@) + words(s@.skip(i as int)) == words(s@),
        decreases n - i,
    {
        let ghost rest = s@.skip(i as int);
        if is_space_char(s.get_char(i)) {
            proof {
                assert(rest.drop_first() =~= s@.skip(i + 1));
            }
            i += 1;
        } else {
            let mut j: usize = i + 1;
            proof {
                assert(rest.drop_first() =~= s@.skip(i + 1));
            }
            while j < n && !is_space_char(s.get_char(j))
                invariant
                    n == s@.len(),
                    i < j <= n,
                    rest == s@.skip(i as int),
                    word_len(rest) == (j - i) + word_len(s@.skip(j as int)),
                decreases n - j,
            {
                proof {
                    assert(s@.skip(j as int).drop_first() =~= s@.skip(j + 1));
                }
                j += 1;
            }
            proof {
                if j < n {
                    assert(s@.skip(j as int)[0] == s@[j as int]);
                }
                assert(word_len(s@.skip(j as int)) == 0);
                assert(rest.take(word_len(rest) as int) =~= s@.subrange(i as int, j as int));
                assert(rest.skip(word_len(rest) as int) =~= s@.skip(j as int));
            }
            let ghost before = texts(r@);
            r.push(s.substring_char(i, j));
            proof {
                assert(texts(r@) =~= before.push(s@.subrange(i as int, j as int)));
                assert(before.push(s@.subrange(i as int, j as int)) + words(s@.skip(j as int))
                    =~= before + (seq![s@.subrange(i as int, j as int)] + words(s@.skip(j as int))));
            }
            i = j;
        }
    }
    proof {
        assert(s@.skip(n as int) =~= Seq::<char>::empty());
        assert(texts(r@) + Seq::<Seq<char>>::empty() =~= texts(r@));
    }
    r
}

/// `c` in upper case where it is an ASCII lower-case letter.
pub open spec fn ascii_upper(c: char) -> char {
    if 'a' <= c <= 'z' {
        ((c as u32) - 32) as char
    } else {
        c
    }
}

/// Every character of `s` is ASCII.
pub open spec fn all_ascii(s: Seq<char>) -> bool {
    forall|i: int| 0 <= i < s.len() ==> (#[trigger] s[i] as u32) < 128
}

/// What `str::to_uppercase` returns for the text `s`: the Unicode upper-case
/// mapping of each character, which may turn one character into several.
pub uninterp spec fn uppercase(s: Seq<char>) -> Seq<char>;

/// Returns `s` in upper case.
///
/// Calls `str::to_uppercase`; the contract names the result as `uppercase`
/// of the text and, as the Unicode case mapping documented for it does, says
/// that ASCII text comes back with each lower-case letter made upper case and
/// every other character kept.
#[verifier::external_body]
pub fn to_uppercase(s: &str) -> (r: String)
    ensures
        r@ == uppercase(s@),
        all_ascii(s@) ==> r@ == Seq::new(s@.len(), |i: int| ascii_upper(s@[i])),
{
    s.to_uppercase()
}

/// Returns true if `a` and `b` hold the same text.
pub fn same_text(a: &str, b: &str) -> (r: bool)
    ensures
        r == (a@ == b@),
{
    let n = a.unicode_len();
    if n != b.unicode_len() {
        return false;
    }
    let mut i: usize = 0;
    while i < n
        invariant
            n == a@.len(),
            n == b@.len(),
            i <= n,
            forall|k: int| 0 <= k < i ==> a@[k] == b@[k],
        decreases n - i,
    {
        if a.get_char(i) != b.get_char(i) {
            return false;
        }
        i += 1;
    }
    proof {
        assert(a@ =~= b@);
    }
    true
}

/// The number of bytes that `c` takes in UTF-8.
pub open spec fn utf8_len(c: char) -> nat {
    if (c as u32) < 0x80 {
        1
    } else if (c as u32) < 0x800 {
        2
    } else if (c as u32) < 0x10000 {
        3
    } else {
        4
    }
}

/// The number of bytes that `s` takes in UTF-8.
pub open spec fn byte_len(s: Seq<char>) -> nat
    decreases s.len(),
{
    if s.len() == 0 {
        0
    } else {
        byte_len(s.drop_last()) + utf8_len(s.last())
    }
}

/// Returns the number of bytes that `s` takes in UTF-8.
pub fn utf8_byte_len(s: &str) -> (r: usize)
    requires
        byte_len(s@) <= usize::MAX,
    ensures
        r == byte_len(s@),
{
    let n = s.unicode_len();
    let mut total: usize = 0;
    let mut i: usize = 0;
    while i < n
        invariant
            n == s@.len(),
            i <= n,
            total == byte_len(s@.take(i as int)),
            byte_len(s@) <= usize::MAX,
        decreases n - i,
    {
        let c = s.get_char(i);
        proof {
            assert(s@.take(i + 1).drop_last() =~= s@.take(i as int));
            lemma_byte_len_prefix(s@, i + 1);
        }
        let code: u32 = c as u32;
        let w: usize = if code < 0x80 {
            1
        } else if code < 0x800 {
            2
        } else if code < 0x10000 {
            3
        } else {
            4
        };
        total = total + w;
        i += 1;
    }
    proof {
        assert(s@.take(n as int) =~= s@);
    }
    total
}

/// No prefix of `s` takes more bytes than `s`.
pub proof fn lemma_byte_len_prefix(s: Seq<char>, k: int)
    requires
        0 <= k <= s.len(),
    ensures
        byte_len(s.take(k)) <= byte_len(s),
    decreases s.len() - k,
{
    if k < s.len() {
        lemma_byte_len_prefix(s, k + 1);
        assert(s.take(k + 1).drop_last() =~= s.take(k));
    } else {
        assert(s.take(k) =~= s);
    }
}

/// A text takes at least one byte and at most four for each character.
pub proof fn lemma_byte_len_bounds(s: Seq<char>)
    ensures
        s.len() <= byte_len(s) <= 4 * s.len(),
    decreases s.len(),
{
    if s.len() > 0 {
        lemma_byte_len_bounds(s.drop_last());
    }
}

/// Trimming never lengthens a text.
pub proof fn lemma_trimmed_len(s: Seq<char>)
    ensures
        trimmed(s).len() <= s.len(),
{
    lemma_leading_bound(s);
    let t = s.subrange(leading_spaces(s) as int, s.len() as int);
    lemma_trailing_bound(t);
}

/// Trimming two characters of one byte each leaves no single character of
/// two bytes.
pub proof fn lemma_trimmed_of_two(s: Seq<char>)
    requires
        s.len() == 2,
        byte_len(s) == 2,
    ensures
        !(byte_len(trimmed(s)) == 2 && trimmed(s).len() == 1),
{
    assert(s.drop_last().drop_last() =~= Seq::<char>::empty());
    assert(s.drop_last().last() == s[0]);
    assert(byte_len(s) == byte_len(s.drop_last()) + utf8_len(s[1]));
    assert(byte_len(s.drop_last()) == byte_len(s.drop_last().drop_last()) + utf8_len(s[0]));
    assert(utf8_len(s[0]) == 1 && utf8_len(s[1]) == 1);
    lemma_leading_bound(s);
    let t = trimmed(s);
    if t.len() == 1 {
        let a = leading_spaces(s) as int;
        let u = s.subrange(a, s.len() as int);
        assert(u[0] == s[a]);
        lemma_trailing_bound(u);
        assert(t == u.subrange(0, u.len() - trailing_spaces(u)));
        assert(t[0] == u[0]);
        assert(t.drop_last() =~= Seq::<char>::empty());
        assert(byte_len(t) == byte_len(t.drop_last()) + utf8_len(t.last()));
    }
}

} // verus!
