use vstd::prelude::*;
use vstd::set_lib::set_int_range;

use crate::bits::{
    bits_view, count_set_bits, is_least, lemma_mask_bounds, lemma_view_equal, lemma_view_len,
    lemma_view_ops, lemma_view_single, lemma_widen16, low_mask, lowest_set_bit,
};
use crate::io::numbers::{ordinal_suffix, ordinal_suffix_spec};
use crate::layout::values::known::{known_of_label, is_known_label, Known, KnownError};
use crate::layout::values::value::MISSING;
use crate::text::{lemma_filter_prefix, not_separator, push_char, push_str, string_of};

verus! {

/// The character shown for an empty set.
pub const EMPTY_SET: char = '∅';

/// A set of knowns implemented using a bit field.
#[derive(Clone, Copy, Default, Hash, PartialEq, Eq, Structural, PartialOrd, Ord, Debug)]
pub struct KnownSet(u16);

/// Errors that can occur when parsing a known set.
#[derive(Debug, Clone, PartialEq, Eq)]
pub enum KnownSetError {
    InvalidKnown {
        position: usize,  // 1-based position in the list of knowns
        error: KnownError,
    },
}

impl KnownSetError {
    /// The message that describes this error.
    pub fn to_string(&self) -> (r: String)
        ensures
            self matches KnownSetError::InvalidKnown { position, error: KnownError::InvalidValue(label) }
                ==> r@ == "invalid known '"@ + label@ + "' ("@ + crate::io::numbers::decimal(position as nat)
                + ordinal_suffix_spec(position as nat) + ")"@,
    {
        match self {
            KnownSetError::InvalidKnown { position, error: KnownError::InvalidValue(label) } => {
                let mut s = string_of("invalid known '");
                push_str(&mut s, label.as_str());
                push_str(&mut s, "' (");
                let n = crate::io::numbers::decimal_string(*position as u128);
                push_str(&mut s, n.as_str());
                push_str(&mut s, ordinal_suffix(*position));
                push_str(&mut s, ")");
                s
            },
        }
    }
}

/// The full set of nine knowns as bits.
pub const ALL_SET: u16 = 0x1ff;

/// The members of a set of nine held in the bits `b`.
pub open spec fn view9(b: u16) -> Set<int> {
    bits_view(b as u128, 9)
}

impl KnownSet {
    #[verifier::type_invariant]
    spec fn inv(self) -> bool {
        self.0 <= ALL_SET
    }

    /// The zero-based indexes of the knowns in this set.
    pub closed spec fn view(&self) -> Set<int> {
        view9(self.0)
    }

    /// Every set is a finite subset of the nine knowns.
    pub proof fn lemma_view(self)
        ensures
            self@.finite(),
            self@.subset_of(set_int_range(0, 9)),
            self@.len() <= 9,
    {
        lemma_view_len(self.0 as u128, 9);
        lemma_view_ops(self.0 as u128, 0, 9);
        vstd::set_lib::lemma_int_range(0, 9);
        vstd::set_lib::lemma_len_subset(self@, set_int_range(0, 9));
    }

    proof fn lemma_facts(self, other: Self)
        requires
            self.0 <= ALL_SET,
            other.0 <= ALL_SET,
        ensures
            view9(self.0 | other.0) == self@.union(other@),
            view9(self.0 & other.0) == self@.intersect(other@),
            view9(self.0 & !other.0) == self@.difference(other@),
            view9(!self.0 & ALL_SET) == set_int_range(0, 9).difference(self@),
            view9(0) == Set::<int>::empty(),
            view9(ALL_SET) == set_int_range(0, 9),
            (self.0 == other.0) == (self@ == other@),
            self.0 | other.0 <= ALL_SET,
            self.0 & other.0 <= ALL_SET,
            self.0 & !other.0 <= ALL_SET,
            !self.0 & ALL_SET <= ALL_SET,
    {
        lemma_widen16();
        crate::bits::lemma_mask_values();
        lemma_view_ops(self.0 as u128, other.0 as u128, 9);
        lemma_view_equal(self.0 as u128, other.0 as u128, 9);
        lemma_mask_bounds(self.0 as u128, other.0 as u128, 9);
        assert(((self.0 & !other.0) as u128) == (self.0 as u128) & !(other.0 as u128));
        assert(((!self.0 & 0x1ffu16) as u128) == !(self.0 as u128) & 0x1ffu128);
    }

    proof fn lemma_known(self, d: u16, j: int)
        requires
            self.0 <= ALL_SET,
            0 <= j < 9,
            d as u128 == 1u128 << (j as u128),
        ensures
            view9(d) == set![j],
            view9(self.0 | d) == self@.insert(j),
            view9(self.0 & !d) == self@.remove(j),
            (self.0 & d != 0) == self@.contains(j),
            self.0 | d <= ALL_SET,
            self.0 & !d <= ALL_SET,
            d <= ALL_SET,
    {
        lemma_widen16();
        crate::bits::lemma_mask_values();
        lemma_view_single(self.0 as u128, j, 9);
        crate::bits::lemma_low_mask();
        assert((1u128 << (j as u128)) <= low_mask(9));
        lemma_mask_bounds(self.0 as u128, d as u128, 9);
        assert(((self.0 & !d) as u128) == (self.0 as u128) & !(d as u128));
        assert(((self.0 | d) as u128) == (self.0 as u128) | (d as u128));
        assert(((self.0 & d) as u128) == (self.0 as u128) & (d as u128));
    }

    /// Returns a new empty set.
    pub fn empty() -> (r: Self)
        ensures
            r@ == Set::<int>::empty(),
    {
        let r = KnownSet(0);
        proof {
            r.lemma_facts(r);
        }
        r
    }

    /// Returns a new full set.
    pub fn full() -> (r: Self)
        ensures
            r@ == set_int_range(0, 9),
    {
        let r = KnownSet(ALL_SET);
        proof {
            r.lemma_facts(r);
        }
        r
    }

    /// Returns a new set from the raw bit field `bits`.
    pub fn new(bits: u16) -> (r: Self)
        requires
            bits <= ALL_SET,
        ensures
            r@ == view9(bits),
    {
        KnownSet(bits)
    }

    /// Returns a new set holding only `known`.
    pub fn of(known: Known) -> (r: Self)
        ensures
            r@ == set![known@],
    {
        let b = known.bit();
        proof {
            KnownSet(0).lemma_known(b, known@);
        }
        KnownSet(b)
    }

    /// Returns true if this set is empty.
    pub fn is_empty(&self) -> (r: bool)
        ensures
            r == (self@ == Set::<int>::empty()),
    {
        proof {
            use_type_invariant(self);
            self.lemma_facts(KnownSet(0));
        }
        self.0 == 0
    }

    /// Returns true if this set is full.
    pub fn is_full(&self) -> (r: bool)
        ensures
            r == (self@ == set_int_range(0, 9)),
    {
        proof {
            use_type_invariant(self);
            self.lemma_facts(KnownSet(ALL_SET));
        }
        self.0 == ALL_SET
    }

    /// Returns the number of knowns in this set.
    pub fn len(&self) -> (r: usize)
        ensures
            r == self@.len(),
            r <= 9,
    {
        count_set_bits(self.0 as u128, 9) as usize
    }

    /// Returns the raw bit field.
    pub fn bits(&self) -> (r: u16)
        ensures
            view9(r) == self@,
            r <= ALL_SET,
    {
        proof {
            use_type_invariant(self);
        }
        self.0
    }

    /// Returns true if `known` is a member of this set.
    pub fn has(&self, known: Known) -> (r: bool)
        ensures
            r == self@.contains(known@),
    {
        proof {
            use_type_invariant(self);
        }
        let b = known.bit();
        proof {
            self.lemma_known(b, known@);
        }
        self.0 & b != 0
    }

    /// Returns true if at least one member of `set` is a member of this set.
    pub fn has_any(&self, set: Self) -> (r: bool)
        ensures
            r == !self@.disjoint(set@),
    {
        let both = self.intersect(set);
        let r = !both.is_empty();
        proof {
            if self@.disjoint(set@) {
                assert(both@ =~= Set::<int>::empty());
            } else {
                let i = choose|i: int| self@.contains(i) && set@.contains(i);
                assert(both@.contains(i));
            }
        }
        r
    }

    /// Returns true if all members of `subset` are members of this set.
    pub fn has_all(&self, subset: Self) -> (r: bool)
        ensures
            r == subset@.subset_of(self@),
    {
        proof {
            use_type_invariant(self);
            use_type_invariant(&subset);
            self.lemma_facts(subset);
            KnownSet(self.0 & subset.0).lemma_facts(subset);
            if subset@.subset_of(self@) {
                assert(self@.intersect(subset@) =~= subset@);
            }
        }
        self.0 & subset.0 == subset.0
    }

    /// Returns true if all members of this set are members of `superset`.
    pub fn is_subset_of(&self, superset: Self) -> (r: bool)
        ensures
            r == self@.subset_of(superset@),
    {
        superset.has_all(*self)
    }

    /// Returns the lone known in this set, if it has exactly one.
    pub fn as_single(&self) -> (r: Option<Known>)
        ensures
            self@.len() == 1 ==> (r matches Some(d) && self@ == set![d@]),
            self@.len() != 1 ==> r is None,
    {
        if self.len() != 1 {
            None
        } else {
            let d = self.first().unwrap();
            proof {
                self.lemma_view();
                assert(self@ =~= set![d@]) by {
                    assert(self@.remove(d@).len() == 0);
                    assert forall|i: int| self@.contains(i) implies i == d@ by {
                        if i != d@ {
                            assert(self@.remove(d@).contains(i));
                        }
                    }
                }
            }
            Some(d)
        }
    }

    /// Returns the two knowns in this set in order, if it has exactly two.
    pub fn as_pair(&self) -> (r: Option<(Known, Known)>)
        ensures
            self@.len() == 2 ==> (r matches Some((a, b)) && a@ < b@ && self@ == set![a@, b@]),
            self@.len() != 2 ==> r is None,
    {
        if self.len() != 2 {
            None
        } else {
            let mut rest = *self;
            let a = rest.pop().unwrap();
            let b = rest.pop().unwrap();
            proof {
                self.lemma_view();
                rest.lemma_view();
                assert(rest@.len() == 0);
                assert(rest@ =~= Set::<int>::empty());
                assert(self@ =~= set![a@, b@]);
            }
            Some((a, b))
        }
    }

    /// Returns the three knowns in this set in order, if it has exactly three.
    pub fn as_triple(&self) -> (r: Option<(Known, Known, Known)>)
        ensures
            self@.len() == 3 ==> (r matches Some((a, b, c)) && a@ < b@ < c@ && self@ == set![
                a@,
                b@,
                c@,
            ]),
            self@.len() != 3 ==> r is None,
    {
        if self.len() != 3 {
            None
        } else {
            let mut rest = *self;
            let a = rest.pop().unwrap();
            let b = rest.pop().unwrap();
            let c = rest.pop().unwrap();
            proof {
                self.lemma_view();
                rest.lemma_view();
                assert(rest@.len() == 0);
                assert(rest@ =~= Set::<int>::empty());
                assert(self@ =~= set![a@, b@, c@]);
            }
            Some((a, b, c))
        }
    }

    /// Returns a copy of this set with `known` as a member.
    pub fn with(&self, known: Known) -> (r: Self)
        ensures
            r@ == self@.insert(known@),
    {
        proof {
            use_type_invariant(self);
        }
        let b = known.bit();
        proof {
            self.lemma_known(b, known@);
        }
        KnownSet(self.0 | b)
    }

    /// Adds `known` to this set.
    pub fn add(&mut self, known: Known)
        ensures
            final(self)@ == old(self)@.insert(known@),
    {
        *self = self.with(known);
    }

    /// Returns a copy of this set without `known` as a member.
    pub fn without(&self, known: Known) -> (r: Self)
        ensures
            r@ == self@.remove(known@),
    {
        proof {
            use_type_invariant(self);
        }
        let b = known.bit();
        proof {
            self.lemma_known(b, known@);
        }
        KnownSet(self.0 & !b)
    }

    /// Removes `known` from this set.
    pub fn remove(&mut self, known: Known)
        ensures
            final(self)@ == old(self)@.remove(known@),
    {
        *self = self.without(known);
    }

    /// Returns the lowest known in this set, if any.
    pub fn first(&self) -> (r: Option<Known>)
        ensures
            r is None <==> self@ == Set::<int>::empty(),
            r matches Some(d) ==> is_least(self@, d@),
    {
        match lowest_set_bit(self.0 as u128, 9) {
            Some(i) => Some(Known::new(i)),
            None => None,
        }
    }

    /// Removes and returns the lowest known in this set, if any.
    pub fn pop(&mut self) -> (r: Option<Known>)
        ensures
            r is None <==> old(self)@ == Set::<int>::empty(),
            r is None ==> final(self)@ == old(self)@,
            r matches Some(d) ==> is_least(old(self)@, d@) && final(self)@ == old(self)@.remove(
                d@,
            ),
    {
        match self.first() {
            Some(known) => {
                self.remove(known);
                Some(known)
            },
            None => None,
        }
    }

    /// Returns the combined members of this set and `set`.
    pub fn union(&self, set: Self) -> (r: Self)
        ensures
            r@ == self@.union(set@),
    {
        proof {
            use_type_invariant(self);
            use_type_invariant(&set);
            self.lemma_facts(set);
            if self.0 == set.0 {
                assert(self@.union(set@) =~= self@);
            }
        }
        if self.0 == set.0 {
            *self
        } else {
            KnownSet(self.0 | set.0)
        }
    }

    /// Adds the members of `set` to this set.
    pub fn union_with(&mut self, set: Self)
        ensures
            final(self)@ == old(self)@.union(set@),
    {
        *self = self.union(set);
    }

    /// Returns the common members of this set and `set`.
    pub fn intersect(&self, set: Self) -> (r: Self)
        ensures
            r@ == self@.intersect(set@),
    {
        proof {
            use_type_invariant(self);
            use_type_invariant(&set);
            self.lemma_facts(set);
            if self.0 == set.0 {
                assert(self@.intersect(set@) =~= self@);
            }
        }
        if self.0 == set.0 {
            *self
        } else {
            KnownSet(self.0 & set.0)
        }
    }

    /// Removes all members of this set that are not members of `set`.
    pub fn intersect_with(&mut self, set: Self)
        ensures
            final(self)@ == old(self)@.intersect(set@),
    {
        *self = self.intersect(set);
    }

    /// Returns the members of this set that are not in `set`.
    pub fn minus(&self, set: Self) -> (r: Self)
        ensures
            r@ == self@.difference(set@),
    {
        proof {
            use_type_invariant(self);
            use_type_invariant(&set);
            self.lemma_facts(set);
            if self.0 == set.0 {
                assert(self@.difference(set@) =~= Set::<int>::empty());
            }
        }
        if self.0 == set.0 {
            KnownSet::empty()
        } else {
            KnownSet(self.0 & !set.0)
        }
    }

    /// Removes all members of `set` from this set.
    pub fn subtract(&mut self, set: Self)
        ensures
            final(self)@ == old(self)@.difference(set@),
    {
        *self = self.minus(set);
    }

    /// Returns the knowns that are not in this set.
    pub fn inverted(&self) -> (r: Self)
        ensures
            r@ == set_int_range(0, 9).difference(self@),
    {
        proof {
            use_type_invariant(self);
            self.lemma_facts(*self);
        }
        KnownSet(!self.0 & ALL_SET)
    }

    /// Replaces this set by the knowns that are not in it.
    pub fn invert(&mut self)
        ensures
            final(self)@ == set_int_range(0, 9).difference(old(self)@),
    {
        *self = self.inverted();
    }

    /// Returns an iterator over the members of this set in increasing order.
    pub fn iter(&self) -> (r: Iter)
        ensures
            r@ == self@,
    {
        proof {
            use_type_invariant(self);
        }
        Iter { bits: self.0 }
    }

    /// Returns the size and the membership of each known as a debug string.
    pub fn debug(&self) -> (r: String)
        ensures
            r@ == seq![(48 + self@.len()) as char, ':'] + Seq::new(
                9,
                |i: int|
                    if self@.contains(i) {
                        '1'
                    } else {
                        '0'
                    },
            ),
    {
        let mut s = String::new();
        let n = self.len();
        push_char(&mut s, (48u8 + n as u8) as char);
        push_char(&mut s, ':');
        let mut i: u32 = 0;
        while i < 9
            invariant
                i <= 9,
                n == self@.len(),
                s@ == seq![(48 + self@.len()) as char, ':'] + Seq::new(
                    i as nat,
                    |k: int|
                        if self@.contains(k) {
                            '1'
                        } else {
                            '0'
                        },
                ),
            decreases 9 - i,
        {
            let c = if self.has(Known::new(i)) {
                '1'
            } else {
                '0'
            };
            push_char(&mut s, c);
            i = i + 1;
            proof {
                assert(s@ =~= seq![(48 + self@.len()) as char, ':'] + Seq::new(
                    i as nat,
                    |k: int|
                        if self@.contains(k) {
                            '1'
                        } else {
                            '0'
                        },
                ));
            }
        }
        s
    }

    /// Returns the knowns of this set in parentheses, with a marker for each missing known.
    pub fn to_string(&self) -> (r: String)
        ensures
            self@ == Set::<int>::empty() ==> r@ == seq![EMPTY_SET],
            self@ != Set::<int>::empty() ==> r@ == seq!['('] + Seq::new(
                9,
                |i: int|
                    if self@.contains(i) {
                        (49 + i) as char
                    } else {
                        MISSING
                    },
            ) + seq![')'],
    {
        let mut s = String::new();
        if self.is_empty() {
            push_char(&mut s, EMPTY_SET);
            proof {
                assert(s@ =~= seq![EMPTY_SET]);
            }
            return s;
        }
        push_char(&mut s, '(');
        let mut i: u32 = 0;
        while i < 9
            invariant
                i <= 9,
                s@ == seq!['('] + Seq::new(
                    i as nat,
                    |k: int|
                        if self@.contains(k) {
                            (49 + k) as char
                        } else {
                            MISSING
                        },
                ),
            decreases 9 - i,
        {
            let d = Known::new(i);
            let c = if self.has(d) {
                d.label()
            } else {
                MISSING
            };
            push_char(&mut s, c);
            i = i + 1;
            proof {
                assert(s@ =~= seq!['('] + Seq::new(
                    i as nat,
                    |k: int|
                        if self@.contains(k) {
                            (49 + k) as char
                        } else {
                            MISSING
                        },
                ));
            }
        }
        push_char(&mut s, ')');
        s
    }

    /// Returns the set of knowns listed in `values`, ignoring spaces and commas.
    pub fn try_from(values: &str) -> (r: Result<Self, KnownSetError>)
        ensures
            ({
                let cleaned = values@.filter(|c: char| not_separator(c));
                &&& (forall|i: int| 0 <= i < cleaned.len() ==> is_known_label(#[trigger] cleaned[i]))
                    <==> r is Ok
                &&& r matches Ok(set) ==> set@ == Set::new(
                    |d: int|
                        exists|i: int|
                            0 <= i < cleaned.len() && known_of_label(#[trigger] cleaned[i]) == d,
                )
                &&& r matches Err(KnownSetError::InvalidKnown { position, error }) ==> 1 <= position
                    <= cleaned.len() && !is_known_label(cleaned[position - 1]) && error
                    == KnownError::InvalidValue(error->0) && error->0@ == seq![cleaned[position - 1]]
                    && forall|i: int| 0 <= i < position - 1 ==> is_known_label(#[trigger] cleaned[i])
            }),
    {
        let ghost p = |c: char| not_separator(c);
        let ghost cleaned = values@.filter(p);
        let n = values.unicode_len();
        let mut set = KnownSet::empty();
        let mut position: usize = 0;
        let mut i: usize = 0;
        proof {
            assert(values@.subrange(0, 0) =~= Seq::<char>::empty());
            reveal(Seq::filter);
            assert(set@ =~= Set::new(
                |d: int| exists|k: int| 0 <= k < position && known_of_label(#[trigger] cleaned[k]) == d,
            ));
        }
        while i < n
            invariant
                n == values@.len(),
                i <= n,
                p == (|c: char| not_separator(c)),
                cleaned == values@.filter(p),
                position == values@.subrange(0, i as int).filter(p).len(),
                forall|k: int| 0 <= k < position ==> cleaned[k] == #[trigger] values@.subrange(0, i as int).filter(p)[k],
                position <= cleaned.len(),
                forall|k: int| 0 <= k < position ==> is_known_label(#[trigger] cleaned[k]),
                set@ == Set::new(
                    |d: int| exists|k: int| 0 <= k < position && known_of_label(#[trigger] cleaned[k]) == d,
                ),
            decreases n - i,
        {
            let c = values.get_char(i);
            proof {
                lemma_filter_prefix(values@, i as int, p);
                lemma_filter_prefix(values@, i as int, p);
                values@.lemma_filter_len(p);
                values@.subrange(0, i + 1).lemma_filter_len(p);
                values@.subrange(i + 1, n as int).lemma_filter_len(p);
                assert(values@.subrange(0, i + 1) + values@.subrange(i + 1, n as int) =~= values@);
                Seq::filter_distributes_over_add(values@.subrange(0, i + 1), values@.subrange(i + 1, n as int), p);
            }
            if c != ' ' && c != ',' {
                match Known::try_from(c) {
                    Ok(known) => {
                        let ghost old_set = set@;
                        set.add(known);
                        proof {
                            assert(cleaned[position as int] == c);
                            assert(set@ =~= Set::new(
                                |d: int| exists|k: int| 0 <= k < position + 1 && known_of_label(#[trigger] cleaned[k]) == d,
                            )) by {
                                assert forall|d: int| set@.contains(d) implies exists|k: int| 0 <= k < position + 1 && known_of_label(#[trigger] cleaned[k]) == d by {
                                    if d == known@ {
                                        assert(known_of_label(cleaned[position as int]) == d);
                                    }
                                }
                                assert forall|d: int| (exists|k: int| 0 <= k < position + 1 && known_of_label(#[trigger] cleaned[k]) == d) implies set@.contains(d) by {
                                    let k = choose|k: int| 0 <= k < position + 1 && known_of_label(#[trigger] cleaned[k]) == d;
                                    if k < position {
                                        assert(old_set.contains(d));
                                    }
                                }
                            }
                        }
                        position = position + 1;
                    },
                    Err(error) => {
                        proof {
                            assert(cleaned[position as int] == c);
                        }
                        return Err(KnownSetError::InvalidKnown { position: position + 1, error });
                    },
                }
            }
            i = i + 1;
        }
        proof {
            assert(values@.subrange(0, n as int) =~= values@);
            assert forall|d: int| #![auto] set@.contains(d) == (exists|k: int| 0 <= k < cleaned.len() && known_of_label(#[trigger] cleaned[k]) == d) by {}
            assert(set@ =~= Set::new(
                |d: int| exists|k: int| 0 <= k < cleaned.len() && known_of_label(#[trigger] cleaned[k]) == d,
            ));
        }
        Ok(set)
    }
}

/// Iterates over the members of a known set in increasing order.
pub struct Iter {
    bits: u16,
}

impl Iter {
    /// The members not yet returned.
    pub closed spec fn view(&self) -> Set<int> {
        view9(self.bits)
    }

    /// The members left form a finite set.
    pub proof fn lemma_view(self)
        ensures
            self@.finite(),
    {
        lemma_view_len(self.bits as u128, 9);
    }

    /// Returns the lowest member not yet returned, if any.
    pub fn next(&mut self) -> (r: Option<Known>)
        ensures
            r is None <==> old(self)@ == Set::<int>::empty(),
            r is None ==> final(self)@ == old(self)@,
            r matches Some(d) ==> is_least(old(self)@, d@) && final(self)@ == old(self)@.remove(
                d@,
            ),
    {
        match lowest_set_bit(self.bits as u128, 9) {
            Some(i) => {
                let d = Known::new(i);
                let b = d.bit();
                proof {
                    lemma_widen16();
                    lemma_view_single(self.bits as u128, i as int, 9);
                }
                self.bits = self.bits & !b;
                Some(d)
            },
            None => None,
        }
    }
}

} // verus!
