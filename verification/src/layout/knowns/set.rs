use vstd::prelude::*;
use vstd::set_lib::set_int_range;

use crate::bits::{is_least, lowest_set_bit};
use crate::layout::knowns::known::Known;
use crate::packed::{
    lemma_mask9_distributes, lemma_packs16, lemma_view16_ops, pack16_add, pack16_new, pack16_remove,
    packs16, view16, MASK9,
};
use crate::text::{push_char, push_str, string_of_char};

verus! {

/// The mark shown for a known missing from a set.
pub const MISSING: char = '·';

/// The mark shown for an empty set.
pub const EMPTY: char = '∅';

/// A set of knowns implemented using a bit field with its size above the members.
#[derive(Clone, Copy, Default, PartialEq, Eq, Structural, Debug)]
pub struct KnownSet(u16);

impl KnownSet {
    #[verifier::type_invariant]
    spec fn inv(self) -> bool {
        packs16(self.0, self.0 & MASK9)
    }

    /// The zero-based indexes of the knowns in this set.
    pub closed spec fn view(&self) -> Set<int> {
        view16(self.0 & MASK9)
    }

    /// Every set is a finite subset of the nine knowns.
    pub proof fn lemma_view(self)
        ensures
            self@.finite(),
            self@.subset_of(set_int_range(0, 9)),
    {
        crate::bits::lemma_view_len((self.0 & MASK9) as u128, 9);
        crate::bits::lemma_view_ops((self.0 & MASK9) as u128, 0, 9);
    }

    fn from_bits(bits: u16) -> (r: Self)
        requires
            bits <= MASK9,
        ensures
            r@ == view16(bits),
    {
        let p = pack16_new(bits);
        proof {
            lemma_packs16(p, bits);
        }
        KnownSet(p)
    }

    /// Returns a new empty set.
    pub fn empty() -> (r: Self)
        ensures
            r@ == Set::<int>::empty(),
    {
        proof {
            lemma_view16_ops(0, 0);
        }
        Self::from_bits(0)
    }

    /// Returns a new full set.
    pub fn full() -> (r: Self)
        ensures
            r@ == set_int_range(0, 9),
    {
        proof {
            lemma_view16_ops(MASK9, 0);
        }
        Self::from_bits(MASK9)
    }

    /// Returns a new set from the raw bit field `knowns`.
    pub fn new(knowns: u16) -> (r: Self)
        requires
            knowns <= MASK9,
        ensures
            r@ == view16(knowns),
    {
        Self::from_bits(knowns)
    }

    /// Returns true if this set is empty.
    pub fn is_empty(&self) -> (r: bool)
        ensures
            r == (self@ == Set::<int>::empty()),
    {
        proof {
            use_type_invariant(self);
            lemma_packs16(self.0, self.0 & MASK9);
            lemma_view16_ops(self.0 & MASK9, 0);
        }
        self.0 == 0
    }

    /// Returns true if this set is full.
    pub fn is_full(&self) -> (r: bool)
        ensures
            r == (self@ == set_int_range(0, 9)),
    {
        let full = KnownSet::full();
        proof {
            use_type_invariant(self);
            use_type_invariant(&full);
            lemma_packs16(self.0, self.0 & MASK9);
            lemma_packs16(full.0, full.0 & MASK9);
            lemma_view16_ops(self.0 & MASK9, full.0 & MASK9);
        }
        self.0 == full.0
    }

    /// Returns the number of knowns in this set.
    pub fn size(&self) -> (r: u16)
        ensures
            r == self@.len(),
    {
        proof {
            use_type_invariant(self);
            lemma_packs16(self.0, self.0 & MASK9);
        }
        self.0 >> 12u16
    }

    /// Returns the raw bit field of the members.
    pub fn bits(&self) -> (r: u16)
        ensures
            r <= MASK9,
            view16(r) == self@,
    {
        proof {
            use_type_invariant(self);
        }
        self.0 & MASK9
    }

    /// Returns true if `known` is a member of this set.
    pub fn has(&self, known: Known) -> (r: bool)
        ensures
            r == self@.contains(known@),
    {
        let b = known.bit();
        proof {
            use_type_invariant(self);
            lemma_packs16(self.0, self.0 & MASK9);
            crate::packed::lemma_member16_pub(self.0 & MASK9, known@ as u16, b);
        }
        self.0 & b != 0
    }

    /// Returns a copy of this set with `known` as a member.
    pub fn with(&self, known: Known) -> (r: Self)
        ensures
            r@ == self@.insert(known@),
    {
        let mut copy = *self;
        copy.add(known);
        copy
    }

    /// Adds `known` to this set.
    pub fn add(&mut self, known: Known)
        ensures
            final(self)@ == old(self)@.insert(known@),
    {
        proof {
            use_type_invariant(&*self);
        }
        let j = known.usize() as u16;
        let (p, Ghost(b)) = pack16_add(self.0, Ghost(self.0 & MASK9), j);
        proof {
            lemma_packs16(p, b);
        }
        self.0 = p;
    }

    /// Returns a copy of this set without `known` as a member.
    pub fn without(&self, known: Known) -> (r: Self)
        ensures
            r@ == self@.remove(known@),
    {
        let mut copy = *self;
        copy.remove(known);
        copy
    }

    /// Removes `known` from this set.
    pub fn remove(&mut self, known: Known)
        ensures
            final(self)@ == old(self)@.remove(known@),
    {
        proof {
            use_type_invariant(&*self);
        }
        let j = known.usize() as u16;
        let (p, Ghost(b)) = pack16_remove(self.0, Ghost(self.0 & MASK9), j);
        proof {
            lemma_packs16(p, b);
        }
        self.0 = p;
    }

    /// Returns the combined members of this set and `set`.
    pub fn union(&self, set: Self) -> (r: Self)
        ensures
            r@ == self@.union(set@),
    {
        proof {
            use_type_invariant(self);
            use_type_invariant(&set);
            lemma_packs16(self.0, self.0 & MASK9);
            lemma_packs16(set.0, set.0 & MASK9);
            lemma_mask9_distributes();
            lemma_view16_ops(self.0 & MASK9, set.0 & MASK9);
            if self.0 == set.0 {
                assert(self@.union(set@) =~= self@);
            }
        }
        if self.0 == set.0 {
            *self
        } else {
            KnownSet::from_bits((self.0 | set.0) & MASK9)
        }
    }

    /// Adds the members of `set` to this set.
    pub fn union_with(&mut self, set: Self)
        ensures
            final(self)@ == old(self)@.union(set@),
    {
        *self = self.union(set);
    }

    /// Returns the common members of this set and `set`.
    pub fn intersect(&self, set: Self) -> (r: Self)
        ensures
            r@ == self@.intersect(set@),
    {
        proof {
            use_type_invariant(self);
            use_type_invariant(&set);
            lemma_packs16(self.0, self.0 & MASK9);
            lemma_packs16(set.0, set.0 & MASK9);
            lemma_mask9_distributes();
            lemma_view16_ops(self.0 & MASK9, set.0 & MASK9);
            if self.0 == set.0 {
                assert(self@.intersect(set@) =~= self@);
            }
        }
        if self.0 == set.0 {
            *self
        } else {
            KnownSet::from_bits((self.0 & set.0) & MASK9)
        }
    }

    /// Removes all members of this set that are not members of `set`.
    pub fn intersect_with(&mut self, set: Self)
        ensures
            final(self)@ == old(self)@.intersect(set@),
    {
        *self = self.intersect(set);
    }

    /// Returns the members of this set that are not in `set`.
    pub fn minus(&self, set: Self) -> (r: Self)
        ensures
            r@ == self@.difference(set@),
    {
        proof {
            use_type_invariant(self);
            use_type_invariant(&set);
            lemma_packs16(self.0, self.0 & MASK9);
            lemma_packs16(set.0, set.0 & MASK9);
            lemma_mask9_distributes();
            lemma_view16_ops(self.0 & MASK9, set.0 & MASK9);
            if self.0 == set.0 {
                assert(self@.difference(set@) =~= Set::<int>::empty());
            }
        }
        if self.0 == set.0 {
            KnownSet::empty()
        } else {
            KnownSet::from_bits((self.0 & !set.0) & MASK9)
        }
    }

    /// Removes all members of `set` from this set.
    pub fn subtract(&mut self, set: Self)
        ensures
            final(self)@ == old(self)@.difference(set@),
    {
        *self = self.minus(set);
    }

    /// Returns the knowns that are not in this set.
    pub fn inverted(&self) -> (r: Self)
        ensures
            r@ == set_int_range(0, 9).difference(self@),
    {
        let full = KnownSet::full();
        proof {
            use_type_invariant(self);
            use_type_invariant(&full);
            lemma_packs16(self.0, self.0 & MASK9);
            lemma_packs16(full.0, full.0 & MASK9);
        }
        if self.0 == 0 {
            proof {
                lemma_view16_ops(0, 0);
                assert(set_int_range(0, 9).difference(self@) =~= set_int_range(0, 9));
            }
            full
        } else if self.0 == full.0 {
            proof {
                assert(set_int_range(0, 9).difference(self@) =~= Set::<int>::empty());
            }
            KnownSet::empty()
        } else {
            proof {
                lemma_mask9_distributes();
                lemma_view16_ops(self.0 & MASK9, 0);
                assert((!self.0 & MASK9) == !(self.0 & MASK9) & MASK9) by {
                    crate::packed::lemma_not_mask9(self.0);
                }
            }
            KnownSet::from_bits(!self.0 & MASK9)
        }
    }

    /// Replaces this set by the knowns that are not in it.
    pub fn invert(&mut self)
        ensures
            final(self)@ == set_int_range(0, 9).difference(old(self)@),
    {
        *self = self.inverted();
    }

    /// Returns an iterator over the members of this set in increasing order.
    pub fn iter(&self) -> (r: Iter)
        ensures
            r@ == self@,
    {
        Iter { bits: self.bits() }
    }

    /// Returns the size and the bits of this set, highest known first, as a debug string.
    pub fn debug(&self) -> (r: String)
        ensures
            r@ == seq![(48 + self@.len()) as char, ':'] + Seq::new(
                9,
                |i: int|
                    if self@.contains(8 - i) {
                        '1'
                    } else {
                        '0'
                    },
            ),
    {
        let mut s = String::new();
        let n = self.size();
        proof {
            self.lemma_view();
            vstd::set_lib::lemma_int_range(0, 9);
            vstd::set_lib::lemma_len_subset(self@, set_int_range(0, 9));
        }
        push_char(&mut s, (48u8 + n as u8) as char);
        push_char(&mut s, ':');
        let mut i: u8 = 0;
        while i < 9
            invariant
                i <= 9,
                n == self@.len(),
                s@ == seq![(48 + self@.len()) as char, ':'] + Seq::new(
                    i as nat,
                    |k: int|
                        if self@.contains(8 - k) {
                            '1'
                        } else {
                            '0'
                        },
                ),
            decreases 9 - i,
        {
            let c = if self.has(Known::from_index(8 - i)) {
                '1'
            } else {
                '0'
            };
            push_char(&mut s, c);
            i = i + 1;
            proof {
                assert(s@ =~= seq![(48 + self@.len()) as char, ':'] + Seq::new(
                    i as nat,
                    |k: int|
                        if self@.contains(8 - k) {
                            '1'
                        } else {
                            '0'
                        },
                ));
            }
        }
        s
    }

    /// Returns the set of the knowns labelled in `labels`: each label's first character
    /// names the known, and labels are separated by single spaces.
    pub fn from(labels: &str) -> (r: Self)
        requires
            labels@.len() % 2 == 1,
            forall|i: int| 0 <= i < labels@.len() && i % 2 == 0 ==> '1' <= #[trigger] labels@[i] <= '9',
            forall|i: int| 0 <= i < labels@.len() && i % 2 == 1 ==> #[trigger] labels@[i] == ' ',
        ensures
            r@ == Set::new(|k: int| exists|i: int| 0 <= i < labels@.len() && i % 2 == 0 && #[trigger] labels@[i] as int - 49 == k),
    {
        let n = labels.unicode_len();
        let mut set = Self::empty();
        let mut i: usize = 0;
        while i < n
            invariant
                n == labels@.len(),
                i <= n,
                i % 2 == 0 || i == n,
                n % 2 == 1,
                forall|i: int| 0 <= i < labels@.len() && i % 2 == 0 ==> '1' <= #[trigger] labels@[i] <= '9',
                set@ == Set::new(|k: int| exists|j: int| 0 <= j < i && j < n && j % 2 == 0 && #[trigger] labels@[j] as int - 49 == k),
            decreases n - i,
        {
            let c = labels.get_char(i);
            let ghost before = set@;
            set.add(Known::from_char(c));
            proof {
                assert(set@ =~= Set::new(|k: int| exists|j: int| 0 <= j < i + 2 && j < n && j % 2 == 0 && #[trigger] labels@[j] as int - 49 == k)) by {
                    assert forall|k: int| set@.contains(k) implies exists|j: int| 0 <= j < i + 2 && j < n && j % 2 == 0 && #[trigger] labels@[j] as int - 49 == k by {
                        if !before.contains(k) {
                            assert(labels@[i as int] as int - 49 == k);
                        }
                    }
                    assert forall|k: int| (exists|j: int| 0 <= j < i + 2 && j < n && j % 2 == 0 && #[trigger] labels@[j] as int - 49 == k) implies set@.contains(k) by {
                        let j = choose|j: int| 0 <= j < i + 2 && j < n && j % 2 == 0 && #[trigger] labels@[j] as int - 49 == k;
                        if j < i {
                            assert(before.contains(k));
                        } else {
                            assert(j == i);
                        }
                    }
                }
            }
            i = i + 1;
            if i < n {
                i = i + 1;
            }
        }
        proof {
            assert(set@ =~= Set::new(|k: int| exists|i: int| 0 <= i < labels@.len() && i % 2 == 0 && #[trigger] labels@[i] as int - 49 == k));
        }
        set
    }

    /// Returns the knowns of this set in parentheses, with a mark for each missing known.
    pub fn to_string(&self) -> (r: String)
        ensures
            self@ == Set::<int>::empty() ==> r@ == seq![EMPTY],
            self@ != Set::<int>::empty() ==> r@ == seq!['('] + Seq::new(
                9,
                |i: int|
                    if self@.contains(i) {
                        (49 + i) as char
                    } else {
                        MISSING
                    },
            ) + seq![')'],
    {
        if self.is_empty() {
            return string_of_char(EMPTY);
        }
        let mut s = String::new();
        push_char(&mut s, '(');
        let mut i: u8 = 0;
        while i < 9
            invariant
                i <= 9,
                s@ == seq!['('] + Seq::new(
                    i as nat,
                    |k: int|
                        if self@.contains(k) {
                            (49 + k) as char
                        } else {
                            MISSING
                        },
                ),
            decreases 9 - i,
        {
            let known = Known::from_index(i);
            if self.has(known) {
                let label = known.label();
                push_str(&mut s, label.as_str());
            } else {
                push_char(&mut s, MISSING);
            }
            i = i + 1;
            proof {
                assert(s@ =~= seq!['('] + Seq::new(
                    i as nat,
                    |k: int|
                        if self@.contains(k) {
                            (49 + k) as char
                        } else {
                            MISSING
                        },
                ));
            }
        }
        push_char(&mut s, ')');
        s
    }

    /// Returns true if this set is empty, as `!set` does.
    pub fn not(self) -> (r: bool)
        ensures
            r == (self@ == Set::<int>::empty()),
    {
        self.is_empty()
    }

    /// Returns the knowns that are not in this set, as `-set` does.
    pub fn neg(self) -> (r: Self)
        ensures
            r@ == set_int_range(0, 9).difference(self@),
    {
        self.inverted()
    }
}

/// Iterates over the members of a known set in increasing order.
pub struct Iter {
    bits: u16,
}

impl Iter {
    /// The members not yet returned.
    pub closed spec fn view(&self) -> Set<int> {
        view16(self.bits)
    }

    /// Returns the lowest member not yet returned, if any.
    pub fn next(&mut self) -> (r: Option<Known>)
        ensures
            r is None <==> old(self)@ == Set::<int>::empty(),
            r is None ==> final(self)@ == old(self)@,
            r matches Some(d) ==> is_least(old(self)@, d@) && final(self)@ == old(self)@.remove(d@),
    {
        match lowest_set_bit(self.bits as u128, 9) {
            Some(i) => {
                let d = Known::from_index(i as u8);
                let b = d.bit();
                proof {
                    crate::bits::lemma_widen16();
                    crate::bits::lemma_view_single(self.bits as u128, i as int, 9);
                    assert(((self.bits & !b) as u128) == (self.bits as u128) & !(b as u128));
                }
                self.bits = self.bits & !b;
                Some(d)
            },
            None => None,
        }
    }
}

} // verus!
