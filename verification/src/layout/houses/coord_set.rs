use vstd::prelude::*;
use vstd::set_lib::set_int_range;

use crate::bits::{
    bits_view, count_set_bits, is_least, lemma_mask_bounds, lemma_view_equal, lemma_view_len,
    lemma_view_ops, lemma_view_single, lemma_widen16, low_mask, lowest_set_bit,
};
use crate::layout::houses::coord::{coord_of_label, is_coord_label, Coord};
use crate::layout::values::value::MISSING;
use crate::text::push_char;

verus! {

/// The character shown for an empty set.
pub const EMPTY_SET: char = crate::layout::values::digit_set::EMPTY_SET;

/// A set of coordinates in a house implemented using a bit field.
#[derive(Clone, Copy, Default, Hash, PartialEq, Eq, Structural, PartialOrd, Ord, Debug)]
pub struct CoordSet(u16);

/// The full set of nine coords as bits.
pub const ALL_SET: u16 = 0x1ff;

/// The members of a set of nine held in the bits `b`.
pub open spec fn view9(b: u16) -> Set<int> {
    bits_view(b as u128, 9)
}

/// The coordinates named by the decimal digits of `n`, each from 1.
pub open spec fn coords_of_decimal(n: int) -> Set<int>
    decreases n,
{
    if n <= 0 {
        Set::empty()
    } else {
        coords_of_decimal(n / 10).insert(n % 10 - 1)
    }
}

/// The decimal digits of `n` are nonzero and distinct.
pub open spec fn distinct_coord_digits(n: int) -> bool
    decreases n,
{
    n <= 0 || (n % 10 != 0 && !coords_of_decimal(n / 10).contains(n % 10 - 1) && distinct_coord_digits(n / 10))
}

impl CoordSet {
    #[verifier::type_invariant]
    spec fn inv(self) -> bool {
        self.0 <= ALL_SET
    }

    /// The zero-based indexes of the coords in this set.
    pub closed spec fn view(&self) -> Set<int> {
        view9(self.0)
    }

    /// Inverting a set twice gives the set back.
    pub proof fn lemma_invert_twice(self)
        ensures
            set_int_range(0, 9).difference(set_int_range(0, 9).difference(self@)) == self@,
    {
        self.lemma_view();
        assert(set_int_range(0, 9).difference(set_int_range(0, 9).difference(self@)) =~= self@);
    }

    /// Every set is a finite subset of the nine coords.
    pub proof fn lemma_view(self)
        ensures
            self@.finite(),
            self@.subset_of(set_int_range(0, 9)),
            self@.len() <= 9,
    {
        lemma_view_len(self.0 as u128, 9);
        lemma_view_ops(self.0 as u128, 0, 9);
        vstd::set_lib::lemma_int_range(0, 9);
        vstd::set_lib::lemma_len_subset(self@, set_int_range(0, 9));
    }

    proof fn lemma_facts(self, other: Self)
        requires
            self.0 <= ALL_SET,
            other.0 <= ALL_SET,
        ensures
            view9(self.0 | other.0) == self@.union(other@),
            view9(self.0 & other.0) == self@.intersect(other@),
            view9(self.0 & !other.0) == self@.difference(other@),
            view9(!self.0 & ALL_SET) == set_int_range(0, 9).difference(self@),
            view9(0) == Set::<int>::empty(),
            view9(ALL_SET) == set_int_range(0, 9),
            (self.0 == other.0) == (self@ == other@),
            self.0 | other.0 <= ALL_SET,
            self.0 & other.0 <= ALL_SET,
            self.0 & !other.0 <= ALL_SET,
            !self.0 & ALL_SET <= ALL_SET,
    {
        lemma_widen16();
        crate::bits::lemma_mask_values();
        lemma_view_ops(self.0 as u128, other.0 as u128, 9);
        lemma_view_equal(self.0 as u128, other.0 as u128, 9);
        lemma_mask_bounds(self.0 as u128, other.0 as u128, 9);
        assert(((self.0 & !other.0) as u128) == (self.0 as u128) & !(other.0 as u128));
        assert(((!self.0 & 0x1ffu16) as u128) == !(self.0 as u128) & 0x1ffu128);
    }

    proof fn lemma_coord(self, d: u16, j: int)
        requires
            self.0 <= ALL_SET,
            0 <= j < 9,
            d as u128 == 1u128 << (j as u128),
        ensures
            view9(d) == set![j],
            view9(self.0 | d) == self@.insert(j),
            view9(self.0 & !d) == self@.remove(j),
            (self.0 & d != 0) == self@.contains(j),
            self.0 | d <= ALL_SET,
            self.0 & !d <= ALL_SET,
            d <= ALL_SET,
    {
        lemma_widen16();
        crate::bits::lemma_mask_values();
        lemma_view_single(self.0 as u128, j, 9);
        crate::bits::lemma_low_mask();
        assert((1u128 << (j as u128)) <= low_mask(9));
        lemma_mask_bounds(self.0 as u128, d as u128, 9);
        assert(((self.0 & !d) as u128) == (self.0 as u128) & !(d as u128));
        assert(((self.0 | d) as u128) == (self.0 as u128) | (d as u128));
        assert(((self.0 & d) as u128) == (self.0 as u128) & (d as u128));
    }

    /// Returns a new empty set.
    pub fn empty() -> (r: Self)
        ensures
            r@ == Set::<int>::empty(),
    {
        let r = CoordSet(0);
        proof {
            r.lemma_facts(r);
        }
        r
    }

    /// Returns a new full set.
    pub fn full() -> (r: Self)
        ensures
            r@ == set_int_range(0, 9),
    {
        let r = CoordSet(ALL_SET);
        proof {
            r.lemma_facts(r);
        }
        r
    }

    /// Returns a new set from the raw bit field `bits`.
    pub fn new(bits: u16) -> (r: Self)
        requires
            bits <= ALL_SET,
        ensures
            r@ == view9(bits),
    {
        CoordSet(bits)
    }

    /// Returns a new set holding only `coord`.
    pub fn of(coord: Coord) -> (r: Self)
        ensures
            r@ == set![coord@],
    {
        let b = coord.bit();
        proof {
            CoordSet(0).lemma_coord(b, coord@);
        }
        CoordSet(b)
    }

    /// Returns true if this set is empty.
    pub fn is_empty(&self) -> (r: bool)
        ensures
            r == (self@ == Set::<int>::empty()),
    {
        proof {
            use_type_invariant(self);
            self.lemma_facts(CoordSet(0));
        }
        self.0 == 0
    }

    /// Returns true if this set is full.
    pub fn is_full(&self) -> (r: bool)
        ensures
            r == (self@ == set_int_range(0, 9)),
    {
        proof {
            use_type_invariant(self);
            self.lemma_facts(CoordSet(ALL_SET));
        }
        self.0 == ALL_SET
    }

    /// Returns the number of coords in this set.
    pub fn len(&self) -> (r: usize)
        ensures
            r == self@.len(),
            r <= 9,
    {
        count_set_bits(self.0 as u128, 9) as usize
    }

    /// Returns the raw bit field.
    pub fn bits(&self) -> (r: u16)
        ensures
            view9(r) == self@,
            r <= ALL_SET,
    {
        proof {
            use_type_invariant(self);
        }
        self.0
    }

    /// Returns true if `coord` is a member of this set.
    pub fn has(&self, coord: Coord) -> (r: bool)
        ensures
            r == self@.contains(coord@),
    {
        proof {
            use_type_invariant(self);
        }
        let b = coord.bit();
        proof {
            self.lemma_coord(b, coord@);
        }
        self.0 & b != 0
    }

    /// Returns true if at least one member of `set` is a member of this set.
    pub fn has_any(&self, set: Self) -> (r: bool)
        ensures
            r == !self@.disjoint(set@),
    {
        let both = self.intersect(set);
        let r = !both.is_empty();
        proof {
            if self@.disjoint(set@) {
                assert(both@ =~= Set::<int>::empty());
            } else {
                let i = choose|i: int| self@.contains(i) && set@.contains(i);
                assert(both@.contains(i));
            }
        }
        r
    }

    /// Returns true if all members of `subset` are members of this set.
    pub fn has_all(&self, subset: Self) -> (r: bool)
        ensures
            r == subset@.subset_of(self@),
    {
        proof {
            use_type_invariant(self);
            use_type_invariant(&subset);
            self.lemma_facts(subset);
            CoordSet(self.0 & subset.0).lemma_facts(subset);
            if subset@.subset_of(self@) {
                assert(self@.intersect(subset@) =~= subset@);
            }
        }
        self.0 & subset.0 == subset.0
    }

    /// Returns true if all members of this set are members of `superset`.
    pub fn is_subset_of(&self, superset: Self) -> (r: bool)
        ensures
            r == self@.subset_of(superset@),
    {
        superset.has_all(*self)
    }

    /// Returns the lone coord in this set, if it has exactly one.
    pub fn as_single(&self) -> (r: Option<Coord>)
        ensures
            self@.len() == 1 ==> (r matches Some(d) && self@ == set![d@]),
            self@.len() != 1 ==> r is None,
    {
        if self.len() != 1 {
            None
        } else {
            let d = self.first().unwrap();
            proof {
                self.lemma_view();
                assert(self@ =~= set![d@]) by {
                    assert(self@.remove(d@).len() == 0);
                    assert forall|i: int| self@.contains(i) implies i == d@ by {
                        if i != d@ {
                            assert(self@.remove(d@).contains(i));
                        }
                    }
                }
            }
            Some(d)
        }
    }

    /// Returns the two coords in this set in order, if it has exactly two.
    pub fn as_pair(&self) -> (r: Option<(Coord, Coord)>)
        ensures
            self@.len() == 2 ==> (r matches Some((a, b)) && a@ < b@ && self@ == set![a@, b@]),
            self@.len() != 2 ==> r is None,
    {
        if self.len() != 2 {
            None
        } else {
            let mut rest = *self;
            let a = rest.pop().unwrap();
            let b = rest.pop().unwrap();
            proof {
                self.lemma_view();
                rest.lemma_view();
                assert(rest@.len() == 0);
                assert(rest@ =~= Set::<int>::empty());
                assert(self@ =~= set![a@, b@]);
            }
            Some((a, b))
        }
    }

    /// Returns the three coords in this set in order, if it has exactly three.
    pub fn as_triple(&self) -> (r: Option<(Coord, Coord, Coord)>)
        ensures
            self@.len() == 3 ==> (r matches Some((a, b, c)) && a@ < b@ < c@ && self@ == set![
                a@,
                b@,
                c@,
            ]),
            self@.len() != 3 ==> r is None,
    {
        if self.len() != 3 {
            None
        } else {
            let mut rest = *self;
            let a = rest.pop().unwrap();
            let b = rest.pop().unwrap();
            let c = rest.pop().unwrap();
            proof {
                self.lemma_view();
                rest.lemma_view();
                assert(rest@.len() == 0);
                assert(rest@ =~= Set::<int>::empty());
                assert(self@ =~= set![a@, b@, c@]);
            }
            Some((a, b, c))
        }
    }

    /// Returns a copy of this set with `coord` as a member.
    pub fn with(&self, coord: Coord) -> (r: Self)
        ensures
            r@ == self@.insert(coord@),
    {
        proof {
            use_type_invariant(self);
        }
        let b = coord.bit();
        proof {
            self.lemma_coord(b, coord@);
        }
        CoordSet(self.0 | b)
    }

    /// Adds `coord` to this set.
    pub fn add(&mut self, coord: Coord)
        ensures
            final(self)@ == old(self)@.insert(coord@),
    {
        *self = self.with(coord);
    }

    /// Returns a copy of this set without `coord` as a member.
    pub fn without(&self, coord: Coord) -> (r: Self)
        ensures
            r@ == self@.remove(coord@),
    {
        proof {
            use_type_invariant(self);
        }
        let b = coord.bit();
        proof {
            self.lemma_coord(b, coord@);
        }
        CoordSet(self.0 & !b)
    }

    /// Removes `coord` from this set.
    pub fn remove(&mut self, coord: Coord)
        ensures
            final(self)@ == old(self)@.remove(coord@),
    {
        *self = self.without(coord);
    }

    /// Returns the lowest coord in this set, if any.
    pub fn first(&self) -> (r: Option<Coord>)
        ensures
            r is None <==> self@ == Set::<int>::empty(),
            r matches Some(d) ==> is_least(self@, d@),
    {
        match lowest_set_bit(self.0 as u128, 9) {
            Some(i) => Some(Coord::new(i as u8)),
            None => None,
        }
    }

    /// Removes and returns the lowest coord in this set, if any.
    pub fn pop(&mut self) -> (r: Option<Coord>)
        ensures
            r is None <==> old(self)@ == Set::<int>::empty(),
            r is None ==> final(self)@ == old(self)@,
            r matches Some(d) ==> is_least(old(self)@, d@) && final(self)@ == old(self)@.remove(
                d@,
            ),
    {
        match self.first() {
            Some(coord) => {
                self.remove(coord);
                Some(coord)
            },
            None => None,
        }
    }

    /// Returns the combined members of this set and `set`.
    pub fn union(&self, set: Self) -> (r: Self)
        ensures
            r@ == self@.union(set@),
    {
        proof {
            use_type_invariant(self);
            use_type_invariant(&set);
            self.lemma_facts(set);
            if self.0 == set.0 {
                assert(self@.union(set@) =~= self@);
            }
        }
        if self.0 == set.0 {
            *self
        } else {
            CoordSet(self.0 | set.0)
        }
    }

    /// Adds the members of `set` to this set.
    pub fn union_with(&mut self, set: Self)
        ensures
            final(self)@ == old(self)@.union(set@),
    {
        *self = self.union(set);
    }

    /// Returns the common members of this set and `set`.
    pub fn intersect(&self, set: Self) -> (r: Self)
        ensures
            r@ == self@.intersect(set@),
    {
        proof {
            use_type_invariant(self);
            use_type_invariant(&set);
            self.lemma_facts(set);
            if self.0 == set.0 {
                assert(self@.intersect(set@) =~= self@);
            }
        }
        if self.0 == set.0 {
            *self
        } else {
            CoordSet(self.0 & set.0)
        }
    }

    /// Removes all members of this set that are not members of `set`.
    pub fn intersect_with(&mut self, set: Self)
        ensures
            final(self)@ == old(self)@.intersect(set@),
    {
        *self = self.intersect(set);
    }

    /// Returns the members of this set that are not in `set`.
    pub fn minus(&self, set: Self) -> (r: Self)
        ensures
            r@ == self@.difference(set@),
    {
        proof {
            use_type_invariant(self);
            use_type_invariant(&set);
            self.lemma_facts(set);
            if self.0 == set.0 {
                assert(self@.difference(set@) =~= Set::<int>::empty());
            }
        }
        if self.0 == set.0 {
            CoordSet::empty()
        } else {
            CoordSet(self.0 & !set.0)
        }
    }

    /// Removes all members of `set` from this set.
    pub fn subtract(&mut self, set: Self)
        ensures
            final(self)@ == old(self)@.difference(set@),
    {
        *self = self.minus(set);
    }

    /// Returns the coords that are not in this set.
    pub fn inverted(&self) -> (r: Self)
        ensures
            r@ == set_int_range(0, 9).difference(self@),
    {
        proof {
            use_type_invariant(self);
            self.lemma_facts(*self);
        }
        CoordSet(!self.0 & ALL_SET)
    }

    /// Replaces this set by the coords that are not in it.
    pub fn invert(&mut self)
        ensures
            final(self)@ == set_int_range(0, 9).difference(old(self)@),
    {
        *self = self.inverted();
    }

    /// Returns an iterator over the members of this set in increasing order.
    pub fn iter(&self) -> (r: Iter)
        ensures
            r@ == self@,
    {
        proof {
            use_type_invariant(self);
        }
        Iter { bits: self.0 }
    }

    /// Returns the size and the membership of each coord as a debug string.
    pub fn debug(&self) -> (r: String)
        ensures
            r@ == seq![(48 + self@.len()) as char, ':'] + Seq::new(
                9,
                |i: int|
                    if self@.contains(i) {
                        '1'
                    } else {
                        '0'
                    },
            ),
    {
        let mut s = String::new();
        let n = self.len();
        push_char(&mut s, (48u8 + n as u8) as char);
        push_char(&mut s, ':');
        let mut i: u32 = 0;
        while i < 9
            invariant
                i <= 9,
                n == self@.len(),
                s@ == seq![(48 + self@.len()) as char, ':'] + Seq::new(
                    i as nat,
                    |k: int|
                        if self@.contains(k) {
                            '1'
                        } else {
                            '0'
                        },
                ),
            decreases 9 - i,
        {
            let c = if self.has(Coord::new(i as u8)) {
                '1'
            } else {
                '0'
            };
            push_char(&mut s, c);
            i = i + 1;
            proof {
                assert(s@ =~= seq![(48 + self@.len()) as char, ':'] + Seq::new(
                    i as nat,
                    |k: int|
                        if self@.contains(k) {
                            '1'
                        } else {
                            '0'
                        },
                ));
            }
        }
        s
    }

    /// Returns the coords of this set in parentheses, with a marker for each missing coord.
    pub fn to_string(&self) -> (r: String)
        ensures
            self@ == Set::<int>::empty() ==> r@ == seq![EMPTY_SET],
            self@ != Set::<int>::empty() ==> r@ == seq!['('] + Seq::new(
                9,
                |i: int|
                    if self@.contains(i) {
                        (49 + i) as char
                    } else {
                        MISSING
                    },
            ) + seq![')'],
    {
        let mut s = String::new();
        if self.is_empty() {
            push_char(&mut s, EMPTY_SET);
            proof {
                assert(s@ =~= seq![EMPTY_SET]);
            }
            return s;
        }
        push_char(&mut s, '(');
        let mut i: u32 = 0;
        while i < 9
            invariant
                i <= 9,
                s@ == seq!['('] + Seq::new(
                    i as nat,
                    |k: int|
                        if self@.contains(k) {
                            (49 + k) as char
                        } else {
                            MISSING
                        },
                ),
            decreases 9 - i,
        {
            let d = Coord::new(i as u8);
            let c = if self.has(d) {
                d.label()
            } else {
                MISSING
            };
            push_char(&mut s, c);
            i = i + 1;
            proof {
                assert(s@ =~= seq!['('] + Seq::new(
                    i as nat,
                    |k: int|
                        if self@.contains(k) {
                            (49 + k) as char
                        } else {
                            MISSING
                        },
                ));
            }
        }
        push_char(&mut s, ')');
        s
    }

    /// Returns the set holding only `coord`.
    pub fn from_coord(coord: Coord) -> (r: Self)
        ensures
            r@ == set![coord@],
    {
        Self::of(coord)
    }

    /// Returns the set of the coordinates labelled '1' to '9' in `labels`.
    pub fn from_labels(labels: &str) -> (r: Self)
        requires
            forall|i: int| 0 <= i < labels@.len() ==> '1' <= #[trigger] labels@[i] <= '9',
        ensures
            r@ == Set::new(|k: int| exists|i: int| 0 <= i < labels@.len() && #[trigger] labels@[i] as int - 49 == k),
    {
        let n = labels.unicode_len();
        let mut set = Self::empty();
        let mut i: usize = 0;
        while i < n
            invariant
                n == labels@.len(),
                i <= n,
                forall|i: int| 0 <= i < labels@.len() ==> '1' <= #[trigger] labels@[i] <= '9',
                set@ == Set::new(|k: int| exists|j: int| 0 <= j < i && #[trigger] labels@[j] as int - 49 == k),
            decreases n - i,
        {
            let c = labels.get_char(i);
            let ghost before = set@;
            set.add(Coord::new(((c as u32) - 49) as u8));
            proof {
                assert(set@ =~= Set::new(|k: int| exists|j: int| 0 <= j < i + 1 && #[trigger] labels@[j] as int - 49 == k)) by {
                    assert forall|k: int| set@.contains(k) implies exists|j: int| 0 <= j < i + 1 && #[trigger] labels@[j] as int - 49 == k by {
                        if k == c as int - 49 {
                            assert(labels@[i as int] as int - 49 == k);
                        } else {
                            assert(before.contains(k));
                        }
                    }
                    assert forall|k: int| (exists|j: int| 0 <= j < i + 1 && #[trigger] labels@[j] as int - 49 == k) implies set@.contains(k) by {
                        let j = choose|j: int| 0 <= j < i + 1 && #[trigger] labels@[j] as int - 49 == k;
                        if j < i {
                            assert(before.contains(k));
                        }
                    }
                }
            }
            i = i + 1;
        }
        set
    }

    /// Returns the set of the coordinates named by the decimal digits of `coords`, each from 1.
    pub fn from_coords(coords: i32) -> (r: Self)
        requires
            distinct_coord_digits(coords as int),
        ensures
            r@ == coords_of_decimal(coords as int),
    {
        let mut rest = coords;
        let mut set = Self::empty();
        while rest > 0
            invariant
                distinct_coord_digits(rest as int),
                set@.union(coords_of_decimal(rest as int)) == coords_of_decimal(coords as int),
            decreases rest,
        {
            let c = rest % 10;
            let ghost before = set@;
            set.add(Coord::new((c - 1) as u8));
            proof {
                assert(set@.union(coords_of_decimal((rest / 10) as int)) =~= before.union(coords_of_decimal(rest as int)));
            }
            rest = rest / 10;
        }
        proof {
            assert(set@ =~= set@.union(coords_of_decimal(rest as int)));
        }
        set
    }

    /// Returns the set of the coordinates labelled in `labels`, each label standing alone
    /// and followed by a single space.
    pub fn from(labels: &str) -> (r: Self)
        requires
            labels@.len() % 2 == 1,
            forall|i: int| 0 <= i < labels@.len() && i % 2 == 0 ==> is_coord_label(#[trigger] labels@[i]),
            forall|i: int| 0 <= i < labels@.len() && i % 2 == 1 ==> #[trigger] labels@[i] == ' ',
        ensures
            r@ == Set::new(|k: int| exists|i: int| 0 <= i < labels@.len() && i % 2 == 0 && coord_of_label(#[trigger] labels@[i]) == k),
    {
        let n = labels.unicode_len();
        let mut set = Self::empty();
        let mut i: usize = 0;
        while i < n
            invariant
                n == labels@.len(),
                i <= n,
                i % 2 == 0 || i == n,
                n % 2 == 1,
                forall|i: int| 0 <= i < labels@.len() && i % 2 == 0 ==> is_coord_label(#[trigger] labels@[i]),
                set@ == Set::new(|k: int| exists|j: int| 0 <= j < i && j < n && j % 2 == 0 && coord_of_label(#[trigger] labels@[j]) == k),
            decreases n - i,
        {
            let c = labels.get_char(i);
            let ghost before = set@;
            match Coord::try_from(c) {
                Ok(coord) => {
                    set.add(coord);
                },
                Err(_) => {},
            }
            proof {
                assert(set@ =~= Set::new(|k: int| exists|j: int| 0 <= j < i + 2 && j < n && j % 2 == 0 && coord_of_label(#[trigger] labels@[j]) == k)) by {
                    assert forall|k: int| set@.contains(k) implies exists|j: int| 0 <= j < i + 2 && j < n && j % 2 == 0 && coord_of_label(#[trigger] labels@[j]) == k by {
                        if k == coord_of_label(c) {
                            assert(coord_of_label(labels@[i as int]) == k);
                        } else {
                            assert(before.contains(k));
                        }
                    }
                    assert forall|k: int| (exists|j: int| 0 <= j < i + 2 && j < n && j % 2 == 0 && coord_of_label(#[trigger] labels@[j]) == k) implies set@.contains(k) by {
                        let j = choose|j: int| 0 <= j < i + 2 && j < n && j % 2 == 0 && coord_of_label(#[trigger] labels@[j]) == k;
                        if j < i {
                            assert(before.contains(k));
                        } else {
                            assert(j == i);
                        }
                    }
                }
            }
            i = i + 1;
            if i < n {
                i = i + 1;
            }
        }
        proof {
            assert(set@ =~= Set::new(|k: int| exists|i: int| 0 <= i < labels@.len() && i % 2 == 0 && coord_of_label(#[trigger] labels@[i]) == k));
        }
        set
    }

}

/// Iterates over the members of a coord set in increasing order.
pub struct Iter {
    bits: u16,
}

impl Iter {
    /// The members not yet returned.
    pub closed spec fn view(&self) -> Set<int> {
        view9(self.bits)
    }

    /// The members left form a finite set.
    pub proof fn lemma_view(self)
        ensures
            self@.finite(),
    {
        lemma_view_len(self.bits as u128, 9);
    }

    /// Returns the lowest member not yet returned, if any.
    pub fn next(&mut self) -> (r: Option<Coord>)
        ensures
            r is None <==> old(self)@ == Set::<int>::empty(),
            r is None ==> final(self)@ == old(self)@,
            r matches Some(d) ==> is_least(old(self)@, d@) && final(self)@ == old(self)@.remove(
                d@,
            ),
    {
        match lowest_set_bit(self.bits as u128, 9) {
            Some(i) => {
                let d = Coord::new(i as u8);
                let b = d.bit();
                proof {
                    lemma_widen16();
                    lemma_view_single(self.bits as u128, i as int, 9);
                }
                self.bits = self.bits & !b;
                Some(d)
            },
            None => None,
        }
    }
}

} // verus!
