//! Sets of the nine coordinates of a house, kept as a word of bits and a count.
use vstd::prelude::*;
use vstd::set_lib::set_int_range;

use crate::bits::{count_bits, count_set_bits, lemma_view_len};
use crate::packed::{lemma_count16_step, lemma_member16, lemma_view16_ops, view16, MASK9};
use crate::text::push_char;

verus! {

/// The mark shown for a coordinate that is not in a set.
pub const MISSING: char = '·';

/// A set of coordinates from 0 to 8 with its size.
#[derive(Debug, Clone, Copy)]
pub struct CoordSet {
    bits: i16,
    size: i16,
}

/// The two's-complement negation of the nine-bit word `w`, kept to nine bits.
pub open spec fn negated(w: u16) -> u16 {
    ((512 - w) % 512) as u16
}

proof fn lemma_words()
    by (bit_vector)
    ensures
        forall|a: i16, b: i16|
            #![trigger a | b]
            0 <= a < 512 && 0 <= b < 512 ==> (a | b) as u16 == (a as u16) | (b as u16) && 0 <= a | b
                < 512,
        forall|a: i16, b: i16|
            #![trigger a & b]
            0 <= a < 512 ==> (a & b) as u16 == (a as u16) & (b as u16) && 0 <= a & b < 512,
        forall|b: i16|
            #![trigger -b]
            0 <= b < 512 ==> (((-b) as i16) as u16) & 0x1ffu16 == ((512 - b) % 512) as u16,
        forall|a: u16, x: u16| #![trigger a & x] a <= 0x1ffu16 ==> a & x == a & (x & 0x1ffu16),
{
}

proof fn lemma_coord_word(a: i16, j: i16)
    by (bit_vector)
    requires
        0 <= a < 512,
        0 <= j < 9,
    ensures
        0 < (1i16 << (j as u16)) <= 256,
        ((1i16 << (j as u16)) as u16) == 1u16 << (j as u16),
        (a & (1i16 << (j as u16)) == 0) == ((a as u16) & (1u16 << (j as u16)) == 0),
        a & (1i16 << (j as u16)) == 0 ==> a + (1i16 << (j as u16)) == a | (1i16 << (j as u16)) && ((a | (1i16 << (j as u16))) as u16) == (
        a as u16) | (1u16 << (j as u16)) && a + (1i16 << (j as u16)) < 512,
        a & (1i16 << (j as u16)) != 0 ==> a - (1i16 << (j as u16)) == a & !(1i16 << (j as u16)) && ((a & !(1i16 << (j as u16))) as u16) == (
        a as u16) & !(1u16 << (j as u16)) && a - (1i16 << (j as u16)) >= 0,
{
}

impl CoordSet {
    #[verifier::type_invariant]
    spec fn inv(self) -> bool {
        &&& 0 <= self.bits < 512
        &&& self.size == count_bits((self.bits as u16) as u128, 9)
    }

    /// The word of member bits of this set.
    pub closed spec fn word(&self) -> u16 {
        self.bits as u16
    }

    /// The coordinates in this set.
    pub open spec fn view(&self) -> Set<int> {
        view16(self.word())
    }

    /// Returns a new empty set.
    pub fn empty() -> (r: CoordSet)
        ensures
            r@ == Set::<int>::empty(),
            r.word() == 0,
    {
        proof {
            lemma_view16_ops(0, 0);
            lemma_view_len(0, 9);
            assert(count_bits(0, 9) == 0);
        }
        CoordSet { bits: 0, size: 0 }
    }

    /// Returns a new set holding all nine coordinates.
    pub fn full() -> (r: CoordSet)
        ensures
            r@ == set_int_range(0, 9),
            r.word() == MASK9,
    {
        proof {
            lemma_view16_ops(MASK9, 0);
            lemma_view_len(0x1ff, 9);
            vstd::set_lib::lemma_int_range(0, 9);
        }
        CoordSet { bits: 0b111111111, size: 9 }
    }

    /// Returns a new set holding each coordinate in `coords`.
    pub fn of(coords: &[i16]) -> (r: CoordSet)
        requires
            forall|i: int| 0 <= i < coords@.len() ==> 0 <= #[trigger] coords@[i] < 9,
        ensures
            r@ == Set::new(|c: int| exists|i: int| 0 <= i < coords@.len() && #[trigger] coords@[i] == c),
    {
        let mut set = CoordSet::empty();
        let mut i: usize = 0;
        while i < coords.len()
            invariant
                i <= coords@.len(),
                forall|k: int| 0 <= k < coords@.len() ==> 0 <= #[trigger] coords@[k] < 9,
                set@ == Set::new(|c: int| exists|k: int| 0 <= k < i && #[trigger] coords@[k] == c),
            decreases coords@.len() - i,
        {
            let ghost before = set@;
            set.add(coords[i]);
            proof {
                assert(set@ =~= Set::new(|c: int| exists|k: int| 0 <= k < i + 1 && #[trigger] coords@[k] == c)) by {
                    assert forall|c: int| set@.contains(c) implies exists|k: int| 0 <= k < i + 1 && #[trigger] coords@[k] == c by {
                        if !before.contains(c) {
                            assert(coords@[i as int] == c);
                        }
                    }
                    assert forall|c: int| (exists|k: int| 0 <= k < i + 1 && #[trigger] coords@[k] == c) implies set@.contains(c) by {
                        let k = choose|k: int| 0 <= k < i + 1 && #[trigger] coords@[k] == c;
                        if k < i {
                            assert(before.contains(c));
                        }
                    }
                }
            }
            i = i + 1;
        }
        set
    }

    /// Returns a new set holding the coordinates whose bits are set in `bits`.
    pub fn new(bits: i16) -> (r: CoordSet)
        requires
            0 <= bits < 512,
        ensures
            r.word() == bits,
            r@ == view16(bits as u16),
    {
        CoordSet { bits, size: coord_set_size(bits) }
    }

    /// Returns the number of coordinates in this set.
    pub fn size(&self) -> (r: i16)
        ensures
            r == self@.len(),
    {
        proof {
            use_type_invariant(self);
            lemma_view_len((self.bits as u16) as u128, 9);
        }
        self.size
    }

    /// Returns true if this set holds no coordinate.
    pub fn is_empty(&self) -> (r: bool)
        ensures
            r == (self@ == Set::<int>::empty()),
    {
        proof {
            use_type_invariant(self);
            lemma_view_len((self.bits as u16) as u128, 9);
            if self@.len() == 0 {
                assert(self@ =~= Set::<int>::empty());
            }
        }
        self.size == 0
    }

    /// Returns true if `coord` is in this set.
    pub fn has(&self, coord: i16) -> (r: bool)
        requires
            0 <= coord < 9,
        ensures
            r == self@.contains(coord as int),
    {
        assert_coord(coord);
        let bit: i16 = 1i16 << (coord as u16);
        proof {
            use_type_invariant(self);
            lemma_coord_word(self.bits, coord);
            lemma_member16(self.bits as u16, coord as u16, 1u16 << (coord as u16));
        }
        self.bits & bit != 0
    }

    /// Adds `coord` to this set.
    pub fn add(&mut self, coord: i16)
        requires
            0 <= coord < 9,
        ensures
            final(self)@ == old(self)@.insert(coord as int),
    {
        assert_coord(coord);
        proof {
            use_type_invariant(&*self);
        }
        let bit: i16 = 1i16 << (coord as u16);
        let ghost w = self.bits as u16;
        let ghost m = 1u16 << (coord as u16);
        proof {
            lemma_coord_word(self.bits, coord);
            lemma_member16(w, coord as u16, m);
        }
        if self.bits & bit == 0 {
            let nb: i16 = self.bits + bit;
            proof {
                lemma_count16_step(w, coord as u16, m);
                assert(nb == self.bits | bit);
                assert(nb as u16 == w | m);
            }
            *self = CoordSet { bits: nb, size: self.size + 1 };
        } else {
            proof {
                assert(old(self)@.insert(coord as int) =~= old(self)@);
            }
        }
    }

    /// Removes `coord` from this set.
    pub fn remove(&mut self, coord: i16)
        requires
            0 <= coord < 9,
        ensures
            final(self)@ == old(self)@.remove(coord as int),
    {
        assert_coord(coord);
        proof {
            use_type_invariant(&*self);
        }
        let bit: i16 = 1i16 << (coord as u16);
        let ghost w = self.bits as u16;
        let ghost m = 1u16 << (coord as u16);
        proof {
            lemma_coord_word(self.bits, coord);
            lemma_member16(w, coord as u16, m);
        }
        if self.bits & bit != 0 {
            proof {
                let nw = w & !m;
                lemma_member16(nw, coord as u16, m);
                lemma_count16_step(nw, coord as u16, m);
                assert(view16(nw | m) =~= view16(w));
                lemma_view16_ops(nw | m, w);
            }
            let nb: i16 = self.bits - bit;
            proof {
                assert(nb == self.bits & !bit);
                assert(nb as u16 == w & !m);
            }
            *self = CoordSet { bits: nb, size: self.size - 1 };
        } else {
            proof {
                assert(old(self)@.remove(coord as int) =~= old(self)@);
            }
        }
    }

    /// Returns the coordinates in this set or in `other`.
    pub fn union(&self, other: &CoordSet) -> (r: CoordSet)
        ensures
            r@ == self@.union(other@),
    {
        proof {
            use_type_invariant(self);
            use_type_invariant(other);
            lemma_words();
            lemma_view16_ops(self.bits as u16, other.bits as u16);
        }
        CoordSet::new(self.bits | other.bits)
    }

    /// Returns the coordinates in both this set and `other`.
    pub fn intersect(&self, other: &CoordSet) -> (r: CoordSet)
        ensures
            r@ == self@.intersect(other@),
    {
        proof {
            use_type_invariant(self);
            use_type_invariant(other);
            lemma_words();
            lemma_view16_ops(self.bits as u16, other.bits as u16);
        }
        CoordSet::new(self.bits & other.bits)
    }

    /// Masks the members of this set with the two's-complement negation of the members of
    /// `other`.
    pub fn difference(&self, other: &CoordSet) -> (r: CoordSet)
        ensures
            r.word() == self.word() & negated(other.word()),
            r@ == self@.intersect(view16(negated(other.word()))),
    {
        proof {
            use_type_invariant(self);
            use_type_invariant(other);
            lemma_words();
            let x = self.bits as u16;
            let n = ((-other.bits) as i16) as u16;
            assert(x & n == x & (n & 0x1ffu16));
            lemma_view16_ops(x, negated(other.bits as u16));
        }
        CoordSet::new(self.bits & -other.bits)
    }

    /// Returns the digits of the coordinates in this set, in order, with a dot for each
    /// coordinate that is missing.
    pub fn to_coord_string(&self) -> (r: String)
        ensures
            r@ == coord_string(self@),
    {
        let mut coords = String::new();
        let mut bit: i16 = 0;
        while bit < 9
            invariant
                0 <= bit <= 9,
                coords@ == coord_string(self@).take(bit as int),
            decreases 9 - bit,
        {
            if self.has(bit) {
                push_char(&mut coords, ((49u8 + bit as u8) as char));
            } else {
                push_char(&mut coords, MISSING);
            }
            proof {
                assert(coords@ =~= coord_string(self@).take(bit + 1));
            }
            bit = bit + 1;
        }
        proof {
            assert(coords@ =~= coord_string(self@));
        }
        coords
    }

    /// Returns the same text as [`CoordSet::to_coord_string`].
    pub fn to_string(&self) -> (r: String)
        ensures
            r@ == coord_string(self@),
    {
        self.to_coord_string()
    }
}

/// The nine marks for the coordinates of `s`: the digit one above each member, a dot for the
/// others.
pub open spec fn coord_string(s: Set<int>) -> Seq<char> {
    Seq::new(
        9,
        |i: int|
            if s.contains(i) {
                (49 + i) as char
            } else {
                MISSING
            },
    )
}

/// Returns the number of coordinates whose bits are set in `bits`.
pub fn coord_set_size(bits: i16) -> (r: i16)
    requires
        0 <= bits < 512,
    ensures
        r == view16(bits as u16).len(),
        r == count_bits((bits as u16) as u128, 9),
{
    let n = count_set_bits((bits as u16) as u128, 9);
    n as i16
}

/// Stops unless `coord` is a coordinate from 0 to 8.
pub fn assert_coord(coord: i16)
    requires
        0 <= coord < 9,
{
}

} // verus!
