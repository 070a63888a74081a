//! A compact set of unordered pairs of cells that see each other.
//!
//! Each unordered pair of distinct cells has a slot: the pairs whose lower cell is 0 come
//! first, ordered by their higher cell, then those whose lower cell is 1, and so on. The
//! slots are the bits of 26 words.
use vstd::prelude::*;

use crate::bits::{
    bit128, count_bits, count_set_bits, is_least, lemma_bit128_ops, lemma_low_mask,
    lemma_nonzero_has_bit, lemma_view_len, low_mask, lowest_set_bit,
};
use crate::layout::cells::cell::Cell;
use crate::layout::houses::shape::peers_of;

verus! {

/// The number of unordered pairs of distinct cells.
pub const PAIR_COUNT: usize = 3240;

/// The number of words that hold the slots.
const WORDS: usize = 26;

/// The first slot of the pairs whose lower cell is `i`.
pub open spec fn pair_base(i: int) -> int
    decreases i,
{
    if i <= 0 {
        0
    } else {
        pair_base(i - 1) + 81 - i
    }
}

/// The slot of the unordered pair of cells `a` and `b`.
pub open spec fn pair_pos(a: int, b: int) -> int {
    let lo = if a < b {
        a
    } else {
        b
    };
    let hi = if a < b {
        b
    } else {
        a
    };
    pair_base(lo) + hi - lo - 1
}

/// The pair in slot `rem` counting from the first slot of lower cell `row`.
pub open spec fn unpair_from(row: int, rem: int) -> (int, int)
    decreases 80 - row,
{
    if row >= 80 || row < 0 {
        (0, 1)
    } else if rem < 80 - row {
        (row, row + 1 + rem)
    } else {
        unpair_from(row + 1, rem - (80 - row))
    }
}

/// The pair of cells, lower first, held in slot `p`.
pub open spec fn pair_of(p: int) -> (int, int) {
    unpair_from(0, p)
}

/// Whether slot `p` is set among the words `bits`.
pub open spec fn slot(bits: [u128; 26], p: int) -> bool {
    bit128(bits[p / 128], (p % 128) as u128)
}

/// The set slots below `n`.
pub open spec fn slots_below(bits: [u128; 26], n: int) -> Set<int> {
    Set::new(|p: int| 0 <= p < n && slot(bits, p))
}

/// The number of set slots below `n`.
pub open spec fn count_slots(bits: [u128; 26], n: nat) -> nat
    decreases n,
{
    if n == 0 {
        0
    } else {
        count_slots(bits, (n - 1) as nat) + if slot(bits, n - 1) {
            1nat
        } else {
            0nat
        }
    }
}

/// Twice the first slot of lower cell `i` is `i * (161 - i)`.
pub proof fn lemma_pair_base(i: int)
    requires
        0 <= i <= 81,
    ensures
        2 * pair_base(i) == i * (161 - i),
        0 <= pair_base(i) <= 80 * i,
    decreases i,
{
    if i > 0 {
        lemma_pair_base(i - 1);
        assert(2 * pair_base(i) == i * (161 - i)) by (nonlinear_arith)
            requires
                2 * pair_base(i - 1) == (i - 1) * (161 - (i - 1)),
                pair_base(i) == pair_base(i - 1) + 81 - i,
        ;
    }
}

/// The first slots grow with the lower cell.
pub proof fn lemma_base_grows(i: int, k: int)
    requires
        0 <= i <= k <= 81,
    ensures
        pair_base(i) <= pair_base(k),
    decreases k - i,
{
    if i < k {
        lemma_base_grows(i, k - 1);
    }
}

/// The slots of lower cell `i` lie between its first slot and that of `i + 1`.
pub proof fn lemma_slot_range(i: int, j: int)
    requires
        0 <= i < j < 81,
    ensures
        pair_base(i) <= pair_pos(i, j) < pair_base(i + 1),
        0 <= pair_pos(i, j) < PAIR_COUNT,
{
    lemma_base_grows(i + 1, 80);
    lemma_pair_base(80);
    lemma_pair_base(i);
}

/// The slot of a pair does not depend on the order of its cells.
pub proof fn lemma_pair_pos_symmetric(a: int, b: int)
    ensures
        pair_pos(a, b) == pair_pos(b, a),
{
}

/// Distinct unordered pairs of distinct cells have distinct slots.
pub proof fn lemma_pair_pos_injective(a: int, b: int, c: int, d: int)
    requires
        0 <= a < 81,
        0 <= b < 81,
        0 <= c < 81,
        0 <= d < 81,
        a != b,
        c != d,
        pair_pos(a, b) == pair_pos(c, d),
    ensures
        (a == c && b == d) || (a == d && b == c),
{
    let (i, j) = if a < b {
        (a, b)
    } else {
        (b, a)
    };
    let (k, l) = if c < d {
        (c, d)
    } else {
        (d, c)
    };
    lemma_slot_range(i, j);
    lemma_slot_range(k, l);
    if i < k {
        lemma_base_grows(i + 1, k);
    } else if k < i {
        lemma_base_grows(k + 1, i);
    }
}

proof fn lemma_unpair_from(row: int, rem: int)
    requires
        0 <= row <= 80,
        0 <= rem,
        pair_base(row) + rem < PAIR_COUNT,
    ensures
        row <= unpair_from(row, rem).0 < unpair_from(row, rem).1 < 81,
        pair_pos(unpair_from(row, rem).0, unpair_from(row, rem).1) == pair_base(row) + rem,
    decreases 80 - row,
{
    lemma_pair_base(80);
    if row == 80 {
        lemma_base_grows(row, 80);
    } else if rem >= 80 - row {
        lemma_unpair_from(row + 1, rem - (80 - row));
    }
}

/// Every slot holds the pair whose slot it is.
pub proof fn lemma_pair_of(p: int)
    requires
        0 <= p < PAIR_COUNT,
    ensures
        0 <= pair_of(p).0 < pair_of(p).1 < 81,
        pair_pos(pair_of(p).0, pair_of(p).1) == p,
{
    lemma_unpair_from(0, p);
}

/// The pair held in the slot of `a` and `b` is the two cells, lower first.
pub proof fn lemma_pair_of_pos(a: int, b: int)
    requires
        0 <= a < 81,
        0 <= b < 81,
        a != b,
    ensures
        pair_of(pair_pos(a, b)) == (if a < b {
            (a, b)
        } else {
            (b, a)
        }),
{
    let p = pair_pos(a, b);
    let (i, j) = if a < b {
        (a, b)
    } else {
        (b, a)
    };
    lemma_slot_range(i, j);
    lemma_pair_of(p);
    lemma_pair_pos_injective(a, b, pair_of(p).0, pair_of(p).1);
}

proof fn lemma_div128(k: int, i: int)
    requires
        0 <= k,
        0 <= i < 128,
    ensures
        (128 * k + i) / 128 == k,
        (128 * k + i) % 128 == i,
{
    vstd::arithmetic::div_mod::lemma_fundamental_div_mod_converse(128 * k + i, 128, k, i);
}

proof fn lemma_slots_len(bits: [u128; 26], n: nat)
    ensures
        slots_below(bits, n as int).finite(),
        slots_below(bits, n as int).len() == count_slots(bits, n),
    decreases n,
{
    if n == 0 {
        assert(slots_below(bits, 0) =~= Set::<int>::empty());
    } else {
        lemma_slots_len(bits, (n - 1) as nat);
        if slot(bits, n - 1) {
            assert(slots_below(bits, n as int) =~= slots_below(bits, n - 1).insert(n - 1));
        } else {
            assert(slots_below(bits, n as int) =~= slots_below(bits, n - 1));
        }
    }
}

proof fn lemma_word_count(bits: [u128; 26], k: int, i: nat)
    requires
        0 <= k < 26,
        i <= 128,
    ensures
        count_slots(bits, (128 * k + i) as nat) == count_slots(bits, (128 * k) as nat) + count_bits(
            bits[k],
            i,
        ),
    decreases i,
{
    if i > 0 {
        lemma_word_count(bits, k, (i - 1) as nat);
        lemma_div128(k, i - 1);
    }
}

proof fn lemma_no_high_slots(bits: [u128; 26], n: nat)
    requires
        bits[25] <= low_mask(40),
        3240 <= n <= 3328,
    ensures
        count_slots(bits, n) == count_slots(bits, 3240),
    decreases n,
{
    if n > 3240 {
        lemma_no_high_slots(bits, (n - 1) as nat);
        lemma_div128(25, n - 1 - 3200);
        lemma_low_mask();
    }
}

/// A compact set of unordered pairs of cells, one bit per pair.
#[derive(Clone, Copy, Debug)]
pub struct PeerSet {
    bits: [u128; 26],
}

impl PeerSet {
    #[verifier::type_invariant]
    spec fn inv(self) -> bool {
        self.bits[25] <= low_mask(40)
    }

    /// The slots of the pairs in this set.
    pub closed spec fn view(&self) -> Set<int> {
        slots_below(self.bits, PAIR_COUNT as int)
    }

    /// Returns a new empty set.
    pub fn empty() -> (r: Self)
        ensures
            r@ == Set::<int>::empty(),
    {
        let r = Self { bits: [0u128; 26] };
        proof {
            lemma_bit128_ops();
            assert(r@ =~= Set::<int>::empty());
            assert(low_mask(40) == 0xff_ffff_ffffu128) by (bit_vector);
        }
        r
    }

    /// Returns true if this set holds no pair.
    pub fn is_empty(&self) -> (r: bool)
        ensures
            r == (self@ == Set::<int>::empty()),
    {
        proof {
            use_type_invariant(self);
        }
        let mut k: usize = 0;
        while k < WORDS
            invariant
                k <= 26,
                self.bits[25] <= low_mask(40),
                forall|w: int| 0 <= w < k ==> self.bits[w] == 0,
            decreases 26 - k,
        {
            if self.bits[k] != 0 {
                proof {
                    let i = lemma_nonzero_has_bit(self.bits[k as int]);
                    lemma_low_mask();
                    if k == 25 {
                        assert(self.bits[25] <= low_mask(40));
                        assert(bit128(self.bits[25], i));
                        assert(i < 40);
                    }
                    lemma_div128(k as int, i as int);
                    let p = 128 * k + i;
                    assert(self@.contains(p));
                }
                return false;
            }
            k = k + 1;
        }
        proof {
            lemma_bit128_ops();
            assert forall|p: int| !self@.contains(p) by {
                if 0 <= p < PAIR_COUNT {
                    assert(self.bits[p / 128] == 0);
                }
            }
            assert(self@ =~= Set::<int>::empty());
        }
        true
    }

    /// Returns the number of pairs in this set.
    pub fn len(&self) -> (r: usize)
        ensures
            r == self@.len(),
    {
        proof {
            use_type_invariant(self);
        }
        let mut total: usize = 0;
        let mut k: usize = 0;
        while k < WORDS
            invariant
                k <= 26,
                total == count_slots(self.bits, (128 * k) as nat),
                total <= 128 * k,
            decreases 26 - k,
        {
            let n = count_set_bits(self.bits[k], 128);
            proof {
                lemma_word_count(self.bits, k as int, 128);
                lemma_view_len(self.bits[k as int], 128);
            }
            total = total + n as usize;
            k = k + 1;
        }
        proof {
            lemma_no_high_slots(self.bits, 3328);
            lemma_slots_len(self.bits, 3240);
        }
        total
    }

    /// Returns true if the pair of `a` and `b` is in this set.
    pub fn has(&self, a: Cell, b: Cell) -> (r: bool)
        requires
            peers_of(a@).contains(b@),
        ensures
            r == self@.contains(pair_pos(a@, b@)),
    {
        let (word, bit) = pair_index(a, b);
        proof {
            lemma_bit128_ops();
            let m = 1u128 << (bit as u128);
            if self.bits[word as int] & m != 0 {
                let i = lemma_nonzero_has_bit(self.bits[word as int] & m);
                assert(bit128(m, i));
            } else {
                assert(!bit128(self.bits[word as int] & m, bit as u128));
            }
        }
        (self.bits[word] & (1u128 << bit)) != 0
    }

    /// Returns true if the pair of `a` and `b` is in this set.
    pub fn contains(&self, a: Cell, b: Cell) -> (r: bool)
        requires
            peers_of(a@).contains(b@),
        ensures
            r == self@.contains(pair_pos(a@, b@)),
    {
        self.has(a, b)
    }

    /// Adds the pair of `a` and `b` to this set.
    pub fn add(&mut self, a: Cell, b: Cell)
        requires
            peers_of(a@).contains(b@),
        ensures
            final(self)@ == old(self)@.insert(pair_pos(a@, b@)),
    {
        proof {
            use_type_invariant(&*self);
        }
        let (word, bit) = pair_index(a, b);
        let mut bits = self.bits;
        let w = bits[word] | (1u128 << bit);
        bits.set(word, w);
        proof {
            lemma_bit128_ops();
            lemma_low_mask();
            let p = pair_pos(a@, b@);
            if word == 25 {
                assert(bit < 40);
                assert(40 < 128 && (bit as u128) < 40 ==> (1u128 << (bit as u128)) <= low_mask(40));
            }
            assert forall|q: int| 0 <= q < PAIR_COUNT implies slot(bits, q) == (slot(old(self).bits, q)
                || q == p) by {
                if q / 128 == word {
                    assert(q % 128 == bit ==> q == p);
                    assert(q == p ==> q % 128 == bit);
                }
            }
            assert(slots_below(bits, PAIR_COUNT as int) =~= old(self)@.insert(p));
        }
        *self = PeerSet { bits };
    }

    /// Removes the pair of `a` and `b` from this set.
    pub fn remove(&mut self, a: Cell, b: Cell)
        requires
            peers_of(a@).contains(b@),
        ensures
            final(self)@ == old(self)@.remove(pair_pos(a@, b@)),
    {
        proof {
            use_type_invariant(&*self);
        }
        let (word, bit) = pair_index(a, b);
        let mut bits = self.bits;
        let w = bits[word] & !(1u128 << bit);
        bits.set(word, w);
        proof {
            lemma_bit128_ops();
            lemma_low_mask();
            let p = pair_pos(a@, b@);
            assert forall|q: int| 0 <= q < PAIR_COUNT implies slot(bits, q) == (slot(old(self).bits, q)
                && q != p) by {
                if q / 128 == word {
                    assert(q % 128 == bit ==> q == p);
                    assert(q == p ==> q % 128 == bit);
                }
            }
            assert(slots_below(bits, PAIR_COUNT as int) =~= old(self)@.remove(p));
        }
        *self = PeerSet { bits };
    }

    /// Returns a copy of this set with the pair of `a` and `b` added.
    pub fn with(&self, a: Cell, b: Cell) -> (r: Self)
        requires
            peers_of(a@).contains(b@),
        ensures
            r@ == self@.insert(pair_pos(a@, b@)),
    {
        let mut next = *self;
        next.add_assign((a, b));
        next
    }

    /// Returns a copy of this set with the pair of `a` and `b` removed.
    pub fn without(&self, a: Cell, b: Cell) -> (r: Self)
        requires
            peers_of(a@).contains(b@),
        ensures
            r@ == self@.remove(pair_pos(a@, b@)),
    {
        let mut next = *self;
        next.remove(a, b);
        next
    }

    /// Adds the pair `pair` to this set.
    pub fn add_assign(&mut self, pair: (Cell, Cell))
        requires
            peers_of(pair.0@).contains(pair.1@),
        ensures
            final(self)@ == old(self)@.insert(pair_pos(pair.0@, pair.1@)),
    {
        self.add(pair.0, pair.1);
    }

    /// Removes the pair `pair` from this set.
    pub fn sub_assign(&mut self, pair: (Cell, Cell))
        requires
            peers_of(pair.0@).contains(pair.1@),
        ensures
            final(self)@ == old(self)@.remove(pair_pos(pair.0@, pair.1@)),
    {
        self.remove(pair.0, pair.1);
    }

    /// Returns true if the pair `pair` is in this set.
    pub fn index(&self, pair: (Cell, Cell)) -> (r: bool)
        requires
            peers_of(pair.0@).contains(pair.1@),
        ensures
            r == self@.contains(pair_pos(pair.0@, pair.1@)),
    {
        self.has(pair.0, pair.1)
    }

    /// Returns an iterator over the pairs of this set in slot order.
    pub fn iter(&self) -> (r: PeerSetIter<'_>)
        ensures
            r@ == self@,
    {
        PeerSetIter::new(self)
    }
}

/// Returns the word and the bit of the slot of the pair of `a` and `b`.
fn pair_index(a: Cell, b: Cell) -> (r: (usize, u8))
    requires
        peers_of(a@).contains(b@),
    ensures
        r.0 < 26,
        r.1 < 128,
        r.0 == pair_pos(a@, b@) / 128,
        r.1 == pair_pos(a@, b@) % 128,
        0 <= pair_pos(a@, b@) < PAIR_COUNT,
        r.0 == 25 ==> r.1 < 40,
{
    let mut i = a.usize();
    let mut j = b.usize();
    if i > j {
        let t = i;
        i = j;
        j = t;
    }
    proof {
        lemma_slot_range(i as int, j as int);
        lemma_pair_base(i as int);
        assert(i * (161 - i) <= 81 * 161) by (nonlinear_arith)
            requires
                i <= 81,
        ;
    }
    let base = i * (161 - i) / 2;
    let index = base + (j - i - 1);
    let word = index / 128;
    let bit = (index % 128) as u8;
    (word, bit)
}

/// Returns the pair of cells, lower first, held in slot `index`.
fn unpair_index(index: usize) -> (r: (Cell, Cell))
    requires
        index < PAIR_COUNT,
    ensures
        (r.0@, r.1@) == pair_of(index as int),
        r.0@ < r.1@,
{
    proof {
        lemma_pair_of(index as int);
    }
    let mut row: usize = 0;
    let mut remaining = index;
    while row < 80
        invariant
            row <= 80,
            pair_of(index as int) == unpair_from(row as int, remaining as int),
            0 <= pair_of(index as int).0 < pair_of(index as int).1 < 81,
            pair_base(row as int) + remaining == index,
        decreases 80 - row,
    {
        let count = 80 - row;
        if remaining < count {
            let col = row + 1 + remaining;
            return (Cell::new(row as u8), Cell::new(col as u8));
        }
        remaining = remaining - count;
        row = row + 1;
    }
    proof {
        lemma_pair_base(80);
    }
    (Cell::new(0), Cell::new(1))
}

/// Walks the pairs of a set in slot order.
pub struct PeerSetIter<'a> {
    set: &'a PeerSet,
    word_index: usize,
    word: u128,
}

/// The slots not yet walked: those of word `k` still set in `word`, and all those of later
/// words.
pub open spec fn slots_left(bits: [u128; 26], k: int, word: u128) -> Set<int> {
    Set::new(
        |p: int|
            0 <= p < PAIR_COUNT && ((p / 128 == k && bit128(word, (p % 128) as u128)) || (p / 128 > k
                && slot(bits, p))),
    )
}

proof fn lemma_clear_lowest(w: u128, t: u128)
    by (bit_vector)
    requires
        t < 128,
        (w >> t) & 1u128 == 1u128,
        w & low_mask(t) == 0,
    ensures
        w & ((w - 1u128) as u128) == w & !(1u128 << t),
{
}

impl<'a> PeerSetIter<'a> {
    #[verifier::type_invariant]
    spec fn inv(self) -> bool {
        &&& self.word_index <= 26
        &&& self.word_index < 26 ==> self.word & !self.set.bits[self.word_index as int] == 0
        &&& self.word_index == 26 ==> self.word == 0
        &&& self.set.bits[25] <= low_mask(40)
    }

    /// The slots this iterator has yet to return.
    pub closed spec fn view(&self) -> Set<int> {
        slots_left(self.set.bits, self.word_index as int, self.word)
    }

    fn new(set: &'a PeerSet) -> (r: Self)
        ensures
            r@ == set@,
    {
        proof {
            use_type_invariant(set);
        }
        let word = set.bits[0];
        proof {
            assert(word & !word == 0) by (bit_vector);
        }
        let r = Self { set, word_index: 0, word };
        proof {
            lemma_bit128_ops();
            assert forall|p: int| 0 <= p < PAIR_COUNT implies (r@.contains(p) == set@.contains(p)) by {
                if p / 128 == 0 {
                    assert(set.bits[p / 128] == word);
                }
            }
            assert(r@ =~= set@);
        }
        r
    }

    /// Returns the pair in the lowest slot not yet returned, lower cell first.
    pub fn next(&mut self) -> (r: Option<(Cell, Cell)>)
        ensures
            r is None <==> old(self)@ == Set::<int>::empty(),
            r is None ==> final(self)@ == old(self)@,
            r matches Some(pair) ==> exists|p: int|
                is_least(old(self)@, p) && (pair.0@, pair.1@) == #[trigger] pair_of(p) && final(self)@
                    == old(self)@.remove(p),
    {
        proof {
            use_type_invariant(&*self);
        }
        let set = self.set;
        let mut k = self.word_index;
        let mut word = self.word;
        while k < WORDS
            invariant
                k <= 26,
                k < 26 ==> word & !set.bits[k as int] == 0,
                k == 26 ==> word == 0,
                set.bits[25] <= low_mask(40),
                set == self.set,
                slots_left(set.bits, k as int, word) == old(self)@,
            ensures
                k < 26 ==> word != 0,
                k < 26 ==> word & !set.bits[k as int] == 0,
                k == 26 ==> word == 0,
                slots_left(set.bits, k as int, word) == old(self)@,
            decreases 26 - k,
        {
            if word != 0 {
                break;
            }
            let ghost before = slots_left(set.bits, k as int, word);
            k = k + 1;
            word = if k < WORDS {
                set.bits[k]
            } else {
                0
            };
            proof {
                lemma_bit128_ops();
                assert(word & !word == 0) by (bit_vector);
                assert forall|p: int| #[trigger] slots_left(set.bits, k as int, word).contains(p) == before.contains(p) by {
                    if p / 128 == k && k < 26 {
                        assert(set.bits[p / 128] == word);
                    }
                }
                assert(slots_left(set.bits, k as int, word) =~= before);
            }
        }
        if k == WORDS {
            proof {
                lemma_bit128_ops();
                assert(old(self)@ =~= Set::<int>::empty());
            }
            *self = PeerSetIter { set, word_index: k, word };
            return None;
        }
        let ghost left = slots_left(set.bits, k as int, word);
        let tz = match lowest_set_bit(word, 128) {
            Some(t) => t,
            None => {
                proof {
                    crate::bits::lemma_view_ops(word, 0, 127);
                    let i = lemma_nonzero_has_bit(word);
                    assert(crate::bits::bits_view(word, 128).contains(i as int));
                }
                0
            },
        };
        proof {
            let i = lemma_nonzero_has_bit(word);
            assert(crate::bits::bits_view(word, 128).contains(i as int));
            assert(crate::bits::bits_view(word, 128).contains(tz as int));
            assert(forall|j: u128| j < tz ==> !#[trigger] bit128(word, j)) by {
                assert forall|j: u128| j < tz implies !#[trigger] bit128(word, j) by {
                    if bit128(word, j) {
                        assert(crate::bits::bits_view(word, 128).contains(j as int));
                    }
                }
            }
            assert(word & low_mask(tz as u128) == 0) by {
                lemma_low_mask();
                lemma_bit128_ops();
                assert forall|j: u128| j < 128 implies !#[trigger] bit128(word & low_mask(tz as u128), j) by {
                    if tz > 0 {
                        assert(bit128(low_mask(tz as u128), j) == (j < tz));
                    } else {
                        assert(low_mask(0) == 0) by (bit_vector);
                    }
                }
                crate::bits::lemma_bits_equal(word & low_mask(tz as u128), 0);
            }
            lemma_clear_lowest(word, tz as u128);
        }
        let next_word = word & (word - 1);
        let index = k * 128 + tz as usize;
        proof {
            lemma_bit128_ops();
            lemma_low_mask();
            lemma_div128(k as int, tz as int);
            if k == 25 {
                assert(bit128(set.bits[25], tz as u128)) by {
                    assert(bit128(word & !set.bits[25], tz as u128) == false);
                }
                assert(tz < 40);
            }
            assert(index < PAIR_COUNT);
            let p = index as int;
            assert(left.contains(p));
            assert forall|q: int| left.contains(q) implies p <= q by {
                if q / 128 == k {
                    lemma_div128(k as int, q % 128);
                    assert(crate::bits::bits_view(word, 128).contains(q % 128));
                }
            }
            assert forall|q: int| #[trigger] slots_left(set.bits, k as int, next_word).contains(q) == (left.contains(q) && q != p) by {
                if q / 128 == k && 0 <= q {
                    lemma_div128(k as int, q % 128);
                }
            }
            assert(slots_left(set.bits, k as int, next_word) =~= left.remove(p));
            assert(next_word & !set.bits[k as int] == 0) by {
                assert forall|j: u128| j < 128 implies !#[trigger] bit128(next_word & !set.bits[k as int], j) by {
                    assert(!bit128(word & !set.bits[k as int], j));
                    assert(bit128(word & !set.bits[k as int], j) == (bit128(word, j) && !bit128(set.bits[k as int], j)));
                    assert(bit128(next_word, j) == (bit128(word, j) && !bit128(1u128 << (tz as u128), j)));
                }
                crate::bits::lemma_bits_equal(next_word & !set.bits[k as int], 0);
            }
        }
        *self = PeerSetIter { set, word_index: k, word: next_word };
        let pair = unpair_index(index);
        Some(pair)
    }
}

} // verus!
