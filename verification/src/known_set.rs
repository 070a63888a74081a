//! Known sets as plain words: the members in the low nine bits and their count from bit 12.
use vstd::prelude::*;
use vstd::set_lib::set_int_range;

use crate::bits::{count_bits, lemma_count_nibble, lemma_count_stable, lemma_mask_values, nibble_count};
use crate::packed::{
    lemma_mask9_distributes, lemma_packs16, lemma_view16_ops, pack16_add, pack16_remove, packs16,
    view16, MASK9,
};
use crate::text::{push_char, string_of_char};

verus! {

pub type Value = u8;

pub type Known = u8;

pub type KnownSet = u16;

pub const UNKNOWN: Value = 0;

/// The mark shown for an empty set.
pub const EMPTY: char = '∅';

/// The mark shown for a known missing from a set.
pub const MISSING: char = '·';

/// `set` holds its members in the low nine bits and their count from bit 12.
pub open spec fn is_known_set(set: u16) -> bool {
    packs16(set, set & MASK9)
}

/// The zero-based indexes of the knowns in `set`.
pub open spec fn knowns_of(set: u16) -> Set<int> {
    view16(set & MASK9)
}

/// Checks that `known` is one of the nine knowns, 1 to 9.
pub fn assert_known(known: Known)
    requires
        1 <= known <= 9,
{
}

fn pack(bits: u16, size: u8) -> (r: KnownSet)
    requires
        bits <= MASK9,
        size == count_bits(bits as u128, 9),
    ensures
        is_known_set(r),
        knowns_of(r) == view16(bits),
{
    let r = ((size as u16) << 12u16) | bits;
    proof {
        assert(packs16(r, bits));
        lemma_packs16(r, bits);
    }
    r
}

/// Returns the empty set.
pub fn empty() -> (r: KnownSet)
    ensures
        is_known_set(r),
        knowns_of(r) == Set::<int>::empty(),
{
    proof {
        lemma_view16_ops(0, 0);
    }
    new(0)
}

/// Returns the set of all nine knowns.
pub fn full() -> (r: KnownSet)
    ensures
        is_known_set(r),
        knowns_of(r) == set_int_range(0, 9),
{
    proof {
        lemma_view16_ops(MASK9, 0);
    }
    new(MASK9)
}

/// Returns the set of the knowns in the bit field `bits`.
pub fn new(bits: u16) -> (r: KnownSet)
    requires
        bits <= MASK9,
    ensures
        is_known_set(r),
        knowns_of(r) == view16(bits),
{
    pack(bits, count_bits_of(bits))
}

/// Returns the set of the knowns in `knowns`.
pub fn of(knowns: &[Known]) -> (r: KnownSet)
    requires
        forall|i: int| 0 <= i < knowns@.len() ==> 1 <= #[trigger] knowns@[i] <= 9,
    ensures
        is_known_set(r),
        knowns_of(r) == Set::new(|k: int| exists|i: int| 0 <= i < knowns@.len() && #[trigger] knowns@[i] - 1 == k),
{
    let mut set = empty();
    let mut i: usize = 0;
    while i < knowns.len()
        invariant
            i <= knowns@.len(),
            forall|i: int| 0 <= i < knowns@.len() ==> 1 <= #[trigger] knowns@[i] <= 9,
            is_known_set(set),
            knowns_of(set) == Set::new(|k: int| exists|j: int| 0 <= j < i && #[trigger] knowns@[j] - 1 == k),
        decreases knowns@.len() - i,
    {
        let ghost before = knowns_of(set);
        self::add(&mut set, knowns[i]);
        proof {
            assert(knowns_of(set) =~= Set::new(|k: int| exists|j: int| 0 <= j < i + 1 && #[trigger] knowns@[j] - 1 == k)) by {
                assert forall|k: int| knowns_of(set).contains(k) implies exists|j: int| 0 <= j < i + 1 && #[trigger] knowns@[j] - 1 == k by {
                    if !before.contains(k) {
                        assert(knowns@[i as int] - 1 == k);
                    }
                }
                assert forall|k: int| (exists|j: int| 0 <= j < i + 1 && #[trigger] knowns@[j] - 1 == k) implies knowns_of(set).contains(k) by {
                    let j = choose|j: int| 0 <= j < i + 1 && #[trigger] knowns@[j] - 1 == k;
                    if j < i {
                        assert(before.contains(k));
                    }
                }
            }
        }
        i = i + 1;
    }
    set
}

/// Returns true if `set` is empty.
pub fn is_empty(set: KnownSet) -> (r: bool)
    requires
        is_known_set(set),
    ensures
        r == (knowns_of(set) == Set::<int>::empty()),
{
    proof {
        lemma_packs16(set, set & MASK9);
        lemma_view16_ops(set & MASK9, 0);
    }
    set == 0
}

/// Returns the number of knowns in `set`.
pub fn size(set: KnownSet) -> (r: u8)
    requires
        is_known_set(set),
    ensures
        r == knowns_of(set).len(),
{
    proof {
        lemma_packs16(set, set & MASK9);
    }
    (set >> 12u16) as u8
}

/// Returns the member bits of `set`.
pub fn bits(set: KnownSet) -> (r: u16)
    ensures
        r == set & MASK9,
{
    set & MASK9
}

/// Returns true if `known` is in `set`.
pub fn has(set: KnownSet, known: Known) -> (r: bool)
    requires
        is_known_set(set),
        1 <= known <= 9,
    ensures
        r == knowns_of(set).contains(known - 1),
{
    assert_known(known);
    let m = 1u16 << (known - 1) as u16;
    proof {
        lemma_packs16(set, set & MASK9);
        crate::packed::lemma_member16_pub(set & MASK9, (known - 1) as u16, m);
    }
    set & m != 0
}

/// Replaces `set` by the knowns not in it.
pub fn invert(set: &mut KnownSet)
    requires
        is_known_set(*old(set)),
    ensures
        is_known_set(*final(set)),
        knowns_of(*final(set)) == set_int_range(0, 9).difference(knowns_of(*old(set))),
{
    *set = inverted(*set);
}

/// Returns the knowns not in `set`.
pub fn inverted(set: KnownSet) -> (r: KnownSet)
    requires
        is_known_set(set),
    ensures
        is_known_set(r),
        knowns_of(r) == set_int_range(0, 9).difference(knowns_of(set)),
{
    let n = size(set);
    let b = bits(set);
    proof {
        lemma_packs16(set, set & MASK9);
        lemma_mask9_distributes();
        lemma_view16_ops(b, 0);
        crate::bits::lemma_view_len((!b & MASK9) as u128, 9);
        vstd::set_lib::lemma_int_range(0, 9);
        vstd::set_lib::lemma_set_difference_len(set_int_range(0, 9), knowns_of(set));
        crate::bits::lemma_view_ops(b as u128, 0, 9);
        assert(set_int_range(0, 9).intersect(knowns_of(set)) =~= knowns_of(set));
    }
    pack(!b & MASK9, 9 - n)
}

/// Adds `known` to `set`.
pub fn add(set: &mut KnownSet, known: Known)
    requires
        is_known_set(*old(set)),
        1 <= known <= 9,
    ensures
        is_known_set(*final(set)),
        knowns_of(*final(set)) == knowns_of(*old(set)).insert(known - 1),
{
    assert_known(known);
    let (p, Ghost(b)) = pack16_add(*set, Ghost(*set & MASK9), (known - 1) as u16);
    proof {
        lemma_packs16(p, b);
    }
    *set = p;
}

/// Returns `set` with `known` added.
pub fn with(set: KnownSet, known: Known) -> (r: KnownSet)
    requires
        is_known_set(set),
        1 <= known <= 9,
    ensures
        is_known_set(r),
        knowns_of(r) == knowns_of(set).insert(known - 1),
{
    let mut copy = set;
    self::add(&mut copy, known);
    copy
}

/// Removes `known` from `set`.
pub fn remove(set: &mut KnownSet, known: Known)
    requires
        is_known_set(*old(set)),
        1 <= known <= 9,
    ensures
        is_known_set(*final(set)),
        knowns_of(*final(set)) == knowns_of(*old(set)).remove(known - 1),
{
    assert_known(known);
    let (p, Ghost(b)) = pack16_remove(*set, Ghost(*set & MASK9), (known - 1) as u16);
    proof {
        lemma_packs16(p, b);
    }
    *set = p;
}

/// Returns `set` with `known` removed.
pub fn without(set: KnownSet, known: Known) -> (r: KnownSet)
    requires
        is_known_set(set),
        1 <= known <= 9,
    ensures
        is_known_set(r),
        knowns_of(r) == knowns_of(set).remove(known - 1),
{
    let mut copy = set;
    remove(&mut copy, known);
    copy
}

/// Returns the knowns in either set.
pub fn union(set1: KnownSet, set2: KnownSet) -> (r: KnownSet)
    requires
        is_known_set(set1),
        is_known_set(set2),
    ensures
        is_known_set(r),
        knowns_of(r) == knowns_of(set1).union(knowns_of(set2)),
{
    proof {
        lemma_mask9_distributes();
        lemma_view16_ops(set1 & MASK9, set2 & MASK9);
    }
    new((set1 | set2) & MASK9)
}

/// Returns the knowns in both sets.
pub fn intersect(set1: KnownSet, set2: KnownSet) -> (r: KnownSet)
    requires
        is_known_set(set1),
        is_known_set(set2),
    ensures
        is_known_set(r),
        knowns_of(r) == knowns_of(set1).intersect(knowns_of(set2)),
{
    proof {
        lemma_mask9_distributes();
        lemma_view16_ops(set1 & MASK9, set2 & MASK9);
        assert(set1 & set2 & MASK9 == (set1 & set2) & MASK9);
    }
    new(set1 & set2 & MASK9)
}

/// Returns the knowns in the first set and not in the second.
pub fn diff(set1: KnownSet, set2: KnownSet) -> (r: KnownSet)
    requires
        is_known_set(set1),
        is_known_set(set2),
    ensures
        is_known_set(r),
        knowns_of(r) == knowns_of(set1).difference(knowns_of(set2)),
{
    proof {
        lemma_mask9_distributes();
        lemma_view16_ops(set1 & MASK9, set2 & MASK9);
        assert(set1 & !set2 & MASK9 == (set1 & !set2) & MASK9);
    }
    new(set1 & !set2 & MASK9)
}

/// Returns the size and the bits, highest known first, as a debug string.
pub fn debug(set: KnownSet) -> (r: String)
    requires
        is_known_set(set),
    ensures
        r@ == seq![(48 + knowns_of(set).len()) as char, ':'] + Seq::new(
            9,
            |i: int|
                if knowns_of(set).contains(8 - i) {
                    '1'
                } else {
                    '0'
                },
        ),
{
    let mut s = String::new();
    let n = size(set);
    proof {
        lemma_packs16(set, set & MASK9);
    }
    push_char(&mut s, (48u8 + n) as char);
    push_char(&mut s, ':');
    let mut i: u8 = 0;
    while i < 9
        invariant
            i <= 9,
            is_known_set(set),
            n == knowns_of(set).len(),
            s@ == seq![(48 + knowns_of(set).len()) as char, ':'] + Seq::new(
                i as nat,
                |k: int|
                    if knowns_of(set).contains(8 - k) {
                        '1'
                    } else {
                        '0'
                    },
            ),
        decreases 9 - i,
    {
        let c = if has(set, 9 - i) {
            '1'
        } else {
            '0'
        };
        push_char(&mut s, c);
        i = i + 1;
        proof {
            assert(s@ =~= seq![(48 + knowns_of(set).len()) as char, ':'] + Seq::new(
                i as nat,
                |k: int|
                    if knowns_of(set).contains(8 - k) {
                        '1'
                    } else {
                        '0'
                    },
            ));
        }
    }
    s
}

/// Returns the knowns of `set` in parentheses, with a mark for each missing known.
pub fn to_string(set: KnownSet) -> (r: String)
    requires
        is_known_set(set),
    ensures
        knowns_of(set) == Set::<int>::empty() ==> r@ == seq![EMPTY],
        knowns_of(set) != Set::<int>::empty() ==> r@ == seq!['('] + Seq::new(
            9,
            |i: int|
                if knowns_of(set).contains(i) {
                    (49 + i) as char
                } else {
                    MISSING
                },
        ) + seq![')'],
{
    if is_empty(set) {
        return string_of_char(EMPTY);
    }
    let mut s = String::new();
    push_char(&mut s, '(');
    let mut i: u8 = 1;
    while i <= 9
        invariant
            1 <= i <= 10,
            is_known_set(set),
            s@ == seq!['('] + Seq::new(
                (i - 1) as nat,
                |k: int|
                    if knowns_of(set).contains(k) {
                        (49 + k) as char
                    } else {
                        MISSING
                    },
            ),
        decreases 10 - i,
    {
        if has(set, i) {
            push_char(&mut s, (48u8 + i) as char);
        } else {
            push_char(&mut s, MISSING);
        }
        i = i + 1;
        proof {
            assert(s@ =~= seq!['('] + Seq::new(
                (i - 1) as nat,
                |k: int|
                    if knowns_of(set).contains(k) {
                        (49 + k) as char
                    } else {
                        MISSING
                    },
            ));
        }
    }
    push_char(&mut s, ')');
    s
}

/// Returns the number of set bits of `bits`, by table for each of its three nibbles.
fn count_bits_of(bits: u16) -> (r: u8)
    requires
        bits <= MASK9,
    ensures
        r == count_bits(bits as u128, 9),
{
    let x = bits as u128;
    proof {
        crate::bits::lemma_count_nibble(x, 0);
        lemma_count_nibble(x, 4);
        lemma_count_nibble(x, 8);
        crate::bits::lemma_low_mask();
        lemma_mask_values();
        assert forall|i: u128| 9 <= i < 12 implies !crate::bits::bit128(x, i) by {
            assert(x <= crate::bits::low_mask(9));
        }
        lemma_count_stable(x, 9, 12);
        assert(count_bits(x, 0) == 0);
        assert((x >> 0u128) == x) by (bit_vector);
        nibble_bounds(x);
    }
    nibble_count(x & 15) + nibble_count((x >> 4u128) & 15) + nibble_count((x >> 8u128) & 15)
}

proof fn nibble_bounds(x: u128)
    ensures
        (x & 15) < 16,
        ((x >> 4u128) & 15) < 16,
        ((x >> 8u128) & 15) < 16,
        count_bits(x & 15, 4) <= 4,
        count_bits((x >> 4u128) & 15, 4) <= 4,
        count_bits((x >> 8u128) & 15, 4) <= 4,
{
    assert(forall|y: u128| #[trigger] (y & 15) < 16) by (bit_vector);
    crate::bits::lemma_nibble_count(x & 15);
    crate::bits::lemma_nibble_count((x >> 4u128) & 15);
    crate::bits::lemma_nibble_count((x >> 8u128) & 15);
}

} // verus!
