//! Sets of cells that keep their size in the high bits of the same word as their members.
use vstd::prelude::*;

use crate::bits::{
    bit128, bits_view, count_bits, count_set_bits, lemma_bit128_ops, lemma_mask_bounds,
    lemma_mask_values, lemma_view_len, lemma_view_ops, lemma_view_single, low_mask,
};

verus! {

/// The mask of the 81 member bits.
pub const MASK81: u128 = 0x1_ffff_ffff_ffff_ffff_ffff;

/// The word holding `size` shifted by `shift` above the member bits `bits`.
pub open spec fn pack(size: u128, bits: u128, shift: u128) -> u128 {
    (size << shift) | bits
}

/// `p` holds the members `bits` and their count above them at `shift`.
pub open spec fn packs(p: u128, bits: u128, shift: u128) -> bool {
    &&& bits <= MASK81
    &&& p == pack(count_bits(bits, 81) as u128, bits, shift)
}

proof fn lemma_pack_words()
    by (bit_vector)
    ensures
        forall|s: u128, b: u128, k: u128|
            #![trigger (s << k) | b]
            (k == 96 || k == 120) && s <= 81 && b <= 0x1_ffff_ffff_ffff_ffff_ffffu128 ==> ((s << k) | b)
                & 0x1_ffff_ffff_ffff_ffff_ffffu128 == b && ((s << k) | b) >> k == s && ((s << k) | b == 0
                <==> (s == 0 && b == 0)),
        forall|s: u128, b: u128, k: u128, j: u128|
            #![trigger (s << k) | b, 1u128 << j]
            (k == 96 || k == 120) && s <= 81 && b <= 0x1_ffff_ffff_ffff_ffff_ffffu128 && j < 81 ==> (((s
                << k) | b) & (1u128 << j) == b & (1u128 << j)),
        forall|s: u128, b: u128, k: u128, j: u128|
            #![trigger (s << k) | b, 1u128 << j]
            (k == 96 || k == 120) && s < 81 && b <= 0x1_ffff_ffff_ffff_ffff_ffffu128 && j < 81 && b & (1u128
                << j) == 0 ==> ((s << k) | b) + ((1u128 << j) + (1u128 << k)) == (((s + 1) as u128) << k) | (b
                | (1u128 << j)),
        forall|s: u128, b: u128, k: u128, j: u128|
            #![trigger (s << k) | b, 1u128 << j]
            (k == 96 || k == 120) && 0 < s <= 81 && b <= 0x1_ffff_ffff_ffff_ffff_ffffu128 && j < 81 && b & (
            1u128 << j) != 0 ==> ((s << k) | b) - ((1u128 << j) + (1u128 << k)) == (((s - 1) as u128) << k)
                | (b & !(1u128 << j)),
{
}

/// Masking distributes over the bitwise operators.
pub proof fn lemma_mask81_distributes()
    by (bit_vector)
    ensures
        forall|a: u128, b: u128| #[trigger] ((a | b) & 0x1_ffff_ffff_ffff_ffff_ffffu128) == (a & 0x1_ffff_ffff_ffff_ffff_ffffu128) | (b & 0x1_ffff_ffff_ffff_ffff_ffffu128),
        forall|a: u128, b: u128| #[trigger] ((a & b) & 0x1_ffff_ffff_ffff_ffff_ffffu128) == (a & 0x1_ffff_ffff_ffff_ffff_ffffu128) & (b & 0x1_ffff_ffff_ffff_ffff_ffffu128),
        forall|a: u128, b: u128| #[trigger] ((a & !b) & 0x1_ffff_ffff_ffff_ffff_ffffu128) == (a & 0x1_ffff_ffff_ffff_ffff_ffffu128) & !(b & 0x1_ffff_ffff_ffff_ffff_ffffu128),
        forall|a: u128| #[trigger] (!a & 0x1_ffff_ffff_ffff_ffff_ffffu128) == !(a & 0x1_ffff_ffff_ffff_ffff_ffffu128) & 0x1_ffff_ffff_ffff_ffff_ffffu128,
{
}

/// Facts about a packed word.
pub proof fn lemma_packs(p: u128, bits: u128, shift: u128)
    requires
        packs(p, bits, shift),
        shift == 96 || shift == 120,
    ensures
        p & MASK81 == bits,
        p >> shift == count_bits(bits, 81),
        (p == 0) == (bits == 0),
        count_bits(bits, 81) == bits_view(bits, 81).len(),
        count_bits(bits, 81) <= 81,
        bits_view(bits, 81).finite(),
        forall|j: int| 0 <= j < 81 ==> #[trigger] (p & (1u128 << (j as u128))) == bits & (1u128 << (j as u128)),
{
    lemma_view_len(bits, 81);
    lemma_view_ops(bits, 0, 81);
    vstd::set_lib::lemma_int_range(0, 81);
    vstd::set_lib::lemma_len_subset(bits_view(bits, 81), vstd::set_lib::set_int_range(0, 81));
    lemma_pack_words();
    let s = count_bits(bits, 81) as u128;
    assert(p == (s << shift) | bits);
    assert forall|j: int| 0 <= j < 81 implies #[trigger] (p & (1u128 << (j as u128))) == bits & (1u128 << (j as u128)) by {
        assert((((s << shift) | bits) & (1u128 << (j as u128))) == bits & (1u128 << (j as u128)));
    }
}

/// Returns the word packing `bits` with their count.
pub fn pack_new(bits: u128, shift: u32) -> (p: u128)
    requires
        bits <= MASK81,
        shift == 96 || shift == 120,
    ensures
        packs(p, bits, shift as u128),
{
    let n = count_set_bits(bits, 81) as u128;
    proof {
        lemma_view_len(bits, 81);
        lemma_view_ops(bits, 0, 81);
        vstd::set_lib::lemma_int_range(0, 81);
        vstd::set_lib::lemma_len_subset(bits_view(bits, 81), vstd::set_lib::set_int_range(0, 81));
    }
    (n << shift) | bits
}

/// Returns the word with member `j` added.
pub fn pack_add(p: u128, bits: Ghost<u128>, j: u32, shift: u32) -> (r: (u128, Ghost<u128>))
    requires
        packs(p, bits@, shift as u128),
        shift == 96 || shift == 120,
        j < 81,
    ensures
        packs(r.0, r.1@, shift as u128),
        r.1@ == bits@ | (1u128 << (j as u128)),
        bits_view(r.1@, 81) == bits_view(bits@, 81).insert(j as int),
{
    proof {
        lemma_packs(p, bits@, shift as u128);
        lemma_view_single(bits@, j as int, 81);
        lemma_mask_values();
        lemma_mask_bounds(bits@, 0, 81);
    }
    let m = 1u128 << j;
    if p & m != 0 {
        proof {
            assert(bits@ | m == bits@) by {
                lemma_bit128_ops();
                assert forall|i: u128| i < 128 implies bit128(bits@ | m, i) == bit128(bits@, i) by {
                    if i == j as u128 {
                        assert(bits_view(bits@, 81).contains(j as int));
                    }
                }
                crate::bits::lemma_bits_equal(bits@ | m, bits@);
            }
        }
        (p, bits)
    } else {
        let ghost nb = bits@ | m;
        proof {
            lemma_pack_words();
            let s = count_bits(bits@, 81) as u128;
            assert(p == (s << (shift as u128)) | bits@);
            lemma_view_len(nb, 81);
            assert(!bits_view(bits@, 81).contains(j as int));
            assert(count_bits(nb, 81) == count_bits(bits@, 81) + 1);
            lemma_view_ops(nb, 0, 81);
            vstd::set_lib::lemma_int_range(0, 81);
            vstd::set_lib::lemma_len_subset(bits_view(nb, 81), vstd::set_lib::set_int_range(0, 81));
            assert(s < 81);
            assert((1u128 << (j as u128)) <= low_mask(81)) by {
                crate::bits::lemma_low_mask();
            }
            lemma_mask_bounds(bits@, m, 81);
        }
        (p + (m + (1u128 << shift)), Ghost(nb))
    }
}

/// Returns the word with member `j` removed.
pub fn pack_remove(p: u128, bits: Ghost<u128>, j: u32, shift: u32) -> (r: (u128, Ghost<u128>))
    requires
        packs(p, bits@, shift as u128),
        shift == 96 || shift == 120,
        j < 81,
    ensures
        packs(r.0, r.1@, shift as u128),
        r.1@ == bits@ & !(1u128 << (j as u128)),
        bits_view(r.1@, 81) == bits_view(bits@, 81).remove(j as int),
{
    proof {
        lemma_packs(p, bits@, shift as u128);
        lemma_view_single(bits@, j as int, 81);
        lemma_mask_values();
        assert((1u128 << (j as u128)) <= low_mask(81)) by {
            crate::bits::lemma_low_mask();
        }
        lemma_mask_bounds(bits@, 1u128 << (j as u128), 81);
    }
    let m = 1u128 << j;
    if p & m == 0 {
        proof {
            assert(bits@ & !m == bits@) by {
                lemma_bit128_ops();
                assert forall|i: u128| i < 128 implies bit128(bits@ & !m, i) == bit128(bits@, i) by {
                    if i == j as u128 {
                        assert(!bits_view(bits@, 81).contains(j as int));
                    }
                }
                crate::bits::lemma_bits_equal(bits@ & !m, bits@);
            }
        }
        (p, bits)
    } else {
        let ghost nb = bits@ & !m;
        proof {
            lemma_pack_words();
            let s = count_bits(bits@, 81) as u128;
            assert(p == (s << (shift as u128)) | bits@);
            lemma_view_len(nb, 81);
            assert(bits_view(bits@, 81).contains(j as int));
            assert(count_bits(nb, 81) + 1 == count_bits(bits@, 81));
        }
        (p - (m + (1u128 << shift)), Ghost(nb))
    }
}


/// The mask of the nine member bits of a small packed word.
pub const MASK9: u16 = 0x1ff;

/// `p` holds the nine-bit members `bits` and their count above them, from bit 12.
pub open spec fn packs16(p: u16, bits: u16) -> bool {
    &&& bits <= MASK9
    &&& p == ((count_bits(bits as u128, 9) as u16) << 12u16) | bits
}

proof fn lemma_pack16_words()
    by (bit_vector)
    ensures
        forall|s: u16, b: u16|
            #![trigger (s << 12u16) | b]
            s <= 9 && b <= 0x1ffu16 ==> ((s << 12u16) | b) & 0x1ffu16 == b && ((s << 12u16) | b) >> 12u16
                == s && ((s << 12u16) | b == 0 <==> (s == 0 && b == 0)),
        forall|s: u16, b: u16, j: u16|
            #![trigger (s << 12u16) | b, 1u16 << j]
            s <= 9 && b <= 0x1ffu16 && j < 9 ==> (((s << 12u16) | b) & (1u16 << j) == b & (1u16 << j)),
        forall|s: u16, b: u16, j: u16|
            #![trigger (s << 12u16) | b, 1u16 << j]
            s < 9 && b <= 0x1ffu16 && j < 9 && b & (1u16 << j) == 0 ==> ((s << 12u16) | b) + ((1u16 << j)
                + (1u16 << 12u16)) == (((s + 1) as u16) << 12u16) | (b | (1u16 << j)),
        forall|s: u16, b: u16, j: u16|
            #![trigger (s << 12u16) | b, 1u16 << j]
            0 < s <= 9 && b <= 0x1ffu16 && j < 9 && b & (1u16 << j) != 0 ==> ((s << 12u16) | b) - ((1u16
                << j) + (1u16 << 12u16)) == (((s - 1) as u16) << 12u16) | (b & !(1u16 << j)),
        forall|a: u16, b: u16| #[trigger] ((a | b) & 0x1ffu16) == (a & 0x1ffu16) | (b & 0x1ffu16),
        forall|a: u16, b: u16| #[trigger] ((a & b) & 0x1ffu16) == (a & 0x1ffu16) & (b & 0x1ffu16),
        forall|a: u16, b: u16| #[trigger] ((a & !b) & 0x1ffu16) == (a & 0x1ffu16) & !(b & 0x1ffu16),
        forall|a: u16| #[trigger] (!a & 0x1ffu16) <= 0x1ffu16,
        forall|a: u16, b: u16| #[trigger] (a & b) <= b,
{
}

/// The nine-bit set view of `b`.
pub open spec fn view16(b: u16) -> Set<int> {
    bits_view(b as u128, 9)
}

/// Facts about a small packed word.
pub proof fn lemma_packs16(p: u16, bits: u16)
    requires
        packs16(p, bits),
    ensures
        p & MASK9 == bits,
        p >> 12u16 == count_bits(bits as u128, 9),
        (p == 0) == (bits == 0),
        count_bits(bits as u128, 9) == view16(bits).len(),
        count_bits(bits as u128, 9) <= 9,
        view16(bits).finite(),
        forall|j: u16| j < 9 ==> #[trigger] (p & (1u16 << j)) == bits & (1u16 << j),
{
    lemma_view_len(bits as u128, 9);
    lemma_view_ops(bits as u128, 0, 9);
    vstd::set_lib::lemma_int_range(0, 9);
    vstd::set_lib::lemma_len_subset(view16(bits), vstd::set_lib::set_int_range(0, 9));
    lemma_pack16_words();
    let s = count_bits(bits as u128, 9) as u16;
    assert(p == (s << 12u16) | bits);
    assert forall|j: u16| j < 9 implies #[trigger] (p & (1u16 << j)) == bits & (1u16 << j) by {
        assert((((s << 12u16) | bits) & (1u16 << j)) == bits & (1u16 << j));
    }
}

/// Masking distributes over the bitwise operators on small words.
pub proof fn lemma_mask9_distributes()
    ensures
        forall|a: u16, b: u16| #[trigger] ((a | b) & 0x1ffu16) == (a & 0x1ffu16) | (b & 0x1ffu16),
        forall|a: u16, b: u16| #[trigger] ((a & b) & 0x1ffu16) == (a & 0x1ffu16) & (b & 0x1ffu16),
        forall|a: u16, b: u16| #[trigger] ((a & !b) & 0x1ffu16) == (a & 0x1ffu16) & !(b & 0x1ffu16),
        forall|a: u16| #[trigger] (!a & 0x1ffu16) <= 0x1ffu16,
        forall|a: u16, b: u16| #[trigger] (a & b) <= b,
{
    lemma_pack16_words();
}

/// A member bit of a nine-bit word and its view.
pub proof fn lemma_member16_pub(bits: u16, j: u16, m: u16)
    requires
        bits <= MASK9,
        j < 9,
        m == 1u16 << j,
    ensures
        (bits & m != 0) == view16(bits).contains(j as int),
{
    lemma_member16(bits, j, m);
}

/// Inverting a word and masking it keeps only the inverted members.
pub proof fn lemma_not_mask9(a: u16)
    ensures
        (!a & MASK9) == !(a & MASK9) & MASK9,
{
    assert(forall|x: u16| #[trigger] (!x & 0x1ffu16) == !(x & 0x1ffu16) & 0x1ffu16) by (bit_vector);
}

pub proof fn lemma_member16(bits: u16, j: u16, m: u16)
    requires
        bits <= MASK9,
        j < 9,
        m == 1u16 << j,
    ensures
        (bits & m != 0) == view16(bits).contains(j as int),
        view16(bits | m) == view16(bits).insert(j as int),
        view16(bits & !m) == view16(bits).remove(j as int),
        bits | m <= MASK9,
        bits & !m <= MASK9,
{
    crate::bits::lemma_widen16();
    lemma_view_single(bits as u128, j as int, 9);
    lemma_mask_values();
    assert((m as u128) == 1u128 << (j as u128));
    assert(((bits & m) as u128) == (bits as u128) & (m as u128));
    assert(((bits | m) as u128) == (bits as u128) | (m as u128));
    assert(((bits & !m) as u128) == (bits as u128) & !(m as u128));
    assert((1u128 << (j as u128)) <= low_mask(9)) by {
        crate::bits::lemma_low_mask();
    }
    lemma_mask_bounds(bits as u128, m as u128, 9);
}

/// The count of a word grows by one with a new member, and the sum fits.
pub proof fn lemma_count16_step(bits: u16, j: u16, m: u16)
    requires
        bits <= MASK9,
        j < 9,
        m == 1u16 << j,
        !view16(bits).contains(j as int),
    ensures
        count_bits((bits | m) as u128, 9) == count_bits(bits as u128, 9) + 1,
        count_bits(bits as u128, 9) < 9,
{
    lemma_member16(bits, j, m);
    lemma_view_len(bits as u128, 9);
    lemma_view_len((bits | m) as u128, 9);
    lemma_view_ops((bits | m) as u128, 0, 9);
    vstd::set_lib::lemma_int_range(0, 9);
    vstd::set_lib::lemma_len_subset(view16(bits | m), vstd::set_lib::set_int_range(0, 9));
}

/// The nine-bit view of a bit-wise result.
pub proof fn lemma_view16_ops(a: u16, b: u16)
    requires
        a <= MASK9,
        b <= MASK9,
    ensures
        view16(a | b) == view16(a).union(view16(b)),
        view16(a & b) == view16(a).intersect(view16(b)),
        view16(a & !b) == view16(a).difference(view16(b)),
        view16(!a & MASK9) == vstd::set_lib::set_int_range(0, 9).difference(view16(a)),
        view16(0) == Set::<int>::empty(),
        view16(MASK9) == vstd::set_lib::set_int_range(0, 9),
        (a == b) == (view16(a) == view16(b)),
        a | b <= MASK9,
        a & !b <= MASK9,
{
    crate::bits::lemma_widen16();
    lemma_mask_values();
    lemma_view_ops(a as u128, b as u128, 9);
    crate::bits::lemma_view_equal(a as u128, b as u128, 9);
    lemma_mask_bounds(a as u128, b as u128, 9);
    assert(((a & !b) as u128) == (a as u128) & !(b as u128));
    assert(((a | b) as u128) == (a as u128) | (b as u128));
    assert(((!a & 0x1ffu16) as u128) == !(a as u128) & 0x1ffu128);
}

/// Returns the small word packing `bits` with their count.
pub fn pack16_new(bits: u16) -> (p: u16)
    requires
        bits <= MASK9,
    ensures
        packs16(p, bits),
{
    let n = count_set_bits(bits as u128, 9) as u16;
    proof {
        lemma_view_len(bits as u128, 9);
    }
    (n << 12u16) | bits
}

/// Returns the small word with member `j` added.
pub fn pack16_add(p: u16, bits: Ghost<u16>, j: u16) -> (r: (u16, Ghost<u16>))
    requires
        packs16(p, bits@),
        j < 9,
    ensures
        packs16(r.0, r.1@),
        view16(r.1@) == view16(bits@).insert(j as int),
{
    let m = 1u16 << j;
    proof {
        lemma_packs16(p, bits@);
        lemma_member16(bits@, j, m);
    }
    if p & m != 0 {
        proof {
            assert(view16(bits@) =~= view16(bits@).insert(j as int));
        }
        (p, bits)
    } else {
        let ghost nb = bits@ | m;
        proof {
            lemma_count16_step(bits@, j, m);
            let s = count_bits(bits@ as u128, 9) as u16;
            assert(p == (s << 12u16) | bits@);
            assert(((s << 12u16) | bits@) + ((1u16 << j) + (1u16 << 12u16)) == (((s + 1) as u16) << 12u16)
                | (bits@ | (1u16 << j))) by {
                lemma_pack16_words();
            }
        }
        (p + (m + (1u16 << 12u16)), Ghost(nb))
    }
}

/// Returns the small word with member `j` removed.
pub fn pack16_remove(p: u16, bits: Ghost<u16>, j: u16) -> (r: (u16, Ghost<u16>))
    requires
        packs16(p, bits@),
        j < 9,
    ensures
        packs16(r.0, r.1@),
        view16(r.1@) == view16(bits@).remove(j as int),
{
    let m = 1u16 << j;
    proof {
        lemma_packs16(p, bits@);
        lemma_member16(bits@, j, m);
    }
    if p & m == 0 {
        proof {
            assert(view16(bits@) =~= view16(bits@).remove(j as int));
        }
        (p, bits)
    } else {
        let ghost nb = bits@ & !m;
        proof {
            lemma_member16(nb, j, m);
            assert(view16(nb | m) =~= view16(bits@));
            lemma_view_equal16(nb | m, bits@);
            lemma_count16_step(nb, j, m);
            let s = count_bits(bits@ as u128, 9) as u16;
            assert(p == (s << 12u16) | bits@);
            assert(((s << 12u16) | bits@) - ((1u16 << j) + (1u16 << 12u16)) == (((s - 1) as u16) << 12u16)
                | (bits@ & !(1u16 << j))) by {
                lemma_pack16_words();
            }
        }
        (p - (m + (1u16 << 12u16)), Ghost(nb))
    }
}

/// Nine-bit words with the same view are equal.
proof fn lemma_view_equal16(a: u16, b: u16)
    requires
        a <= MASK9,
        b <= MASK9,
        view16(a) == view16(b),
    ensures
        a == b,
{
    lemma_mask_values();
    crate::bits::lemma_view_equal(a as u128, b as u128, 9);
}

} // verus!
