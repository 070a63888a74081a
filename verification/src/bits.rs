use vstd::prelude::*;
use vstd::set_lib::*;

verus! {

/// Whether bit `i` of `b` is set.
pub open spec fn bit128(b: u128, i: u128) -> bool {
    (b >> i) & 1u128 == 1u128
}

/// The value whose lowest `n` bits are set and whose other bits are clear.
pub open spec fn low_mask(n: u128) -> u128 {
    ((1u128 << n) - 1u128) as u128
}

/// Bitwise operators act pointwise on the bits of a `u128`.
pub proof fn lemma_bit128_ops()
    by (bit_vector)
    ensures
        forall|a: u128, b: u128, i: u128|
            i < 128 ==> (#[trigger] bit128(a | b, i) <==> (bit128(a, i) || bit128(b, i))),
        forall|a: u128, b: u128, i: u128|
            i < 128 ==> (#[trigger] bit128(a & b, i) <==> (bit128(a, i) && bit128(b, i))),
        forall|a: u128, b: u128, i: u128|
            i < 128 ==> (#[trigger] bit128(a ^ b, i) <==> (bit128(a, i) != bit128(b, i))),
        forall|a: u128, i: u128| i < 128 ==> (#[trigger] bit128(!a, i) <==> !bit128(a, i)),
        forall|i: u128| !#[trigger] bit128(0u128, i),
        forall|i: u128, j: u128|
            i < 128 && j < 128 ==> (#[trigger] bit128(1u128 << j, i) <==> i == j),
{
}

/// The low masks: which bits they hold, and which values they bound.
pub proof fn lemma_low_mask()
    by (bit_vector)
    ensures
        forall|n: u128, i: u128|
            0 < n < 128 && i < 128 ==> (#[trigger] bit128(low_mask(n), i) <==> i < n),
        forall|n: u128, a: u128, i: u128|
            #![trigger bit128(a, i), low_mask(n)]
            0 < n < 128 && a <= low_mask(n) && n <= i ==> !bit128(a, i),
        forall|n: u128, a: u128, b: u128|
            #![trigger (a | b), low_mask(n)]
            0 < n < 128 && a <= low_mask(n) && b <= low_mask(n) ==> (a | b) <= low_mask(n),
        forall|a: u128, b: u128| #[trigger] (a & b) <= a,
        forall|a: u128, b: u128| #[trigger] (a & b) <= b,
        forall|n: u128, j: u128|
            #![trigger (1u128 << j), low_mask(n)]
            0 < n < 128 && j < n ==> (1u128 << j) <= low_mask(n),
{
}


/// Widening a `u16` to a `u128` keeps its bits.
pub proof fn lemma_widen16()
    by (bit_vector)
    ensures
        forall|a: u16, b: u16| #[trigger] ((a | b) as u128) == (a as u128) | (b as u128),
        forall|a: u16, b: u16| #[trigger] ((a & b) as u128) == (a as u128) & (b as u128),
        forall|a: u16, b: u16| #[trigger] ((a & !b) as u128) == (a as u128) & !(b as u128),
        forall|a: u16| #[trigger] ((!a & 0x1ffu16) as u128) == !(a as u128) & 0x1ffu128,
        forall|j: u16| j < 16 ==> #[trigger] ((1u16 << j) as u128) == 1u128 << (j as u128),
{
}

/// The masks of nine and of eighty-one bits.
pub proof fn lemma_mask_values()
    by (bit_vector)
    ensures
        low_mask(9) == 0x1ffu128,
        low_mask(81) == 0x1_ffff_ffff_ffff_ffff_ffffu128,
{
}

/// Facts about shifting right by one, used to walk the bits of a value.
proof fn lemma_shift_right_one()
    by (bit_vector)
    ensures
        forall|x: u128| x != 0 && x & 1 != 1 ==> #[trigger] (x >> 1) != 0 && (x >> 1) < x,
        forall|x: u128| x & 1 == 1 ==> #[trigger] bit128(x, 0),
        forall|x: u128, j: u128|
            j < 127 ==> (#[trigger] bit128(x >> 1, j) <==> bit128(x, (j + 1) as u128)),
        forall|x: u128, j: u128| 127 <= j ==> !#[trigger] bit128(x >> 1, j),
{
}

/// A value other than zero has a set bit.
pub proof fn lemma_nonzero_has_bit(x: u128) -> (i: u128)
    requires
        x != 0,
    ensures
        i < 128,
        bit128(x, i),
    decreases x,
{
    lemma_shift_right_one();
    if x & 1 == 1 {
        0
    } else {
        let j = lemma_nonzero_has_bit(x >> 1);
        assert(j < 127);
        assert(bit128(x, (j + 1) as u128));
        (j + 1) as u128
    }
}

/// Two values with the same bits are equal.
pub proof fn lemma_bits_equal(a: u128, b: u128)
    requires
        forall|i: u128| i < 128 ==> bit128(a, i) == bit128(b, i),
    ensures
        a == b,
{
    lemma_bit128_ops();
    if a ^ b != 0 {
        let i = lemma_nonzero_has_bit(a ^ b);
        assert(bit128(a ^ b, i));
    }
    assert(a ^ b == 0 ==> a == b) by (bit_vector);
}

/// The members of a set held in the lowest `n` bits of `b`.
pub open spec fn bits_view(b: u128, n: int) -> Set<int> {
    Set::new(|i: int| 0 <= i < n && bit128(b, i as u128))
}

/// The number of set bits among the lowest `n` bits of `b`.
pub open spec fn count_bits(b: u128, n: nat) -> nat
    decreases n,
{
    if n == 0 {
        0
    } else {
        count_bits(b, (n - 1) as nat) + if bit128(b, (n - 1) as u128) {
            1nat
        } else {
            0nat
        }
    }
}

/// Set algebra on views follows the bitwise operators.
pub proof fn lemma_view_ops(a: u128, b: u128, n: int)
    requires
        0 < n < 128,
    ensures
        bits_view(a | b, n) == bits_view(a, n).union(bits_view(b, n)),
        bits_view(a & b, n) == bits_view(a, n).intersect(bits_view(b, n)),
        bits_view(a & !b, n) == bits_view(a, n).difference(bits_view(b, n)),
        bits_view(!a & low_mask(n as u128), n) == set_int_range(0, n).difference(bits_view(a, n)),
        bits_view(0, n) == Set::<int>::empty(),
        bits_view(low_mask(n as u128), n) == set_int_range(0, n),
        bits_view(a, n).subset_of(set_int_range(0, n)),
{
    lemma_bit128_ops();
    lemma_low_mask();
    assert(bits_view(a | b, n) =~= bits_view(a, n).union(bits_view(b, n)));
    assert(bits_view(a & b, n) =~= bits_view(a, n).intersect(bits_view(b, n)));
    assert(bits_view(a & !b, n) =~= bits_view(a, n).difference(bits_view(b, n)));
    assert forall|i: int| 0 <= i < n implies
        (#[trigger] bit128(!a & low_mask(n as u128), i as u128) <==> !bit128(a, i as u128)) by {
        assert(bit128(low_mask(n as u128), i as u128));
    }
    assert(bits_view(!a & low_mask(n as u128), n) =~= set_int_range(0, n).difference(bits_view(a, n)));
    assert(bits_view(0, n) =~= Set::<int>::empty());
    assert(bits_view(low_mask(n as u128), n) =~= set_int_range(0, n));
}

/// The single bit `1 << j` views as the singleton `{j}`.
pub proof fn lemma_view_single(b: u128, j: int, n: int)
    requires
        0 <= j < n < 128,
    ensures
        bits_view(1u128 << (j as u128), n) == set![j],
        bits_view(b | (1u128 << (j as u128)), n) == bits_view(b, n).insert(j),
        bits_view(b & !(1u128 << (j as u128)), n) == bits_view(b, n).remove(j),
        bit128(b, j as u128) == bits_view(b, n).contains(j),
        (b & (1u128 << (j as u128)) != 0) == bits_view(b, n).contains(j),
{
    lemma_bit128_ops();
    assert(bits_view(1u128 << (j as u128), n) =~= set![j]);
    assert(bits_view(b | (1u128 << (j as u128)), n) =~= bits_view(b, n).insert(j));
    assert(bits_view(b & !(1u128 << (j as u128)), n) =~= bits_view(b, n).remove(j));
    let m = 1u128 << (j as u128);
    if b & m != 0 {
        let i = lemma_nonzero_has_bit(b & m);
        assert(bit128(m, i));
    } else {
        assert(!bit128(b & m, j as u128));
    }
}

/// Values below `low_mask(n)` are equal when their views are.
pub proof fn lemma_view_equal(a: u128, b: u128, n: int)
    requires
        0 < n < 128,
        a <= low_mask(n as u128),
        b <= low_mask(n as u128),
    ensures
        (bits_view(a, n) == bits_view(b, n)) == (a == b),
{
    lemma_low_mask();
    if bits_view(a, n) == bits_view(b, n) {
        assert forall|i: u128| i < 128 implies bit128(a, i) == bit128(b, i) by {
            if (i as int) < n {
                assert(bits_view(a, n).contains(i as int) == bits_view(b, n).contains(i as int));
            }
        }
        lemma_bits_equal(a, b);
    }
}

/// Ops on values below `low_mask(n)` stay below it.
pub proof fn lemma_mask_bounds(a: u128, b: u128, n: int)
    requires
        0 < n < 128,
        a <= low_mask(n as u128),
        b <= low_mask(n as u128),
    ensures
        a | b <= low_mask(n as u128),
        a & b <= low_mask(n as u128),
        a & !b <= low_mask(n as u128),
        !a & low_mask(n as u128) <= low_mask(n as u128),
        forall|j: int| 0 <= j < n ==> #[trigger] (a | (1u128 << (j as u128))) <= low_mask(n as u128),
        forall|j: int| 0 <= j < n ==> #[trigger] (a & !(1u128 << (j as u128))) <= low_mask(n as u128),
{
    lemma_low_mask();
    assert forall|j: int| 0 <= j < n implies #[trigger] (a | (1u128 << (j as u128))) <= low_mask(n as u128) by {
        assert((1u128 << (j as u128)) <= low_mask(n as u128));
    }
}

/// The view is finite and its size is the count of set bits.
pub proof fn lemma_view_len(b: u128, n: nat)
    requires
        n <= 128,
    ensures
        bits_view(b, n as int).finite(),
        bits_view(b, n as int).len() == count_bits(b, n),
    decreases n,
{
    if n == 0 {
        assert(bits_view(b, 0) =~= Set::<int>::empty());
    } else {
        lemma_view_len(b, (n - 1) as nat);
        let prev = bits_view(b, n - 1);
        if bit128(b, (n - 1) as u128) {
            assert(bits_view(b, n as int) =~= prev.insert(n - 1));
        } else {
            assert(bits_view(b, n as int) =~= prev);
        }
    }
}


/// `i` is the least member of `s`.
pub open spec fn is_least(s: Set<int>, i: int) -> bool {
    s.contains(i) && forall|j: int| s.contains(j) ==> i <= j
}

/// Returns whether bit `i` of `b` is set.
pub fn has_bit(b: u128, i: u32) -> (r: bool)
    requires
        i < 128,
    ensures
        r == bit128(b, i as u128),
{
    proof {
        lemma_bit128_ops();
        let m = 1u128 << (i as u128);
        if b & m != 0 {
            let k = lemma_nonzero_has_bit(b & m);
            assert(bit128(m, k));
        } else {
            assert(!bit128(b & m, i as u128));
        }
    }
    b & (1u128 << i) != 0
}

/// Counts the set bits among the lowest `n` bits of `b`.
pub fn count_set_bits(b: u128, n: u32) -> (r: u32)
    requires
        n <= 128,
    ensures
        r == count_bits(b, n as nat),
        r == bits_view(b, n as int).len(),
        r <= n,
{
    let mut count: u32 = 0;
    let mut i: u32 = 0;
    while i < n
        invariant
            i <= n <= 128,
            count == count_bits(b, i as nat),
            count <= i,
        decreases n - i,
    {
        if has_bit(b, i) {
            count = count + 1;
        }
        i = i + 1;
    }
    proof {
        lemma_view_len(b, n as nat);
    }
    count
}

/// Returns the lowest set bit among the lowest `n` bits of `b`, if any.
pub fn lowest_set_bit(b: u128, n: u32) -> (r: Option<u32>)
    requires
        n <= 128,
    ensures
        r is None <==> bits_view(b, n as int) == Set::<int>::empty(),
        r matches Some(i) ==> i < n && is_least(bits_view(b, n as int), i as int),
{
    let mut i: u32 = 0;
    while i < n
        invariant
            i <= n <= 128,
            forall|j: int| 0 <= j < i ==> !#[trigger] bit128(b, j as u128),
        decreases n - i,
    {
        if has_bit(b, i) {
            assert(bits_view(b, n as int).contains(i as int));
            return Some(i);
        }
        i = i + 1;
    }
    assert(bits_view(b, n as int) =~= Set::<int>::empty());
    None
}


/// The number of set bits of `x` below 16, by table.
pub open spec fn nibble_bits(x: u128) -> u128 {
    if x == 0 { 0 } else if x == 1 { 1 } else if x == 2 { 1 } else if x == 3 { 2 }
    else if x == 4 { 1 } else if x == 5 { 2 } else if x == 6 { 2 } else if x == 7 { 3 }
    else if x == 8 { 1 } else if x == 9 { 2 } else if x == 10 { 2 } else if x == 11 { 3 }
    else if x == 12 { 2 } else if x == 13 { 3 } else if x == 14 { 3 } else { 4 }
}

proof fn lemma_nibble_words()
    by (bit_vector)
    ensures
        forall|x: u128|
            x < 16 ==> #[trigger] nibble_bits(x) == (x & 1) + ((x >> 1) & 1) + ((x >> 2) & 1) + ((x
                >> 3) & 1),
        forall|x: u128, i: u128| #[trigger] ((x >> i) & 1) <= 1,
        forall|b: u128, k: u128, i: u128|
            k <= 124 && i < 4 ==> (#[trigger] bit128((b >> k) & 15, i) <==> bit128(b, (k + i) as u128)),
        forall|b: u128, k: u128| k <= 124 ==> #[trigger] ((b >> k) >> 4) == b >> ((k + 4) as u128),
        forall|b: u128, k: u128, i: u128|
            #![trigger bit128(b, i), b >> k]
            k <= 128 && b >> k == 0 && k <= i < 128 ==> !bit128(b, i),
        forall|b: u128| #[trigger] (b & 15) < 16,
        forall|b: u128| #[trigger] (b >> 0) == b,
        forall|b: u128| #[trigger] (b >> 128) == 0,
{
}

/// The count of a nibble is its table entry.
pub proof fn lemma_nibble_count(x: u128)
    requires
        x < 16,
    ensures
        count_bits(x, 4) == nibble_bits(x),
{
    lemma_nibble_words();
    reveal_with_fuel(count_bits, 5);
    assert(bit128(x, 0) == ((x >> 0) & 1 == 1));
    assert((x >> 0) == x);
}

/// Counting four more bits adds the count of the next nibble.
pub proof fn lemma_count_nibble(b: u128, k: u128)
    requires
        k <= 124,
    ensures
        count_bits(b, (k + 4) as nat) == count_bits(b, k as nat) + count_bits((b >> k) & 15, 4),
{
    lemma_nibble_words();
    reveal_with_fuel(count_bits, 5);
    let x = (b >> k) & 15;
    assert(bit128(x, 0) == bit128(b, k));
    assert(bit128(x, 1) == bit128(b, (k + 1) as u128));
    assert(bit128(x, 2) == bit128(b, (k + 2) as u128));
    assert(bit128(x, 3) == bit128(b, (k + 3) as u128));
    assert(count_bits(b, (k + 4) as nat) == count_bits(b, (k + 3) as nat) + if bit128(b, (k + 3) as u128) { 1nat } else { 0nat });
    assert(count_bits(b, (k + 3) as nat) == count_bits(b, (k + 2) as nat) + if bit128(b, (k + 2) as u128) { 1nat } else { 0nat });
    assert(count_bits(b, (k + 2) as nat) == count_bits(b, (k + 1) as nat) + if bit128(b, (k + 1) as u128) { 1nat } else { 0nat });
}

/// Counting past bits that are clear changes nothing.
pub proof fn lemma_count_stable(b: u128, m: nat, n: nat)
    requires
        m <= n <= 128,
        forall|i: u128| m <= i < n ==> !bit128(b, i),
    ensures
        count_bits(b, n) == count_bits(b, m),
    decreases n - m,
{
    if n > m {
        lemma_count_stable(b, m, (n - 1) as nat);
        assert(!bit128(b, (n - 1) as u128));
    }
}

/// Returns the number of set bits of the nibble `x`, by table.
pub fn nibble_count(x: u128) -> (r: u8)
    requires
        x < 16,
    ensures
        r == count_bits(x, 4),
{
    let table: [u8; 16] = [0, 1, 1, 2, 1, 2, 2, 3, 1, 2, 2, 3, 2, 3, 3, 4];
    proof {
        lemma_nibble_count(x);
        assert(table@ =~= seq![0u8, 1, 1, 2, 1, 2, 2, 3, 1, 2, 2, 3, 2, 3, 3, 4]);
    }
    table[x as usize]
}

/// Counts the set bits of `bits`, four at a time.
pub fn count_nibbles(bits: u128) -> (r: u8)
    requires
        bits <= 0x1_ffff_ffff_ffff_ffff_ffffu128,
    ensures
        r == count_bits(bits, 81),
        r <= 81,
{
    let mut rest = bits;
    let mut count: u8 = 0;
    let mut k: u128 = 0;
    proof {
        lemma_nibble_words();
    }
    while rest != 0
        invariant
            k <= 128,
            k % 4 == 0,
            rest == bits >> k,
            count == count_bits(bits, k as nat),
            count <= k,
            bits <= 0x1_ffff_ffff_ffff_ffff_ffffu128,
        decreases 128 - k,
    {
        proof {
            lemma_nibble_words();
            if k == 128 {
                assert(rest == 0);
            }
            lemma_count_nibble(bits, k);
            lemma_view_len((bits >> k) & 15, 4);
            lemma_view_ops((bits >> k) & 15, 0, 4);
            vstd::set_lib::lemma_int_range(0, 4);
            vstd::set_lib::lemma_len_subset(bits_view((bits >> k) & 15, 4), vstd::set_lib::set_int_range(0, 4));
        }
        count = count + nibble_count(rest & 15);
        rest = rest >> 4u128;
        k = k + 4;
    }
    proof {
        lemma_nibble_words();
        lemma_mask_values();
        lemma_low_mask();
        if k <= 81 {
            assert forall|i: u128| k <= i < 81 implies !bit128(bits, i) by {}
            lemma_count_stable(bits, k as nat, 81);
        } else {
            assert forall|i: u128| 81 <= i < k implies !bit128(bits, i) by {
                assert(bits <= low_mask(81));
            }
            lemma_count_stable(bits, 81, k as nat);
        }
        lemma_view_len(bits, 81);
        lemma_view_ops(bits, 0, 81);
        vstd::set_lib::lemma_int_range(0, 81);
        vstd::set_lib::lemma_len_subset(bits_view(bits, 81), vstd::set_lib::set_int_range(0, 81));
    }
    count
}

} // verus!
