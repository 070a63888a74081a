//! Cell sets as plain words: the members in the low 81 bits and their count from bit 120.
use vstd::prelude::*;
use vstd::set_lib::set_int_range;

use crate::bits::{bits_view, count_nibbles, lemma_mask_values, lemma_view_equal, lemma_view_ops};
use crate::layout::cells::cell::cell_label;
use crate::layout::houses::shape::{block_of, cell_at, column_of, row_of, Shape};
use crate::packed::{lemma_mask81_distributes, lemma_packs, pack_add, pack_remove, packs, MASK81};
use crate::text::{push_char, push_str, string_of_char};

verus! {

pub type Coord = usize;

pub type Row = Coord;

pub type Column = Coord;

pub type Block = Coord;

pub type Cell = u8;

pub type CellSet = u128;

const CELL_COUNT: u8 = 81;

const SIZE_SHIFT: u8 = 120;

/// The mark shown for an empty set.
pub const EMPTY: char = '∅';

/// `set` holds its members in the low bits and their count from bit 120.
pub open spec fn is_cell_set(set: u128) -> bool {
    packs(set, set & MASK81, 120)
}

/// The cells in `set`.
pub open spec fn cells_of(set: u128) -> Set<int> {
    bits_view(set & MASK81, 81)
}

/// Checks that `cell` is one of the 81 cells.
pub fn assert_cell(cell: Cell)
    requires
        cell < 81,
{
}

fn pack(bits: u128, size: u8) -> (r: CellSet)
    requires
        bits <= MASK81,
        size == crate::bits::count_bits(bits, 81),
    ensures
        is_cell_set(r),
        cells_of(r) == bits_view(bits, 81),
{
    let r = ((size as u128) << 120u128) | bits;
    proof {
        assert(packs(r, bits, 120));
        lemma_packs(r, bits, 120);
    }
    r
}

/// Returns the empty set.
pub fn empty() -> (r: CellSet)
    ensures
        is_cell_set(r),
        cells_of(r) == Set::<int>::empty(),
{
    proof {
        lemma_view_ops(0, 0, 81);
    }
    new(0)
}

/// Returns the set of all cells.
pub fn full() -> (r: CellSet)
    ensures
        is_cell_set(r),
        cells_of(r) == set_int_range(0, 81),
{
    proof {
        lemma_mask_values();
        lemma_view_ops(0, 0, 81);
    }
    new(MASK81)
}

/// Returns the set of the cells in the bit field `bits`.
pub fn new(bits: u128) -> (r: CellSet)
    requires
        bits <= MASK81,
    ensures
        is_cell_set(r),
        cells_of(r) == bits_view(bits, 81),
{
    pack(bits, count_bits(bits))
}

/// Returns the set of the cells in `cells`.
pub fn of_cells(cells: &[Cell]) -> (r: CellSet)
    requires
        forall|i: int| 0 <= i < cells@.len() ==> #[trigger] cells@[i] < 81,
    ensures
        is_cell_set(r),
        cells_of(r) == Set::new(|c: int| exists|i: int| 0 <= i < cells@.len() && #[trigger] cells@[i] == c),
{
    let mut set = empty();
    let mut i: usize = 0;
    while i < cells.len()
        invariant
            i <= cells@.len(),
            forall|i: int| 0 <= i < cells@.len() ==> #[trigger] cells@[i] < 81,
            is_cell_set(set),
            cells_of(set) == Set::new(|c: int| exists|k: int| 0 <= k < i && #[trigger] cells@[k] == c),
        decreases cells@.len() - i,
    {
        let ghost before = cells_of(set);
        self::add(&mut set, cells[i]);
        proof {
            assert(cells_of(set) =~= Set::new(|c: int| exists|k: int| 0 <= k < i + 1 && #[trigger] cells@[k] == c)) by {
                assert forall|c: int| cells_of(set).contains(c) implies exists|k: int| 0 <= k < i + 1 && #[trigger] cells@[k] == c by {
                    if !before.contains(c) {
                        assert(cells@[i as int] == c);
                    }
                }
                assert forall|c: int| (exists|k: int| 0 <= k < i + 1 && #[trigger] cells@[k] == c) implies cells_of(set).contains(c) by {
                    let k = choose|k: int| 0 <= k < i + 1 && #[trigger] cells@[k] == c;
                    if k < i {
                        assert(before.contains(c));
                    }
                }
            }
        }
        i = i + 1;
    }
    set
}

/// The label is two characters: a row letter 'A' to 'J' and a column digit.
pub open spec fn valid_label(label: Seq<char>) -> bool {
    label.len() == 2 && 'A' <= label[0] <= 'J' && '1' <= label[1] <= '9'
}

/// The cell a valid label names; 'I' and 'J' both name the last row.
pub open spec fn cell_of_label(label: Seq<char>) -> int {
    let row = label[0] as int - 65;
    (if row == 9 {
        8
    } else {
        row
    }) * 9 + (label[1] as int - 49)
}

/// Returns the set of the cells labelled in `labels`.
pub fn of(labels: &[&str]) -> (r: CellSet)
    requires
        forall|i: int| 0 <= i < labels@.len() ==> valid_label(#[trigger] labels@[i]@),
    ensures
        is_cell_set(r),
        cells_of(r) == Set::new(|c: int| exists|i: int| 0 <= i < labels@.len() && cell_of_label(#[trigger] labels@[i]@) == c),
{
    let mut set = empty();
    let mut i: usize = 0;
    while i < labels.len()
        invariant
            i <= labels@.len(),
            forall|i: int| 0 <= i < labels@.len() ==> valid_label(#[trigger] labels@[i]@),
            is_cell_set(set),
            cells_of(set) == Set::new(|c: int| exists|k: int| 0 <= k < i && cell_of_label(#[trigger] labels@[k]@) == c),
        decreases labels@.len() - i,
    {
        let ghost before = cells_of(set);
        let cell = cell_from_label(labels[i]);
        self::add(&mut set, cell);
        proof {
            assert(cells_of(set) =~= Set::new(|c: int| exists|k: int| 0 <= k < i + 1 && cell_of_label(#[trigger] labels@[k]@) == c)) by {
                assert forall|c: int| cells_of(set).contains(c) implies exists|k: int| 0 <= k < i + 1 && cell_of_label(#[trigger] labels@[k]@) == c by {
                    if !before.contains(c) {
                        assert(cell_of_label(labels@[i as int]@) == c);
                    }
                }
                assert forall|c: int| (exists|k: int| 0 <= k < i + 1 && cell_of_label(#[trigger] labels@[k]@) == c) implies cells_of(set).contains(c) by {
                    let k = choose|k: int| 0 <= k < i + 1 && cell_of_label(#[trigger] labels@[k]@) == c;
                    if k < i {
                        assert(before.contains(c));
                    }
                }
            }
        }
        i = i + 1;
    }
    set
}

/// Returns true if `set` is empty.
pub fn is_empty(set: CellSet) -> (r: bool)
    requires
        is_cell_set(set),
    ensures
        r == (cells_of(set) == Set::<int>::empty()),
{
    proof {
        lemma_packs(set, set & MASK81, 120);
        lemma_mask_values();
        lemma_view_ops(0, 0, 81);
        lemma_view_equal(set & MASK81, 0, 81);
    }
    set == 0
}

/// Returns the number of cells in `set`.
pub fn size(set: CellSet) -> (r: u8)
    requires
        is_cell_set(set),
    ensures
        r == cells_of(set).len(),
{
    proof {
        lemma_packs(set, set & MASK81, 120);
    }
    (set >> SIZE_SHIFT) as u8
}

/// Returns the member bits of `set`.
pub fn bits(set: CellSet) -> (r: u128)
    ensures
        r == set & MASK81,
{
    set & MASK81
}

/// Returns true if `cell` is in `set`.
pub fn has(set: CellSet, cell: Cell) -> (r: bool)
    requires
        is_cell_set(set),
        cell < 81,
    ensures
        r == cells_of(set).contains(cell as int),
{
    assert_cell(cell);
    proof {
        lemma_packs(set, set & MASK81, 120);
        crate::bits::lemma_view_single(set & MASK81, cell as int, 81);
    }
    set & (1u128 << cell) != 0
}

/// Adds `cell` to `set`.
pub fn add(set: &mut CellSet, cell: Cell)
    requires
        is_cell_set(*old(set)),
        cell < 81,
    ensures
        is_cell_set(*final(set)),
        cells_of(*final(set)) == cells_of(*old(set)).insert(cell as int),
{
    assert_cell(cell);
    let (p, Ghost(b)) = pack_add(*set, Ghost(*set & MASK81), cell as u32, 120);
    proof {
        lemma_packs(p, b, 120);
    }
    *set = p;
}

/// Returns `set` with `cell` added.
pub fn with(set: CellSet, cell: Cell) -> (r: CellSet)
    requires
        is_cell_set(set),
        cell < 81,
    ensures
        is_cell_set(r),
        cells_of(r) == cells_of(set).insert(cell as int),
{
    let mut copy = set;
    self::add(&mut copy, cell);
    copy
}

/// Removes `cell` from `set`.
pub fn remove(set: &mut CellSet, cell: Cell)
    requires
        is_cell_set(*old(set)),
        cell < 81,
    ensures
        is_cell_set(*final(set)),
        cells_of(*final(set)) == cells_of(*old(set)).remove(cell as int),
{
    assert_cell(cell);
    let (p, Ghost(b)) = pack_remove(*set, Ghost(*set & MASK81), cell as u32, 120);
    proof {
        lemma_packs(p, b, 120);
    }
    *set = p;
}

/// Returns `set` with `cell` removed.
pub fn without(set: CellSet, cell: Cell) -> (r: CellSet)
    requires
        is_cell_set(set),
        cell < 81,
    ensures
        is_cell_set(r),
        cells_of(r) == cells_of(set).remove(cell as int),
{
    let mut copy = set;
    remove(&mut copy, cell);
    copy
}

/// Replaces `set` by the cells not in it.
pub fn invert(set: &mut CellSet)
    requires
        is_cell_set(*old(set)),
    ensures
        is_cell_set(*final(set)),
        cells_of(*final(set)) == set_int_range(0, 81).difference(cells_of(*old(set))),
{
    *set = inverted(*set);
}

/// Returns the cells not in `set`.
pub fn inverted(set: CellSet) -> (r: CellSet)
    requires
        is_cell_set(set),
    ensures
        is_cell_set(r),
        cells_of(r) == set_int_range(0, 81).difference(cells_of(set)),
{
    let n = size(set);
    proof {
        lemma_packs(set, set & MASK81, 120);
        lemma_mask81_distributes();
        crate::bits::lemma_low_mask();
        lemma_mask_values();
        lemma_view_ops(set & MASK81, 0, 81);
        crate::bits::lemma_view_len(!set & MASK81, 81);
        vstd::set_lib::lemma_int_range(0, 81);
        vstd::set_lib::lemma_set_difference_len(set_int_range(0, 81), cells_of(set));
        assert(set_int_range(0, 81).intersect(cells_of(set)) =~= cells_of(set));
    }
    pack(!set & MASK81, CELL_COUNT - n)
}

/// Returns the cells in either set.
pub fn union(set1: CellSet, set2: CellSet) -> (r: CellSet)
    requires
        is_cell_set(set1),
        is_cell_set(set2),
    ensures
        is_cell_set(r),
        cells_of(r) == cells_of(set1).union(cells_of(set2)),
{
    proof {
        lemma_mask81_distributes();
        crate::bits::lemma_low_mask();
        lemma_mask_values();
        lemma_view_ops(set1 & MASK81, set2 & MASK81, 81);
    }
    new((set1 | set2) & MASK81)
}

/// Returns the cells in both sets.
pub fn intersect(set1: CellSet, set2: CellSet) -> (r: CellSet)
    requires
        is_cell_set(set1),
        is_cell_set(set2),
    ensures
        is_cell_set(r),
        cells_of(r) == cells_of(set1).intersect(cells_of(set2)),
{
    proof {
        lemma_mask81_distributes();
        crate::bits::lemma_low_mask();
        lemma_mask_values();
        lemma_view_ops(set1 & MASK81, set2 & MASK81, 81);
        assert(set1 & set2 & MASK81 == (set1 & set2) & MASK81);
    }
    new(set1 & set2 & MASK81)
}

/// Returns the cells in the first set and not in the second.
pub fn diff(set1: CellSet, set2: CellSet) -> (r: CellSet)
    requires
        is_cell_set(set1),
        is_cell_set(set2),
    ensures
        is_cell_set(r),
        cells_of(r) == cells_of(set1).difference(cells_of(set2)),
{
    proof {
        lemma_mask81_distributes();
        crate::bits::lemma_low_mask();
        lemma_mask_values();
        lemma_view_ops(set1 & MASK81, set2 & MASK81, 81);
        assert(set1 & !set2 & MASK81 == (set1 & !set2) & MASK81);
    }
    new(set1 & !set2 & MASK81)
}

/// Returns the size and the bits, highest cell first, as a debug string.
pub fn debug(set: CellSet) -> (r: String)
    requires
        is_cell_set(set),
    ensures
        r@ == seq![(48 + cells_of(set).len() / 10) as char, (48 + cells_of(set).len() % 10) as char, ':']
            + Seq::new(
            81,
            |i: int|
                if cells_of(set).contains(80 - i) {
                    '1'
                } else {
                    '0'
                },
        ),
{
    let mut s = String::new();
    let n = size(set);
    push_char(&mut s, (48u8 + n / 10) as char);
    push_char(&mut s, (48u8 + n % 10) as char);
    push_char(&mut s, ':');
    let mut i: u8 = 0;
    while i < 81
        invariant
            i <= 81,
            is_cell_set(set),
            n == cells_of(set).len(),
            s@ == seq![(48 + cells_of(set).len() / 10) as char, (48 + cells_of(set).len() % 10) as char, ':']
                + Seq::new(
                i as nat,
                |k: int|
                    if cells_of(set).contains(80 - k) {
                        '1'
                    } else {
                        '0'
                    },
            ),
        decreases 81 - i,
    {
        let c = if has(set, 80 - i) {
            '1'
        } else {
            '0'
        };
        push_char(&mut s, c);
        i = i + 1;
        proof {
            assert(s@ =~= seq![(48 + cells_of(set).len() / 10) as char, (48 + cells_of(set).len() % 10) as char, ':']
                + Seq::new(
                i as nat,
                |k: int|
                    if cells_of(set).contains(80 - k) {
                        '1'
                    } else {
                        '0'
                    },
            ));
        }
    }
    s
}

/// The labels of the members of `s` below `n`, separated by spaces.
pub open spec fn joined_labels(s: Set<int>, n: int) -> Seq<char>
    decreases n,
{
    if n <= 0 {
        Seq::empty()
    } else if s.contains(n - 1) {
        let before = joined_labels(s, n - 1);
        if before.len() == 0 {
            cell_label(n - 1)
        } else {
            before + seq![' '] + cell_label(n - 1)
        }
    } else {
        joined_labels(s, n - 1)
    }
}

/// Returns the labels of the cells in `set` inside parentheses, or the empty mark.
pub fn to_string(set: CellSet) -> (r: String)
    requires
        is_cell_set(set),
    ensures
        cells_of(set) == Set::<int>::empty() ==> r@ == seq![EMPTY],
        cells_of(set) != Set::<int>::empty() ==> r@ == seq!['('] + joined_labels(cells_of(set), 81) + seq![')'],
{
    if is_empty(set) {
        return string_of_char(EMPTY);
    }
    let mut s = String::new();
    let mut first = true;
    push_char(&mut s, '(');
    let mut i: u8 = 0;
    while i < 81
        invariant
            i <= 81,
            is_cell_set(set),
            first == (joined_labels(cells_of(set), i as int).len() == 0),
            s@ == seq!['('] + joined_labels(cells_of(set), i as int),
        decreases 81 - i,
    {
        if has(set, i) {
            if first {
                first = false;
            } else {
                push_char(&mut s, ' ');
            }
            push_str(&mut s, label_from_cell(i).as_str());
        }
        i = i + 1;
        proof {
            assert(s@ =~= seq!['('] + joined_labels(cells_of(set), i as int));
        }
    }
    push_char(&mut s, ')');
    s
}

/// Returns the row of `cell`.
pub fn row_from_cell(cell: Cell) -> (r: Row)
    ensures
        r == cell / 9,
{
    (cell / 9) as Row
}

/// Returns the cell in `row` at `col`, truncated to a byte.
pub fn cell_in_row(row: Row, col: Column) -> (r: Cell)
    requires
        row * 9 + col <= usize::MAX,
    ensures
        r == (row * 9 + col) % 256,
{
    ((row * 9 + col) % 256) as Cell
}

/// Returns the column of `cell`.
pub fn column_from_cell(cell: Cell) -> (r: Column)
    ensures
        r == cell % 9,
{
    (cell % 9) as Column
}

/// Returns the cell in `col` at `row`, truncated to a byte.
pub fn cell_in_column(col: Column, row: Row) -> (r: Cell)
    requires
        row * 9 + col <= usize::MAX,
    ensures
        r == (row * 9 + col) % 256,
{
    ((row * 9 + col) % 256) as Cell
}

/// Returns the block of `cell`.
pub fn block_from_cell(cell: Cell) -> (r: Block)
    ensures
        r == block_of(cell as int),
{
    (3 * (cell / 27) + (cell % 9) / 3) as Block
}

/// Returns the cell at `coord` in `block`, truncated to a byte.
pub fn cell_in_block(block: Block, coord: Coord) -> (r: Cell)
    requires
        27 * (block / 3) + 3 * (block % 3) + 9 * (coord / 3) + (coord % 3) <= usize::MAX,
    ensures
        r == (27 * (block / 3) + 3 * (block % 3) + 9 * (coord / 3) + (coord % 3)) % 256,
{
    ((27 * (block / 3) + 3 * (block % 3) + 9 * (coord / 3) + (coord % 3)) % 256) as Cell
}

/// Returns the label of `cell`.
pub fn label_from_cell(cell: Cell) -> (r: String)
    requires
        cell < 81,
    ensures
        r@ == cell_label(cell as int),
{
    crate::layout::cells::cell::Cell::new(cell).label()
}

/// Returns the cell named by `label`, a row letter 'A' to 'J' and a column digit.
pub fn cell_from_label(label: &str) -> (r: Cell)
    requires
        valid_label(label@),
    ensures
        r == cell_of_label(label@),
{
    let row = (label.get_char(0) as u32 - 65) as u8;
    let col = (label.get_char(1) as u32 - 49) as u8;
    if row == 9 {
        8 * 9 + col
    } else {
        row * 9 + col
    }
}

/// Returns the number of set bits of `bits`, a nibble at a time.
pub fn count_bits(bits: u128) -> (r: u8)
    requires
        bits <= MASK81,
    ensures
        r == crate::bits::count_bits(bits, 81),
{
    proof {
        lemma_mask_values();
    }
    count_nibbles(bits)
}

} // verus!
