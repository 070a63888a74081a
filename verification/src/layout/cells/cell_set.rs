use vstd::prelude::*;
use vstd::set_lib::set_int_range;

use crate::bits::{
    bits_view, count_set_bits, is_least, lemma_mask_bounds, lemma_view_equal, lemma_view_len,
    lemma_view_ops, lemma_view_single, low_mask, lowest_set_bit,
};
use crate::layout::cells::bit::Bit;
use crate::layout::cells::cell::{cell_label, Cell};
use crate::layout::houses::coord::{coord_of_label, is_coord_label, Coord};
use crate::layout::houses::house::House;
use crate::layout::houses::house_set::HouseSet;
use crate::layout::houses::shape::{house_of, lemma_house_of, Shape};
use crate::layout::values::digit_set::EMPTY_SET;
use crate::text::lemma_filter_prefix;
use crate::text::{push_char, push_str};

verus! {


/// A set of cells implemented using a bit field.
#[derive(Clone, Copy, Default, Hash, PartialEq, Eq, Structural, PartialOrd, Ord, Debug)]
pub struct CellSet(u128);

/// The full set of 81 cells as bits.
pub const ALL_SET: u128 = 0x1_ffff_ffff_ffff_ffff_ffff;

/// The members of a set of cells held in the bits `b`.
pub open spec fn view81(b: u128) -> Set<int> {
    bits_view(b, 81)
}

/// The character is skipped when reading a pattern.
pub open spec fn skipped_in_pattern(c: char) -> bool {
    c == ' ' || c == '\r' || c == '\n' || c == '|' || c == '_'
}

/// The character takes a cell when reading a pattern.
pub open spec fn counts_in_pattern(c: char) -> bool {
    !skipped_in_pattern(c)
}

/// The cell that character `i` of a pattern stands for: the count of earlier characters
/// that take a cell.
pub open spec fn pattern_position(s: Seq<char>, i: int) -> int {
    s.subrange(0, i).filter(|c: char| counts_in_pattern(c)).len() as int
}

/// Every digit of the pattern stands for one of the 81 cells, and the pattern is short enough
/// to count.
pub open spec fn pattern_fits(s: Seq<char>) -> bool {
    &&& s.len() < 0x1_0000_0000
    &&& forall|i: int| 0 <= i < s.len() && '1' <= #[trigger] s[i] <= '9' ==> pattern_position(s, i) < 81
}

proof fn lemma_pattern_bound(s: Seq<char>, i: int)
    requires
        0 <= i <= s.len(),
    ensures
        pattern_position(s, i) <= i,
{
    s.subrange(0, i).lemma_filter_len(|c: char| counts_in_pattern(c));
}

/// `s` lists cell labels, each a row label and a column label, separated by single spaces.
pub open spec fn cell_list_labels(s: Seq<char>) -> bool {
    &&& s.len() < 0x1_0000_0000
    &&& (s.len() == 0 || s.len() % 3 == 2)
    &&& forall|i: int| 0 <= i < s.len() && i % 3 != 2 ==> is_coord_label(#[trigger] s[i])
    &&& forall|i: int| 0 <= i < s.len() && i % 3 == 2 ==> #[trigger] s[i] == ' '
}

/// The `k`th cell listed in `s`.
pub open spec fn listed_cell(s: Seq<char>, k: int) -> int {
    coord_of_label(s[3 * k]) * 9 + coord_of_label(s[3 * k + 1])
}

/// The houses of `shape` holding the cells of `cells`.
pub open spec fn houses_of(shape: Shape, cells: Set<int>) -> Set<int> {
    Set::new(|h: int| exists|c: int| cells.contains(c) && house_of(shape, c) == h)
}

/// The labels of the members of `s` below `n`, each after a space.
pub open spec fn set_labels(s: Set<int>, n: int) -> Seq<char>
    decreases n,
{
    if n <= 0 {
        Seq::empty()
    } else if s.contains(n - 1) {
        set_labels(s, n - 1) + seq![' '] + cell_label(n - 1)
    } else {
        set_labels(s, n - 1)
    }
}

proof fn lemma_set_labels_empty(s: Set<int>, n: int)
    requires
        set_labels(s, n).len() == 0,
    ensures
        forall|i: int| 0 <= i < n ==> !s.contains(i),
    decreases n,
{
    if n > 0 {
        if !s.contains(n - 1) {
            lemma_set_labels_empty(s, n - 1);
        }
    }
}

impl CellSet {
    #[verifier::type_invariant]
    spec fn inv(self) -> bool {
        self.0 <= ALL_SET
    }

    /// The zero-based indexes of the cells in this set.
    pub closed spec fn view(&self) -> Set<int> {
        view81(self.0)
    }

    /// Inverting a set twice gives the set back.
    pub proof fn lemma_invert_twice(self)
        ensures
            set_int_range(0, 81).difference(set_int_range(0, 81).difference(self@)) == self@,
    {
        self.lemma_view();
        assert(set_int_range(0, 81).difference(set_int_range(0, 81).difference(self@)) =~= self@);
    }

    /// Every set is a finite subset of the 81 cells.
    pub proof fn lemma_view(self)
        ensures
            self@.finite(),
            self@.subset_of(set_int_range(0, 81)),
            self@.len() <= 81,
    {
        lemma_view_len(self.0 as u128, 81);
        lemma_view_ops(self.0 as u128, 0, 81);
        vstd::set_lib::lemma_int_range(0, 81);
        vstd::set_lib::lemma_len_subset(self@, set_int_range(0, 81));
    }

    proof fn lemma_facts(self, other: Self)
        requires
            self.0 <= ALL_SET,
            other.0 <= ALL_SET,
        ensures
            view81(self.0 | other.0) == self@.union(other@),
            view81(self.0 & other.0) == self@.intersect(other@),
            view81(self.0 & !other.0) == self@.difference(other@),
            view81(!self.0 & ALL_SET) == set_int_range(0, 81).difference(self@),
            view81(0) == Set::<int>::empty(),
            view81(ALL_SET) == set_int_range(0, 81),
            (self.0 == other.0) == (self@ == other@),
            self.0 | other.0 <= ALL_SET,
            self.0 & other.0 <= ALL_SET,
            self.0 & !other.0 <= ALL_SET,
            !self.0 & ALL_SET <= ALL_SET,
    {
        crate::bits::lemma_mask_values();
        lemma_view_ops(self.0 as u128, other.0 as u128, 81);
        lemma_view_equal(self.0 as u128, other.0 as u128, 81);
        lemma_mask_bounds(self.0 as u128, other.0 as u128, 81);
    }

    proof fn lemma_cell(self, d: u128, j: int)
        requires
            self.0 <= ALL_SET,
            0 <= j < 81,
            d == 1u128 << (j as u128),
        ensures
            view81(d) == set![j],
            view81(self.0 | d) == self@.insert(j),
            view81(self.0 & !d) == self@.remove(j),
            (self.0 & d != 0) == self@.contains(j),
            self.0 | d <= ALL_SET,
            self.0 & !d <= ALL_SET,
            d <= ALL_SET,
    {
        crate::bits::lemma_mask_values();
        lemma_view_single(self.0 as u128, j, 81);
        crate::bits::lemma_low_mask();
        assert((1u128 << (j as u128)) <= low_mask(81));
        lemma_mask_bounds(self.0 as u128, d as u128, 81);
    }

    /// Returns a new empty set.
    pub fn empty() -> (r: Self)
        ensures
            r@ == Set::<int>::empty(),
    {
        let r = CellSet(0);
        proof {
            r.lemma_facts(r);
        }
        r
    }

    /// Returns a new full set.
    pub fn full() -> (r: Self)
        ensures
            r@ == set_int_range(0, 81),
    {
        let r = CellSet(ALL_SET);
        proof {
            r.lemma_facts(r);
        }
        r
    }

    /// Returns a new set from the raw bit field `bits`.
    pub fn new(bits: u128) -> (r: Self)
        requires
            bits <= ALL_SET,
        ensures
            r@ == view81(bits),
    {
        CellSet(bits)
    }

    /// Returns true if this set is empty.
    pub fn is_empty(&self) -> (r: bool)
        ensures
            r == (self@ == Set::<int>::empty()),
    {
        proof {
            use_type_invariant(self);
            self.lemma_facts(CellSet(0));
        }
        self.0 == 0
    }

    /// Returns true if this set is full.
    pub fn is_full(&self) -> (r: bool)
        ensures
            r == (self@ == set_int_range(0, 81)),
    {
        proof {
            use_type_invariant(self);
            self.lemma_facts(CellSet(ALL_SET));
        }
        self.0 == ALL_SET
    }

    /// Returns the number of cells in this set.
    pub fn len(&self) -> (r: usize)
        ensures
            r == self@.len(),
            r <= 81,
    {
        count_set_bits(self.0 as u128, 81) as usize
    }

    /// Returns the raw bit field.
    pub fn bits(&self) -> (r: u128)
        ensures
            view81(r) == self@,
            r <= ALL_SET,
    {
        proof {
            use_type_invariant(self);
        }
        self.0
    }

    /// Returns true if `cell` is a member of this set.
    pub fn has(&self, cell: Cell) -> (r: bool)
        ensures
            r == self@.contains(cell@),
    {
        proof {
            use_type_invariant(self);
        }
        let b = cell.bit().bit();
        proof {
            self.lemma_cell(b, cell@);
        }
        self.0 & b != 0
    }

    /// Returns true if at least one member of `set` is a member of this set.
    pub fn has_any(&self, set: Self) -> (r: bool)
        ensures
            r == !self@.disjoint(set@),
    {
        let both = self.intersect(set);
        let r = !both.is_empty();
        proof {
            if self@.disjoint(set@) {
                assert(both@ =~= Set::<int>::empty());
            } else {
                let i = choose|i: int| self@.contains(i) && set@.contains(i);
                assert(both@.contains(i));
            }
        }
        r
    }

    /// Returns true if all members of `subset` are members of this set.
    pub fn has_all(&self, subset: Self) -> (r: bool)
        ensures
            r == subset@.subset_of(self@),
    {
        proof {
            use_type_invariant(self);
            use_type_invariant(&subset);
            self.lemma_facts(subset);
            CellSet(self.0 & subset.0).lemma_facts(subset);
            if subset@.subset_of(self@) {
                assert(self@.intersect(subset@) =~= subset@);
            }
        }
        self.0 & subset.0 == subset.0
    }

    /// Returns true if all members of this set are members of `superset`.
    pub fn is_subset_of(&self, superset: Self) -> (r: bool)
        ensures
            r == self@.subset_of(superset@),
    {
        superset.has_all(*self)
    }

    /// Returns the lone cell in this set, if it has exactly one.
    pub fn as_single(&self) -> (r: Option<Cell>)
        ensures
            self@.len() == 1 ==> (r matches Some(d) && self@ == set![d@]),
            self@.len() != 1 ==> r is None,
    {
        if self.len() != 1 {
            None
        } else {
            let d = self.first().unwrap();
            proof {
                self.lemma_view();
                assert(self@ =~= set![d@]) by {
                    assert(self@.remove(d@).len() == 0);
                    assert forall|i: int| self@.contains(i) implies i == d@ by {
                        if i != d@ {
                            assert(self@.remove(d@).contains(i));
                        }
                    }
                }
            }
            Some(d)
        }
    }

    /// Returns the two cells in this set in order, if it has exactly two.
    pub fn as_pair(&self) -> (r: Option<(Cell, Cell)>)
        ensures
            self@.len() == 2 ==> (r matches Some((a, b)) && a@ < b@ && self@ == set![a@, b@]),
            self@.len() != 2 ==> r is None,
    {
        if self.len() != 2 {
            None
        } else {
            let mut rest = *self;
            let a = rest.pop().unwrap();
            let b = rest.pop().unwrap();
            proof {
                self.lemma_view();
                rest.lemma_view();
                assert(rest@.len() == 0);
                assert(rest@ =~= Set::<int>::empty());
                assert(self@ =~= set![a@, b@]);
            }
            Some((a, b))
        }
    }

    /// Returns the three cells in this set in order, if it has exactly three.
    pub fn as_triple(&self) -> (r: Option<(Cell, Cell, Cell)>)
        ensures
            self@.len() == 3 ==> (r matches Some((a, b, c)) && a@ < b@ < c@ && self@ == set![
                a@,
                b@,
                c@,
            ]),
            self@.len() != 3 ==> r is None,
    {
        if self.len() != 3 {
            None
        } else {
            let mut rest = *self;
            let a = rest.pop().unwrap();
            let b = rest.pop().unwrap();
            let c = rest.pop().unwrap();
            proof {
                self.lemma_view();
                rest.lemma_view();
                assert(rest@.len() == 0);
                assert(rest@ =~= Set::<int>::empty());
                assert(self@ =~= set![a@, b@, c@]);
            }
            Some((a, b, c))
        }
    }

    /// Returns a copy of this set with `cell` as a member.
    pub fn with(&self, cell: Cell) -> (r: Self)
        ensures
            r@ == self@.insert(cell@),
    {
        proof {
            use_type_invariant(self);
        }
        let b = cell.bit().bit();
        proof {
            self.lemma_cell(b, cell@);
        }
        CellSet(self.0 | b)
    }

    /// Adds `cell` to this set.
    pub fn add(&mut self, cell: Cell)
        ensures
            final(self)@ == old(self)@.insert(cell@),
    {
        *self = self.with(cell);
    }

    /// Returns a copy of this set without `cell` as a member.
    pub fn without(&self, cell: Cell) -> (r: Self)
        ensures
            r@ == self@.remove(cell@),
    {
        proof {
            use_type_invariant(self);
        }
        let b = cell.bit().bit();
        proof {
            self.lemma_cell(b, cell@);
        }
        CellSet(self.0 & !b)
    }

    /// Removes `cell` from this set.
    pub fn remove(&mut self, cell: Cell)
        ensures
            final(self)@ == old(self)@.remove(cell@),
    {
        *self = self.without(cell);
    }

    /// Returns the lowest cell in this set, if any.
    pub fn first(&self) -> (r: Option<Cell>)
        ensures
            r is None <==> self@ == Set::<int>::empty(),
            r matches Some(d) ==> is_least(self@, d@),
    {
        match lowest_set_bit(self.0 as u128, 81) {
            Some(i) => Some(Cell::new(i as u8)),
            None => None,
        }
    }

    /// Removes and returns the lowest cell in this set, if any.
    pub fn pop(&mut self) -> (r: Option<Cell>)
        ensures
            r is None <==> old(self)@ == Set::<int>::empty(),
            r is None ==> final(self)@ == old(self)@,
            r matches Some(d) ==> is_least(old(self)@, d@) && final(self)@ == old(self)@.remove(
                d@,
            ),
    {
        match self.first() {
            Some(cell) => {
                self.remove(cell);
                Some(cell)
            },
            None => None,
        }
    }

    /// Returns the combined members of this set and `set`.
    pub fn union(&self, set: Self) -> (r: Self)
        ensures
            r@ == self@.union(set@),
    {
        proof {
            use_type_invariant(self);
            use_type_invariant(&set);
            self.lemma_facts(set);
            if self.0 == set.0 {
                assert(self@.union(set@) =~= self@);
            }
        }
        if self.0 == set.0 {
            *self
        } else {
            CellSet(self.0 | set.0)
        }
    }

    /// Adds the members of `set` to this set.
    pub fn union_with(&mut self, set: Self)
        ensures
            final(self)@ == old(self)@.union(set@),
    {
        *self = self.union(set);
    }

    /// Returns the common members of this set and `set`.
    pub fn intersect(&self, set: Self) -> (r: Self)
        ensures
            r@ == self@.intersect(set@),
    {
        proof {
            use_type_invariant(self);
            use_type_invariant(&set);
            self.lemma_facts(set);
            if self.0 == set.0 {
                assert(self@.intersect(set@) =~= self@);
            }
        }
        if self.0 == set.0 {
            *self
        } else {
            CellSet(self.0 & set.0)
        }
    }

    /// Removes all members of this set that are not members of `set`.
    pub fn intersect_with(&mut self, set: Self)
        ensures
            final(self)@ == old(self)@.intersect(set@),
    {
        *self = self.intersect(set);
    }

    /// Returns the members of this set that are not in `set`.
    pub fn minus(&self, set: Self) -> (r: Self)
        ensures
            r@ == self@.difference(set@),
    {
        proof {
            use_type_invariant(self);
            use_type_invariant(&set);
            self.lemma_facts(set);
            if self.0 == set.0 {
                assert(self@.difference(set@) =~= Set::<int>::empty());
            }
        }
        if self.0 == set.0 {
            CellSet::empty()
        } else {
            CellSet(self.0 & !set.0)
        }
    }

    /// Removes all members of `set` from this set.
    pub fn subtract(&mut self, set: Self)
        ensures
            final(self)@ == old(self)@.difference(set@),
    {
        *self = self.minus(set);
    }

    /// Returns the cells that are not in this set.
    pub fn inverted(&self) -> (r: Self)
        ensures
            r@ == set_int_range(0, 81).difference(self@),
    {
        proof {
            use_type_invariant(self);
            self.lemma_facts(*self);
        }
        CellSet(!self.0 & ALL_SET)
    }

    /// Replaces this set by the cells that are not in it.
    pub fn invert(&mut self)
        ensures
            final(self)@ == set_int_range(0, 81).difference(old(self)@),
    {
        *self = self.inverted();
    }

    /// Returns an iterator over the members of this set in increasing order.
    pub fn iter(&self) -> (r: CellIter)
        ensures
            r@ == self@,
    {
        proof {
            use_type_invariant(self);
        }
        CellIter { bits: self.0 }
    }

    /// Returns a new set containing the cells with a digit in the packed string `puzzle`,
    /// skipping spaces, line breaks, pipes and underscores.
    pub fn new_from_pattern(puzzle: &str) -> (r: Self)
        requires
            pattern_fits(puzzle@),
        ensures
            r@ == Set::new(
                |c: int|
                    exists|i: int|
                        0 <= i < puzzle@.len() && '1' <= #[trigger] puzzle@[i] <= '9'
                            && pattern_position(puzzle@, i) == c,
            ),
    {
        let n = puzzle.unicode_len();
        let mut set = CellSet::empty();
        let mut c: u32 = 0;
        let mut i: usize = 0;
        while i < n
            invariant
                n == puzzle@.len(),
                i <= n,
                pattern_fits(puzzle@),
                c == pattern_position(puzzle@, i as int),
                set@ == Set::new(
                    |d: int|
                        exists|j: int|
                            0 <= j < i && '1' <= #[trigger] puzzle@[j] <= '9'
                                && pattern_position(puzzle@, j) == d,
                ),
            decreases n - i,
        {
            let ch = puzzle.get_char(i);
            proof {
                lemma_filter_prefix(puzzle@, i as int, |x: char| counts_in_pattern(x));
                puzzle@.subrange(0, i as int).lemma_filter_len(|x: char| counts_in_pattern(x));
                lemma_pattern_bound(puzzle@, i as int);
            }
            let ghost before = set@;
            if !(ch == ' ' || ch == '\r' || ch == '\n' || ch == '|' || ch == '_') {
                if '1' <= ch && ch <= '9' {
                    set.add(Cell::new(c as u8));
                }
                c = c + 1;
            }
            proof {
                assert(set@ =~= Set::new(
                    |d: int|
                        exists|j: int|
                            0 <= j < i + 1 && '1' <= #[trigger] puzzle@[j] <= '9'
                                && pattern_position(puzzle@, j) == d,
                )) by {
                    assert forall|d: int| set@.contains(d) implies exists|j: int|
                        0 <= j < i + 1 && '1' <= #[trigger] puzzle@[j] <= '9'
                            && pattern_position(puzzle@, j) == d by {
                        if !before.contains(d) {
                            assert('1' <= puzzle@[i as int] <= '9' && pattern_position(puzzle@, i as int) == d);
                        }
                    }
                    assert forall|d: int| (exists|j: int|
                        0 <= j < i + 1 && '1' <= #[trigger] puzzle@[j] <= '9'
                            && pattern_position(puzzle@, j) == d) implies set@.contains(d) by {
                        let j = choose|j: int|
                            0 <= j < i + 1 && '1' <= #[trigger] puzzle@[j] <= '9'
                                && pattern_position(puzzle@, j) == d;
                        if j < i {
                            assert(before.contains(d));
                        }
                    }
                }
            }
            i = i + 1;
        }
        set
    }

    /// Returns a new set containing each cell in `cells`.
    pub fn of(cells: &[Cell]) -> (r: Self)
        ensures
            r@ == Set::new(|c: int| exists|i: int| 0 <= i < cells@.len() && #[trigger] cells@[i]@ == c),
    {
        let mut set = CellSet::empty();
        let mut i: usize = 0;
        while i < cells.len()
            invariant
                i <= cells@.len(),
                set@ == Set::new(|c: int| exists|k: int| 0 <= k < i && #[trigger] cells@[k]@ == c),
            decreases cells@.len() - i,
        {
            let ghost before = set@;
            set.add(cells[i]);
            proof {
                assert(set@ =~= Set::new(|c: int| exists|k: int| 0 <= k < i + 1 && #[trigger] cells@[k]@ == c)) by {
                    assert forall|c: int| set@.contains(c) implies exists|k: int| 0 <= k < i + 1 && #[trigger] cells@[k]@ == c by {
                        if !before.contains(c) {
                            assert(cells@[i as int]@ == c);
                        }
                    }
                    assert forall|c: int| (exists|k: int| 0 <= k < i + 1 && #[trigger] cells@[k]@ == c) implies set@.contains(c) by {
                        let k = choose|k: int| 0 <= k < i + 1 && #[trigger] cells@[k]@ == c;
                        if k < i {
                            assert(before.contains(c));
                        }
                    }
                }
            }
            i = i + 1;
        }
        set
    }

    /// Returns the set of the cells labelled in `labels`, the labels separated by single spaces.
    pub fn from(labels: &str) -> (r: Self)
        requires
            cell_list_labels(labels@),
        ensures
            r@ == Set::new(
                |c: int|
                    exists|k: int|
                        0 <= k < (labels@.len() + 1) / 3 && listed_cell(labels@, k) == c,
            ),
    {
        let n = labels.unicode_len();
        let mut set = CellSet::empty();
        if n == 0 {
            proof {
                assert(set@ =~= Set::new(
                    |c: int|
                        exists|k: int|
                            0 <= k < (labels@.len() + 1) / 3 && listed_cell(labels@, k) == c,
                ));
            }
            return set;
        }
        let mut k: usize = 0;
        let count = (n + 1) / 3;
        while k < count
            invariant
                n == labels@.len(),
                count == (n + 1) / 3,
                k <= count,
                cell_list_labels(labels@),
                set@ == Set::new(
                    |c: int| exists|j: int| 0 <= j < k && listed_cell(labels@, j) == c,
                ),
            decreases count - k,
        {
            let row = Coord::try_from(labels.get_char(3 * k)).unwrap();
            let column = Coord::try_from(labels.get_char(3 * k + 1)).unwrap();
            let cell = Cell::from_coords(row, column);
            let ghost before = set@;
            set.add(cell);
            proof {
                assert(set@ =~= Set::new(
                    |c: int| exists|j: int| 0 <= j < k + 1 && listed_cell(labels@, j) == c,
                )) by {
                    assert forall|c: int| set@.contains(c) implies exists|j: int| 0 <= j < k + 1 && listed_cell(labels@, j) == c by {
                        if !before.contains(c) {
                            assert(listed_cell(labels@, k as int) == c);
                        }
                    }
                    assert forall|c: int| (exists|j: int| 0 <= j < k + 1 && listed_cell(labels@, j) == c) implies set@.contains(c) by {
                        let j = choose|j: int| 0 <= j < k + 1 && listed_cell(labels@, j) == c;
                        if j < k {
                            assert(before.contains(c));
                        }
                    }
                }
            }
            k = k + 1;
        }
        set
    }

    /// Returns the cells of `house`.
    pub fn from_house(house: House) -> (r: Self)
        ensures
            r@ == crate::layout::houses::shape::house_cells(house@.0, house@.1),
    {
        house.cells()
    }

    /// Returns the minimal set of rows containing the members of this set.
    pub fn rows(&self) -> (r: HouseSet)
        ensures
            r@ == (Shape::Row, houses_of(Shape::Row, self@)),
    {
        self.houses(Shape::Row)
    }

    /// Returns the minimal set of columns containing the members of this set.
    pub fn columns(&self) -> (r: HouseSet)
        ensures
            r@ == (Shape::Column, houses_of(Shape::Column, self@)),
    {
        self.houses(Shape::Column)
    }

    /// Returns the minimal set of blocks containing the members of this set.
    pub fn blocks(&self) -> (r: HouseSet)
        ensures
            r@ == (Shape::Block, houses_of(Shape::Block, self@)),
    {
        self.houses(Shape::Block)
    }

    /// Returns the minimal set of `shape` houses containing the members of this set.
    pub fn houses(&self, shape: Shape) -> (r: HouseSet)
        ensures
            r@ == (shape, houses_of(shape, self@)),
    {
        let mut set = HouseSet::empty(shape);
        let mut i: u8 = 0;
        while i < 81
            invariant
                i <= 81,
                set@.0 == shape,
                set@.1 == Set::new(
                    |h: int| exists|c: int| 0 <= c < i && self@.contains(c) && house_of(shape, c) == h,
                ),
            decreases 81 - i,
        {
            let cell = Cell::new(i);
            let ghost before = set@.1;
            if self.has(cell) {
                let house = cell.house(shape);
                set.add(house);
            }
            proof {
                assert(set@.1 =~= Set::new(
                    |h: int| exists|c: int| 0 <= c < i + 1 && self@.contains(c) && house_of(shape, c) == h,
                )) by {
                    assert forall|h: int| set@.1.contains(h) implies exists|c: int| 0 <= c < i + 1 && self@.contains(c) && house_of(shape, c) == h by {
                        if !before.contains(h) {
                            assert(self@.contains(i as int) && house_of(shape, i as int) == h);
                        }
                    }
                    assert forall|h: int| (exists|c: int| 0 <= c < i + 1 && self@.contains(c) && house_of(shape, c) == h) implies set@.1.contains(h) by {
                        let c = choose|c: int| 0 <= c < i + 1 && self@.contains(c) && house_of(shape, c) == h;
                        if c < i {
                            assert(before.contains(h));
                        }
                    }
                }
            }
            i = i + 1;
        }
        proof {
            self.lemma_view();
            assert(set@.1 =~= houses_of(shape, self@));
        }
        set
    }

    /// Returns an iterator over the members of this set as bits in row-then-column order.
    pub fn bit_iter(&self) -> (r: BitIter)
        ensures
            r@ == self@,
    {
        BitIter { iter: self.iter() }
    }

    /// Returns a packed pattern string with a `1` for each member of this set.
    pub fn pattern_string(&self) -> (r: String)
        ensures
            r@ == Seq::new(
                81,
                |i: int|
                    if self@.contains(i) {
                        '1'
                    } else {
                        '.'
                    },
            ),
    {
        let mut s = String::new();
        let mut i: u8 = 0;
        while i < 81
            invariant
                i <= 81,
                s@ == Seq::new(
                    i as nat,
                    |k: int|
                        if self@.contains(k) {
                            '1'
                        } else {
                            '.'
                        },
                ),
            decreases 81 - i,
        {
            let c = if self.has(Cell::new(i)) {
                '1'
            } else {
                '.'
            };
            push_char(&mut s, c);
            i = i + 1;
            proof {
                assert(s@ =~= Seq::new(
                    i as nat,
                    |k: int|
                        if self@.contains(k) {
                            '1'
                        } else {
                            '.'
                        },
                ));
            }
        }
        s
    }

    /// Returns the size and the membership of each cell as a debug string.
    pub fn debug(&self) -> (r: String)
        ensures
            r@ == seq![(48 + self@.len() / 10) as char, (48 + self@.len() % 10) as char, ':'] + Seq::new(
                81,
                |i: int|
                    if self@.contains(i) {
                        '1'
                    } else {
                        '0'
                    },
            ),
    {
        let mut s = String::new();
        let n = self.len();
        push_char(&mut s, (48u8 + (n / 10) as u8) as char);
        push_char(&mut s, (48u8 + (n % 10) as u8) as char);
        push_char(&mut s, ':');
        let mut i: u8 = 0;
        while i < 81
            invariant
                i <= 81,
                n == self@.len(),
                s@ == seq![(48 + self@.len() / 10) as char, (48 + self@.len() % 10) as char, ':'] + Seq::new(
                    i as nat,
                    |k: int|
                        if self@.contains(k) {
                            '1'
                        } else {
                            '0'
                        },
                ),
            decreases 81 - i,
        {
            let c = if self.has(Cell::new(i)) {
                '1'
            } else {
                '0'
            };
            push_char(&mut s, c);
            i = i + 1;
            proof {
                assert(s@ =~= seq![(48 + self@.len() / 10) as char, (48 + self@.len() % 10) as char, ':'] + Seq::new(
                    i as nat,
                    |k: int|
                        if self@.contains(k) {
                            '1'
                        } else {
                            '0'
                        },
                ));
            }
        }
        s
    }

    /// Returns the labels of the cells in this set, separated by spaces.
    pub fn to_string(&self) -> (r: String)
        ensures
            self@ == Set::<int>::empty() ==> r@ == seq![EMPTY_SET],
            self@ != Set::<int>::empty() ==> r@ == set_labels(self@, 81).drop_first(),
    {
        let mut s = String::new();
        if self.is_empty() {
            push_char(&mut s, EMPTY_SET);
            proof {
                assert(s@ =~= seq![EMPTY_SET]);
            }
            return s;
        }
        let mut i: u8 = 0;
        let mut first = true;
        while i < 81
            invariant
                i <= 81,
                first == (set_labels(self@, i as int).len() == 0),
                first ==> s@ == Seq::<char>::empty(),
                !first ==> s@ == set_labels(self@, i as int).drop_first(),
            decreases 81 - i,
        {
            let cell = Cell::new(i);
            if self.has(cell) {
                if !first {
                    push_char(&mut s, ' ');
                }
                let label = cell.label();
                push_str(&mut s, label.as_str());
                proof {
                    if first {
                        assert(s@ =~= set_labels(self@, i + 1).drop_first());
                    } else {
                        assert(s@ =~= set_labels(self@, i + 1).drop_first());
                    }
                }
                first = false;
            }
            i = i + 1;
        }
        proof {
            if first {
                lemma_set_labels_empty(self@, 81);
                assert(self@ =~= Set::<int>::empty()) by {
                    self.lemma_view();
                }
            }
        }
        s
    }

}

/// Iterates over the members of a cell set as bits in row-then-column order.
pub struct BitIter {
    iter: CellIter,
}

impl BitIter {
    /// The members not yet returned.
    pub closed spec fn view(&self) -> Set<int> {
        self.iter@
    }

    /// Returns the bit of the lowest member not yet returned, if any.
    pub fn next(&mut self) -> (r: Option<Bit>)
        ensures
            r is None <==> old(self)@ == Set::<int>::empty(),
            r is None ==> final(self)@ == old(self)@,
            r matches Some(b) ==> is_least(old(self)@, b@) && final(self)@ == old(self)@.remove(
                b@,
            ),
    {
        match self.iter.next() {
            Some(cell) => Some(cell.bit()),
            None => None,
        }
    }
}

/// Iterates over the members of a cell set in row-then-column order.
pub struct CellIter {
    bits: u128,
}

impl CellIter {
    /// The members not yet returned.
    pub closed spec fn view(&self) -> Set<int> {
        view81(self.bits)
    }

    /// The members left form a finite set.
    pub proof fn lemma_view(self)
        ensures
            self@.finite(),
    {
        lemma_view_len(self.bits, 81);
    }

    /// Returns the lowest member not yet returned, if any.
    pub fn next(&mut self) -> (r: Option<Cell>)
        ensures
            r is None <==> old(self)@ == Set::<int>::empty(),
            r is None ==> final(self)@ == old(self)@,
            r matches Some(d) ==> is_least(old(self)@, d@) && final(self)@ == old(self)@.remove(
                d@,
            ),
    {
        match lowest_set_bit(self.bits as u128, 81) {
            Some(i) => {
                let d = Cell::new(i as u8);
                let b = d.bit().bit();
                proof {
                    lemma_view_single(self.bits as u128, i as int, 81);
                }
                self.bits = self.bits & !b;
                Some(d)
            },
            None => None,
        }
    }
}

} // verus!
