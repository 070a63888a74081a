use vstd::prelude::*;
use vstd::set_lib::set_int_range;

use crate::bits::is_least;
use crate::layout::cells::cell_set::CellSet;
use crate::layout::houses::coord::{coord_of_label, is_coord_label, Coord, CoordError};
use crate::layout::houses::coord_set::CoordSet;
use crate::layout::houses::house::{House, HouseError};
use crate::layout::houses::shape::{house_cells, shape_label, shape_name, Shape};
use crate::layout::values::digit_set::EMPTY_SET;
use crate::io::numbers::{decimal, ordinal_suffix, ordinal_suffix_spec};
use crate::text::{lemma_filter_prefix, not_separator, push_char, push_str, string_of};

verus! {

/// A set of houses of one shape.
#[derive(Clone, Copy, Default, Hash, PartialEq, Eq, Structural, PartialOrd, Ord, Debug)]
pub struct HouseSet {
    shape: Shape,
    coords: CoordSet,
}

/// Errors that can occur when parsing a house set.
#[derive(Debug, Clone, PartialEq, Eq)]
pub enum HouseSetError {
    InvalidHouse { position: usize, error: HouseError },
}

impl HouseSetError {
    /// The message that describes this error.
    pub fn to_string(&self) -> (r: String)
        ensures
            self matches HouseSetError::InvalidHouse {
                position,
                error: HouseError::InvalidCoord { shape, error: CoordError::InvalidValue(label) },
            } ==> r@ == "invalid coord '"@ + label@ + "'"@ + " for "@ + shape_name(*shape) + " ("@
                + decimal(position as nat) + ordinal_suffix_spec(position as nat) + ")"@,
    {
        match self {
            HouseSetError::InvalidHouse { position, error } => {
                let mut s = error.to_string();
                push_str(&mut s, " (");
                let n = crate::io::numbers::decimal_string(*position as u128);
                push_str(&mut s, n.as_str());
                push_str(&mut s, ordinal_suffix(*position));
                push_str(&mut s, ")");
                s
            },
        }
    }
}

/// The union of the cells of the houses `hs` of `shape`.
pub open spec fn cells_of_houses(shape: Shape, hs: Set<int>) -> Set<int> {
    Set::new(|c: int| exists|h: int| hs.contains(h) && #[trigger] house_cells(shape, h).contains(c))
}

impl HouseSet {
    /// The shape and the coordinates of the houses in this set.
    pub closed spec fn view(&self) -> (Shape, Set<int>) {
        (self.shape, self.coords@)
    }

    /// Every set is a finite subset of the nine houses.
    pub proof fn lemma_view(self)
        ensures
            self@.1.finite(),
            self@.1.subset_of(set_int_range(0, 9)),
    {
        self.coords.lemma_view();
    }

    /// Returns the set of `shape` houses at `coords`.
    pub fn new(shape: Shape, coords: CoordSet) -> (r: Self)
        ensures
            r@ == (shape, coords@),
    {
        HouseSet { shape, coords }
    }

    /// Returns the set of `shape` houses whose coordinates are labelled in `labels`,
    /// ignoring spaces and commas.
    pub fn try_from_with_shape(shape: Shape, labels: &str) -> (r: Result<Self, HouseSetError>)
        ensures
            ({
                let cleaned = labels@.filter(|c: char| not_separator(c));
                &&& (forall|i: int| 0 <= i < cleaned.len() ==> is_coord_label(#[trigger] cleaned[i]))
                    <==> r is Ok
                &&& r matches Ok(set) ==> set@ == (shape, Set::new(
                    |d: int|
                        exists|i: int|
                            0 <= i < cleaned.len() && coord_of_label(#[trigger] cleaned[i]) == d,
                ))
                &&& r matches Err(HouseSetError::InvalidHouse { position, error }) ==> 1 <= position
                    <= cleaned.len() && !is_coord_label(cleaned[position - 1])
                    && error->shape == shape && error->error == CoordError::InvalidValue(error->error->0)
                    && error->error->0@ == seq![cleaned[position - 1]]
                    && forall|i: int| 0 <= i < position - 1 ==> is_coord_label(#[trigger] cleaned[i])
            }),
    {
        let ghost p = |c: char| not_separator(c);
        let ghost cleaned = labels@.filter(p);
        let n = labels.unicode_len();
        let mut set = CoordSet::empty();
        let mut position: usize = 0;
        let mut i: usize = 0;
        proof {
            assert(labels@.subrange(0, 0) =~= Seq::<char>::empty());
            reveal(Seq::filter);
            assert(set@ =~= Set::new(
                |d: int| exists|k: int| 0 <= k < position && coord_of_label(#[trigger] cleaned[k]) == d,
            ));
        }
        while i < n
            invariant
                n == labels@.len(),
                i <= n,
                p == (|c: char| not_separator(c)),
                cleaned == labels@.filter(p),
                position == labels@.subrange(0, i as int).filter(p).len(),
                forall|k: int| 0 <= k < position ==> cleaned[k] == #[trigger] labels@.subrange(0, i as int).filter(p)[k],
                position <= cleaned.len(),
                forall|k: int| 0 <= k < position ==> is_coord_label(#[trigger] cleaned[k]),
                set@ == Set::new(
                    |d: int| exists|k: int| 0 <= k < position && coord_of_label(#[trigger] cleaned[k]) == d,
                ),
            decreases n - i,
        {
            let c = labels.get_char(i);
            proof {
                lemma_filter_prefix(labels@, i as int, p);
                labels@.lemma_filter_len(p);
                labels@.subrange(0, i + 1).lemma_filter_len(p);
                labels@.subrange(i + 1, n as int).lemma_filter_len(p);
                assert(labels@.subrange(0, i + 1) + labels@.subrange(i + 1, n as int) =~= labels@);
                Seq::filter_distributes_over_add(labels@.subrange(0, i + 1), labels@.subrange(i + 1, n as int), p);
            }
            if c != ' ' && c != ',' {
                match Coord::try_from(c) {
                    Ok(coord) => {
                        let ghost old_set = set@;
                        set.add(coord);
                        proof {
                            assert(cleaned[position as int] == c);
                            assert(set@ =~= Set::new(
                                |d: int| exists|k: int| 0 <= k < position + 1 && coord_of_label(#[trigger] cleaned[k]) == d,
                            )) by {
                                assert forall|d: int| set@.contains(d) implies exists|k: int| 0 <= k < position + 1 && coord_of_label(#[trigger] cleaned[k]) == d by {
                                    if d == coord@ {
                                        assert(coord_of_label(cleaned[position as int]) == d);
                                    }
                                }
                                assert forall|d: int| (exists|k: int| 0 <= k < position + 1 && coord_of_label(#[trigger] cleaned[k]) == d) implies set@.contains(d) by {
                                    let k = choose|k: int| 0 <= k < position + 1 && coord_of_label(#[trigger] cleaned[k]) == d;
                                    if k < position {
                                        assert(old_set.contains(d));
                                    }
                                }
                            }
                        }
                        position = position + 1;
                    },
                    Err(error) => {
                        proof {
                            assert(cleaned[position as int] == c);
                        }
                        return Err(
                            HouseSetError::InvalidHouse {
                                position: position + 1,
                                error: HouseError::InvalidCoord { shape, error },
                            },
                        );
                    },
                }
            }
            i = i + 1;
        }
        proof {
            assert(labels@.subrange(0, n as int) =~= labels@);
            assert(set@ =~= Set::new(
                |d: int| exists|k: int| 0 <= k < cleaned.len() && coord_of_label(#[trigger] cleaned[k]) == d,
            ));
        }
        Ok(HouseSet { shape, coords: set })
    }

    /// Returns an empty set of `shape` houses.
    pub fn empty(shape: Shape) -> (r: Self)
        ensures
            r@ == (shape, Set::<int>::empty()),
    {
        HouseSet { shape, coords: CoordSet::empty() }
    }

    /// Returns the set of all `shape` houses.
    pub fn full(shape: Shape) -> (r: Self)
        ensures
            r@ == (shape, set_int_range(0, 9)),
    {
        HouseSet { shape, coords: CoordSet::full() }
    }

    /// Returns the shape of the houses in this set.
    pub fn shape(&self) -> (r: Shape)
        ensures
            r == self@.0,
    {
        self.shape
    }

    /// Returns true if this set is empty.
    pub fn is_empty(&self) -> (r: bool)
        ensures
            r == (self@.1 == Set::<int>::empty()),
    {
        self.coords.is_empty()
    }

    /// Returns true if this set holds all nine houses.
    pub fn is_full(&self) -> (r: bool)
        ensures
            r == (self@.1 == set_int_range(0, 9)),
    {
        self.coords.is_full()
    }

    /// Returns the number of houses in this set.
    pub fn len(&self) -> (r: usize)
        ensures
            r == self@.1.len(),
    {
        self.coords.len()
    }

    /// Returns true if `house`, which must have the shape of this set, is a member.
    pub fn has(&self, house: House) -> (r: bool)
        requires
            house@.0 == self@.0,
        ensures
            r == self@.1.contains(house@.1),
    {
        self.coords.has(house.coord())
    }

    /// Returns true if the house at `coord` is a member.
    pub fn has_coord(&self, coord: Coord) -> (r: bool)
        ensures
            r == self@.1.contains(coord@),
    {
        self.coords.has(coord)
    }

    /// Returns true if at least one member of `set`, which must have the same shape, is a member.
    pub fn has_any(&self, set: HouseSet) -> (r: bool)
        requires
            set@.0 == self@.0,
        ensures
            r == !self@.1.disjoint(set@.1),
    {
        self.coords.has_any(set.coords)
    }

    /// Returns true if `subset` has the same shape and all its members are members of this set.
    pub fn has_all(&self, subset: HouseSet) -> (r: bool)
        ensures
            r == (self@.0 == subset@.0 && subset@.1.subset_of(self@.1)),
    {
        self.shape == subset.shape && self.coords.has_all(subset.coords)
    }

    /// Returns true if `superset` has the same shape and all members of this set are its members.
    pub fn is_subset_of(&self, superset: HouseSet) -> (r: bool)
        ensures
            r == (self@.0 == superset@.0 && self@.1.subset_of(superset@.1)),
    {
        self.shape == superset.shape && self.coords.is_subset_of(superset.coords)
    }

    /// Returns the cells of the houses in this set.
    pub fn cells(&self) -> (r: CellSet)
        ensures
            r@ == cells_of_houses(self@.0, self@.1),
    {
        let mut cells = CellSet::empty();
        let mut iter = self.iter();
        let ghost done = Set::<int>::empty();
        proof {
            assert(cells@ =~= cells_of_houses(self@.0, done));
            assert(done.union(iter@.1) =~= self@.1);
        }
        loop
            invariant
                iter@.0 == self@.0,
                done.union(iter@.1) == self@.1,
                cells@ == cells_of_houses(self@.0, done),
            ensures
                cells@ == cells_of_houses(self@.0, self@.1),
            decreases iter@.1.len(),
        {
            proof {
                iter.lemma_view();
            }
            match iter.next() {
                Some(house) => {
                    let ghost before = cells@;
                    cells.union_with(house.cells());
                    proof {
                        assert(cells@ =~= cells_of_houses(self@.0, done.insert(house@.1))) by {
                            assert forall|c: int| cells_of_houses(self@.0, done.insert(house@.1)).contains(c) implies cells@.contains(c) by {
                                let h = choose|h: int| done.insert(house@.1).contains(h) && #[trigger] house_cells(self@.0, h).contains(c);
                                if h != house@.1 {
                                    assert(before.contains(c));
                                }
                            }
                        }
                        done = done.insert(house@.1);
                        assert(done.union(iter@.1) =~= self@.1);
                    }
                },
                None => {
                    proof {
                        assert(done =~= self@.1);
                    }
                    break;
                },
            }
        }
        cells
    }

    /// Returns the lone house in this set, if it has exactly one.
    pub fn as_single(&self) -> (r: Option<House>)
        ensures
            self@.1.len() == 1 ==> (r matches Some(h) && h@.0 == self@.0 && self@.1 == set![h@.1]),
            self@.1.len() != 1 ==> r is None,
    {
        match self.coords.as_single() {
            Some(coord) => Some(House::new(self.shape, coord)),
            None => None,
        }
    }

    /// Returns the two houses in this set in order, if it has exactly two.
    pub fn as_pair(&self) -> (r: Option<(House, House)>)
        ensures
            self@.1.len() == 2 ==> (r matches Some((a, b)) && a@.0 == self@.0 && b@.0 == self@.0 && a@.1 < b@.1
                && self@.1 == set![a@.1, b@.1]),
            self@.1.len() != 2 ==> r is None,
    {
        match self.coords.as_pair() {
            Some((first, second)) => Some((House::new(self.shape, first), House::new(self.shape, second))),
            None => None,
        }
    }

    /// Returns the three houses in this set in order, if it has exactly three.
    pub fn as_triple(&self) -> (r: Option<(House, House, House)>)
        ensures
            self@.1.len() == 3 ==> (r matches Some((a, b, c)) && a@.0 == self@.0 && b@.0 == self@.0 && c@.0
                == self@.0 && a@.1 < b@.1 < c@.1 && self@.1 == set![a@.1, b@.1, c@.1]),
            self@.1.len() != 3 ==> r is None,
    {
        match self.coords.as_triple() {
            Some((first, second, third)) => Some(
                (
                    House::new(self.shape, first),
                    House::new(self.shape, second),
                    House::new(self.shape, third),
                ),
            ),
            None => None,
        }
    }

    /// Returns a copy of this set with `house`, which must have its shape, as a member.
    pub fn with(&self, house: House) -> (r: Self)
        requires
            house@.0 == self@.0,
        ensures
            r@ == (self@.0, self@.1.insert(house@.1)),
    {
        self.with_coord(house.coord())
    }

    /// Returns a copy of this set with the house at `coord` as a member.
    pub fn with_coord(&self, coord: Coord) -> (r: Self)
        ensures
            r@ == (self@.0, self@.1.insert(coord@)),
    {
        HouseSet { shape: self.shape, coords: self.coords.with(coord) }
    }

    /// Adds `house`, which must have the shape of this set.
    pub fn add(&mut self, house: House)
        requires
            house@.0 == old(self)@.0,
        ensures
            final(self)@ == (old(self)@.0, old(self)@.1.insert(house@.1)),
    {
        self.add_coord(house.coord());
    }

    /// Adds the house at `coord`.
    pub fn add_coord(&mut self, coord: Coord)
        ensures
            final(self)@ == (old(self)@.0, old(self)@.1.insert(coord@)),
    {
        self.coords.add(coord);
    }

    /// Returns a copy of this set without `house`, which must have its shape.
    pub fn without(&self, house: House) -> (r: Self)
        requires
            house@.0 == self@.0,
        ensures
            r@ == (self@.0, self@.1.remove(house@.1)),
    {
        self.without_coord(house.coord())
    }

    /// Returns a copy of this set without the house at `coord`.
    pub fn without_coord(&self, coord: Coord) -> (r: Self)
        ensures
            r@ == (self@.0, self@.1.remove(coord@)),
    {
        HouseSet { shape: self.shape, coords: self.coords.without(coord) }
    }

    /// Removes `house`, which must have the shape of this set.
    pub fn remove(&mut self, house: House)
        requires
            house@.0 == old(self)@.0,
        ensures
            final(self)@ == (old(self)@.0, old(self)@.1.remove(house@.1)),
    {
        self.remove_coord(house.coord());
    }

    /// Removes the house at `coord`.
    pub fn remove_coord(&mut self, coord: Coord)
        ensures
            final(self)@ == (old(self)@.0, old(self)@.1.remove(coord@)),
    {
        self.coords.remove(coord);
    }

    /// Returns the first house in this set, if any.
    pub fn first(&self) -> (r: Option<House>)
        ensures
            r is None <==> self@.1 == Set::<int>::empty(),
            r matches Some(h) ==> h@.0 == self@.0 && is_least(self@.1, h@.1),
    {
        match self.coords.first() {
            Some(coord) => Some(House::new(self.shape, coord)),
            None => None,
        }
    }

    /// Removes and returns the first house in this set, if any.
    pub fn pop(&mut self) -> (r: Option<House>)
        ensures
            r is None <==> old(self)@.1 == Set::<int>::empty(),
            r is None ==> final(self)@ == old(self)@,
            r matches Some(h) ==> h@.0 == old(self)@.0 && is_least(old(self)@.1, h@.1) && final(self)@
                == (old(self)@.0, old(self)@.1.remove(h@.1)),
    {
        match self.coords.first() {
            Some(coord) => {
                self.remove_coord(coord);
                Some(House::new(self.shape, coord))
            },
            None => None,
        }
    }

    /// Returns the combined members of this set and `set`, which must have the same shape.
    pub fn union(&self, set: Self) -> (r: Self)
        requires
            set@.0 == self@.0,
        ensures
            r@ == (self@.0, self@.1.union(set@.1)),
    {
        HouseSet { shape: self.shape, coords: self.coords.union(set.coords) }
    }

    /// Adds the members of `set`, which must have the same shape.
    pub fn union_with(&mut self, set: Self)
        requires
            set@.0 == old(self)@.0,
        ensures
            final(self)@ == (old(self)@.0, old(self)@.1.union(set@.1)),
    {
        *self = self.union(set);
    }

    /// Returns the common members of this set and `set`, which must have the same shape.
    pub fn intersect(&self, set: Self) -> (r: Self)
        requires
            set@.0 == self@.0,
        ensures
            r@ == (self@.0, self@.1.intersect(set@.1)),
    {
        HouseSet { shape: self.shape, coords: self.coords.intersect(set.coords) }
    }

    /// Keeps only the members of `set`, which must have the same shape.
    pub fn intersect_with(&mut self, set: Self)
        requires
            set@.0 == old(self)@.0,
        ensures
            final(self)@ == (old(self)@.0, old(self)@.1.intersect(set@.1)),
    {
        *self = self.intersect(set);
    }

    /// Returns the members of this set not in `set`, which must have the same shape.
    pub fn minus(&self, set: Self) -> (r: Self)
        requires
            set@.0 == self@.0,
        ensures
            r@ == (self@.0, self@.1.difference(set@.1)),
    {
        HouseSet { shape: self.shape, coords: self.coords.minus(set.coords) }
    }

    /// Removes the members of `set`, which must have the same shape.
    pub fn subtract(&mut self, set: Self)
        requires
            set@.0 == old(self)@.0,
        ensures
            final(self)@ == (old(self)@.0, old(self)@.1.difference(set@.1)),
    {
        *self = self.minus(set);
    }

    /// Returns the houses of this shape that are not in this set.
    pub fn inverted(&self) -> (r: Self)
        ensures
            r@ == (self@.0, set_int_range(0, 9).difference(self@.1)),
    {
        HouseSet { shape: self.shape, coords: self.coords.inverted() }
    }

    /// Replaces this set by the houses of its shape that are not in it.
    pub fn invert(&mut self)
        ensures
            final(self)@ == (old(self)@.0, set_int_range(0, 9).difference(old(self)@.1)),
    {
        *self = self.inverted();
    }

    /// Returns an iterator over the members of this set in order.
    pub fn iter(&self) -> (r: Iter)
        ensures
            r@ == self@,
    {
        Iter { shape: self.shape, coords: self.coords.iter() }
    }

    /// Returns the name of the shape and the debug string of the coordinates.
    pub fn debug(&self) -> (r: String)
        ensures
            r@ == shape_name(self@.0) + seq![' ', (48 + self@.1.len()) as char, ':'] + Seq::new(
                9,
                |i: int|
                    if self@.1.contains(i) {
                        '1'
                    } else {
                        '0'
                    },
            ),
    {
        let mut s = self.shape.name();
        push_char(&mut s, ' ');
        let d = self.coords.debug();
        push_str(&mut s, d.as_str());
        proof {
            assert(s@ =~= shape_name(self@.0) + seq![' '] + d@);
        }
        s
    }

    /// Returns the shape label and the coordinates in parentheses, or the empty-set marker.
    pub fn to_string(&self) -> (r: String)
        ensures
            self@.1 == Set::<int>::empty() ==> r@ == shape_label(self@.0) + seq![' ', EMPTY_SET],
            self@.1 != Set::<int>::empty() ==> r@ == shape_label(self@.0) + seq![' ', '('] + Seq::new(
                9,
                |i: int|
                    if self@.1.contains(i) {
                        (49 + i) as char
                    } else {
                        crate::layout::values::value::MISSING
                    },
            ) + seq![')'],
    {
        let mut s = self.shape.label();
        push_char(&mut s, ' ');
        let d = self.coords.to_string();
        push_str(&mut s, d.as_str());
        proof {
            assert(s@ =~= shape_label(self@.0) + seq![' '] + d@);
        }
        s
    }
}

/// Iterates over the members of a house set in order.
pub struct Iter {
    shape: Shape,
    coords: crate::layout::houses::coord_set::Iter,
}

impl Iter {
    /// The shape and the coordinates not yet returned.
    pub closed spec fn view(&self) -> (Shape, Set<int>) {
        (self.shape, self.coords@)
    }

    /// The coordinates left form a finite set.
    pub proof fn lemma_view(self)
        ensures
            self@.1.finite(),
    {
        self.coords.lemma_view();
    }

    /// Returns the first house not yet returned, if any.
    pub fn next(&mut self) -> (r: Option<House>)
        ensures
            final(self)@.0 == old(self)@.0,
            r is None <==> old(self)@.1 == Set::<int>::empty(),
            r is None ==> final(self)@ == old(self)@,
            r matches Some(h) ==> h@.0 == old(self)@.0 && is_least(old(self)@.1, h@.1)
                && final(self)@.1 == old(self)@.1.remove(h@.1),
    {
        match self.coords.next() {
            Some(coord) => Some(House::new(self.shape, coord)),
            None => None,
        }
    }
}

} // verus!
