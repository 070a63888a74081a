//! Actions that set cells and erase candidates, grouped by the strategy that found them.
use vstd::prelude::*;

use crate::layout::cells::cell::Cell;
use crate::layout::knowns::known::Known;
use crate::layout::knowns::set::KnownSet;

verus! {

/// The strategies that produce actions.
#[derive(Clone, Copy, Debug, PartialEq, Eq, Structural)]
pub enum Strategy {
    Neighbor,
    NakedSingle,
    HiddenSingle,
    PointingPair,
    PointingTriple,
    BoxLineReduction,
}

/// No cell appears twice among the entries.
pub open spec fn distinct_keys<V>(entries: Seq<(Cell, V)>) -> bool {
    forall|i: int, j: int|
        0 <= i < j < entries.len() ==> (#[trigger] entries[i]).0@ != (#[trigger] entries[j]).0@
}

/// The map from cell to known held by `entries`.
pub open spec fn set_map(entries: Seq<(Cell, Known)>) -> Map<int, int> {
    Map::new(
        |c: int| exists|i: int| 0 <= i < entries.len() && (#[trigger] entries[i]).0@ == c,
        |c: int| (entries[choose|i: int| 0 <= i < entries.len() && (#[trigger] entries[i]).0@ == c]).1@,
    )
}

/// The map from cell to the knowns to erase held by `entries`.
pub open spec fn erase_map(entries: Seq<(Cell, KnownSet)>) -> Map<int, Set<int>> {
    Map::new(
        |c: int| exists|i: int| 0 <= i < entries.len() && (#[trigger] entries[i]).0@ == c,
        |c: int| (entries[choose|i: int| 0 <= i < entries.len() && (#[trigger] entries[i]).0@ == c]).1@,
    )
}

/// Knowns to set and candidates to erase, found by one strategy.
#[derive(Debug)]
pub struct Action {
    strategy: Strategy,
    set: Vec<(Cell, Known)>,
    erase: Vec<(Cell, KnownSet)>,
}

impl Action {
    #[verifier::type_invariant]
    spec fn inv(self) -> bool {
        &&& distinct_keys(self.set@)
        &&& distinct_keys(self.erase@)
    }

    /// The strategy that found this action.
    pub closed spec fn strategy_spec(&self) -> Strategy {
        self.strategy
    }

    /// The zero-based known to set in each cell.
    pub closed spec fn sets(&self) -> Map<int, int> {
        set_map(self.set@)
    }

    /// The zero-based knowns to erase from each cell.
    pub closed spec fn erases(&self) -> Map<int, Set<int>> {
        erase_map(self.erase@)
    }

    /// Returns an empty action for `strategy`.
    pub fn new(strategy: Strategy) -> (r: Self)
        ensures
            r.strategy_spec() == strategy,
            r.sets() == Map::<int, int>::empty(),
            r.erases() == Map::<int, Set<int>>::empty(),
    {
        let r = Self { strategy, set: Vec::new(), erase: Vec::new() };
        proof {
            assert(r.sets() =~= Map::<int, int>::empty());
            assert(r.erases() =~= Map::<int, Set<int>>::empty());
        }
        r
    }

    /// Returns an action for `strategy` that sets `cell` to `known`.
    pub fn new_set(strategy: Strategy, cell: Cell, known: Known) -> (r: Self)
        ensures
            r.strategy_spec() == strategy,
            r.sets() == map![cell@ => known@],
            r.erases() == Map::<int, Set<int>>::empty(),
    {
        let mut r = Action::new(strategy);
        r.set(cell, known);
        proof {
            assert(r.sets() =~= map![cell@ => known@]);
        }
        r
    }

    /// Returns an action for `strategy` that erases `known` from `cell`.
    pub fn new_erase(strategy: Strategy, cell: Cell, known: Known) -> (r: Self)
        ensures
            r.strategy_spec() == strategy,
            r.sets() == Map::<int, int>::empty(),
            r.erases() == map![cell@ => set![known@]],
    {
        let mut r = Action::new(strategy);
        r.erase(cell, known);
        proof {
            assert(Set::<int>::empty().insert(known@) =~= set![known@]);
            assert(r.erases() =~= map![cell@ => set![known@]]);
        }
        r
    }

    /// Sets `cell` to `known`, replacing any known set for it before.
    pub fn set(&mut self, cell: Cell, known: Known)
        ensures
            final(self).strategy_spec() == old(self).strategy_spec(),
            final(self).sets() == old(self).sets().insert(cell@, known@),
            final(self).erases() == old(self).erases(),
    {
        proof {
            use_type_invariant(&*self);
        }
        let ghost old_set = self.set@;
        let mut set: Vec<(Cell, Known)> = Vec::new();
        std::mem::swap(&mut set, &mut self.set);
        let mut i: usize = 0;
        while i < set.len()
            invariant
                i <= set@.len(),
                set@ == old_set,
                old_set == old(self).set@,
                distinct_keys(old_set),
                self.strategy == old(self).strategy,
                self.erase@ == old(self).erase@,
                distinct_keys(self.erase@),
                self.set@ == Seq::<(Cell, Known)>::empty(),
                forall|k: int| 0 <= k < i ==> (#[trigger] set@[k]).0@ != cell@,
            decreases set@.len() - i,
        {
            if set[i].0 == cell {
                proof {
                    Cell::lemma_view_eq(set@[i as int].0, cell);
                }
                set.set(i, (cell, known));
                proof {
                    assert forall|c: int| #[trigger] set_map(set@).dom().contains(c) == old_set_map_dom(old_set, cell@, c) by {
                        if c == cell@ {
                            assert(set@[i as int].0@ == c);
                            assert(old_set[i as int].0@ == c);
                        } else {
                            if exists|k: int| 0 <= k < old_set.len() && (#[trigger] old_set[k]).0@ == c {
                                let k = choose|k: int| 0 <= k < old_set.len() && (#[trigger] old_set[k]).0@ == c;
                                assert(set@[k].0@ == c);
                            }
                        }
                    }
                    assert forall|c: int| set_map(set@).dom().contains(c) implies set_map(set@)[c] == set_map(old_set).insert(cell@, known@)[c] by {
                        let k = choose|k: int| 0 <= k < set@.len() && (#[trigger] set@[k]).0@ == c;
                        if c == cell@ {
                            assert(old_set[k].0@ == old_set[i as int].0@);
                            assert(k == i);
                        } else {
                            let j = choose|j: int| 0 <= j < old_set.len() && (#[trigger] old_set[j]).0@ == c;
                            assert(set@[j].0@ == c);
                            assert(j == k);
                        }
                    }
                    assert(set_map(set@) =~= set_map(old_set).insert(cell@, known@));
                    assert(distinct_keys(set@)) by {
                        assert forall|a: int, b: int| 0 <= a < b < set@.len() implies (#[trigger] set@[a]).0@ != (#[trigger] set@[b]).0@ by {
                            assert(old_set[a].0@ != old_set[b].0@);
                        }
                    }
                }
                self.set = set;
                return;
            }
            proof {
                Cell::lemma_view_eq(set@[i as int].0, cell);
            }
            i = i + 1;
        }
        set.push((cell, known));
        proof {
            let n = old_set.len() as int;
            assert(set@[n].0@ == cell@);
            assert forall|c: int| #[trigger] set_map(set@).dom().contains(c) == old_set_map_dom(old_set, cell@, c) by {
                if c != cell@ && exists|k: int| 0 <= k < old_set.len() && (#[trigger] old_set[k]).0@ == c {
                    let k = choose|k: int| 0 <= k < old_set.len() && (#[trigger] old_set[k]).0@ == c;
                    assert(set@[k].0@ == c);
                }
            }
            assert forall|c: int| set_map(set@).dom().contains(c) implies set_map(set@)[c] == set_map(old_set).insert(cell@, known@)[c] by {
                let k = choose|k: int| 0 <= k < set@.len() && (#[trigger] set@[k]).0@ == c;
                if c == cell@ {
                    assert(k == n);
                } else {
                    let j = choose|j: int| 0 <= j < old_set.len() && (#[trigger] old_set[j]).0@ == c;
                    assert(set@[j].0@ == c);
                    assert(j == k);
                }
            }
            assert(set_map(set@) =~= set_map(old_set).insert(cell@, known@));
            assert(distinct_keys(set@)) by {
                assert forall|a: int, b: int| 0 <= a < b < set@.len() implies (#[trigger] set@[a]).0@ != (#[trigger] set@[b]).0@ by {
                    if b < n {
                        assert(old_set[a].0@ != old_set[b].0@);
                    }
                }
            }
        }
        self.set = set;
    }

    /// Adds `known` to the knowns to erase from `cell`.
    pub fn erase(&mut self, cell: Cell, known: Known)
        ensures
            final(self).strategy_spec() == old(self).strategy_spec(),
            final(self).sets() == old(self).sets(),
            final(self).erases() == old(self).erases().insert(
                cell@,
                if old(self).erases().dom().contains(cell@) {
                    old(self).erases()[cell@].insert(known@)
                } else {
                    set![known@]
                },
            ),
    {
        proof {
            use_type_invariant(&*self);
        }
        let ghost old_erase = self.erase@;
        let mut erase: Vec<(Cell, KnownSet)> = Vec::new();
        std::mem::swap(&mut erase, &mut self.erase);
        let ghost target = if erase_map(old_erase).dom().contains(cell@) {
            erase_map(old_erase)[cell@].insert(known@)
        } else {
            set![known@]
        };
        let mut i: usize = 0;
        while i < erase.len()
            invariant
                i <= erase@.len(),
                erase@ == old_erase,
                old_erase == old(self).erase@,
                distinct_keys(old_erase),
                self.strategy == old(self).strategy,
                self.set@ == old(self).set@,
                distinct_keys(self.set@),
                self.erase@ == Seq::<(Cell, KnownSet)>::empty(),
                target == (if erase_map(old_erase).dom().contains(cell@) {
                    erase_map(old_erase)[cell@].insert(known@)
                } else {
                    set![known@]
                }),
                forall|k: int| 0 <= k < i ==> (#[trigger] erase@[k]).0@ != cell@,
            decreases erase@.len() - i,
        {
            if erase[i].0 == cell {
                proof {
                    Cell::lemma_view_eq(erase@[i as int].0, cell);
                    assert(erase_map(old_erase).dom().contains(cell@));
                    let k = choose|k: int| 0 <= k < old_erase.len() && (#[trigger] old_erase[k]).0@ == cell@;
                    assert(old_erase[k].0@ == old_erase[i as int].0@);
                    assert(k == i);
                }
                let knowns = erase[i].1.with(known);
                erase.set(i, (cell, knowns));
                proof {
                    assert(knowns@ == target);
                    assert forall|c: int| #[trigger] erase_map(erase@).dom().contains(c) == erase_map(old_erase).insert(cell@, target).dom().contains(c) by {
                        if c == cell@ {
                            assert(erase@[i as int].0@ == c);
                        } else if exists|k: int| 0 <= k < old_erase.len() && (#[trigger] old_erase[k]).0@ == c {
                            let k = choose|k: int| 0 <= k < old_erase.len() && (#[trigger] old_erase[k]).0@ == c;
                            assert(erase@[k].0@ == c);
                        }
                    }
                    assert forall|c: int| erase_map(erase@).dom().contains(c) implies erase_map(erase@)[c] == erase_map(old_erase).insert(cell@, target)[c] by {
                        let k = choose|k: int| 0 <= k < erase@.len() && (#[trigger] erase@[k]).0@ == c;
                        if c == cell@ {
                            assert(erase@[k].0@ == erase@[i as int].0@);
                            assert(old_erase[k].0@ == old_erase[i as int].0@);
                            assert(k == i);
                        } else {
                            let j = choose|j: int| 0 <= j < old_erase.len() && (#[trigger] old_erase[j]).0@ == c;
                            assert(erase@[j].0@ == c);
                            assert(j == k);
                        }
                    }
                    assert(erase_map(erase@) =~= erase_map(old_erase).insert(cell@, target));
                    assert(distinct_keys(erase@)) by {
                        assert forall|a: int, b: int| 0 <= a < b < erase@.len() implies (#[trigger] erase@[a]).0@ != (#[trigger] erase@[b]).0@ by {
                            assert(old_erase[a].0@ != old_erase[b].0@);
                        }
                    }
                }
                self.erase = erase;
                return;
            }
            proof {
                Cell::lemma_view_eq(erase@[i as int].0, cell);
            }
            i = i + 1;
        }
        let knowns = KnownSet::empty().with(known);
        erase.push((cell, knowns));
        proof {
            let n = old_erase.len() as int;
            assert(erase@[n].0@ == cell@);
            assert(!erase_map(old_erase).dom().contains(cell@));
            assert(knowns@ =~= target);
            assert forall|c: int| #[trigger] erase_map(erase@).dom().contains(c) == erase_map(old_erase).insert(cell@, target).dom().contains(c) by {
                if c != cell@ && exists|k: int| 0 <= k < old_erase.len() && (#[trigger] old_erase[k]).0@ == c {
                    let k = choose|k: int| 0 <= k < old_erase.len() && (#[trigger] old_erase[k]).0@ == c;
                    assert(erase@[k].0@ == c);
                }
            }
            assert forall|c: int| erase_map(erase@).dom().contains(c) implies erase_map(erase@)[c] == erase_map(old_erase).insert(cell@, target)[c] by {
                let k = choose|k: int| 0 <= k < erase@.len() && (#[trigger] erase@[k]).0@ == c;
                if c == cell@ {
                    assert(k == n);
                } else {
                    let j = choose|j: int| 0 <= j < old_erase.len() && (#[trigger] old_erase[j]).0@ == c;
                    assert(erase@[j].0@ == c);
                    assert(j == k);
                }
            }
            assert(erase_map(erase@) =~= erase_map(old_erase).insert(cell@, target));
            assert(distinct_keys(erase@)) by {
                assert forall|a: int, b: int| 0 <= a < b < erase@.len() implies (#[trigger] erase@[a]).0@ != (#[trigger] erase@[b]).0@ by {
                    if b < n {
                        assert(old_erase[a].0@ != old_erase[b].0@);
                    }
                }
            }
        }
        self.erase = erase;
    }
}

/// The cell `c` is `cell` or a cell of `entries`.
pub open spec fn old_set_map_dom(entries: Seq<(Cell, Known)>, cell: int, c: int) -> bool {
    c == cell || exists|k: int| 0 <= k < entries.len() && (#[trigger] entries[k]).0@ == c
}

/// A list of actions in the order they were found.
#[derive(Debug)]
pub struct Actions {
    moves: Vec<Action>,
}

impl Actions {
    /// The actions in order.
    pub closed spec fn view(&self) -> Seq<Action> {
        self.moves@
    }

    /// Returns an empty list.
    pub fn new() -> (r: Self)
        ensures
            r@ == Seq::<Action>::empty(),
    {
        Self { moves: Vec::new() }
    }

    /// Returns true if the list holds no action.
    pub fn is_empty(&self) -> (r: bool)
        ensures
            r == (self@.len() == 0),
    {
        self.moves.len() == 0
    }

    /// Returns the number of actions.
    pub fn size(&self) -> (r: usize)
        ensures
            r == self@.len(),
    {
        self.moves.len()
    }

    /// Appends `action`.
    pub fn add(&mut self, action: Action)
        ensures
            final(self)@ == old(self)@.push(action),
    {
        self.moves.push(action);
    }
}

} // verus!
