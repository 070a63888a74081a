use vstd::prelude::*;

use crate::layout::cells::cell::Cell;
use crate::layout::values::digit::Digit;
use crate::layout::values::digit_set::DigitSet;

verus! {

/// The ways a deduction can be found.
#[derive(Clone, Copy, Debug, PartialEq, Eq, Structural, Hash)]
pub enum Strategy {
    Given,
    Give,
    Place,
    Erase,
    BruteForce,
    NakedSingle,
    HiddenSingle,
    NakedPair,
    AlignedPairExclusion,
    XWing,
}

/// The name of `strategy` in upper case, without spaces.
pub open spec fn strategy_label(strategy: Strategy) -> Seq<char> {
    match strategy {
        Strategy::Given => "GIVEN"@,
        Strategy::Give => "GIVE"@,
        Strategy::Place => "PLACE"@,
        Strategy::Erase => "ERASE"@,
        Strategy::BruteForce => "BRUTEFORCE"@,
        Strategy::NakedSingle => "NAKEDSINGLE"@,
        Strategy::HiddenSingle => "HIDDENSINGLE"@,
        Strategy::NakedPair => "NAKEDPAIR"@,
        Strategy::AlignedPairExclusion => "ALIGNEDPAIREXCLUSION"@,
        Strategy::XWing => "XWING"@,
    }
}

/// Each strategy is read from its own name, in upper case and without spaces:
/// "NAKEDSINGLE" names the naked single, "HIDDENSINGLE" the hidden single, and
/// so on for every strategy.
pub proof fn lemma_strategy_names(s: Strategy)
    ensures
        s == Strategy::Given ==> strategy_label(s) == "GIVEN"@,
        s == Strategy::Give ==> strategy_label(s) == "GIVE"@,
        s == Strategy::Place ==> strategy_label(s) == "PLACE"@,
        s == Strategy::Erase ==> strategy_label(s) == "ERASE"@,
        s == Strategy::BruteForce ==> strategy_label(s) == "BRUTEFORCE"@,
        s == Strategy::NakedSingle ==> strategy_label(s) == "NAKEDSINGLE"@,
        s == Strategy::HiddenSingle ==> strategy_label(s) == "HIDDENSINGLE"@,
        s == Strategy::NakedPair ==> strategy_label(s) == "NAKEDPAIR"@,
        s == Strategy::AlignedPairExclusion ==> strategy_label(s) == "ALIGNEDPAIREXCLUSION"@,
        s == Strategy::XWing ==> strategy_label(s) == "XWING"@,
{
}

/// No two strategies share a name, so a name reads back as the one strategy
/// it names.
pub proof fn lemma_strategy_names_distinct(s: Strategy, t: Strategy)
    ensures
        strategy_label(s) == strategy_label(t) ==> s == t,
{
    reveal_strlit("GIVEN");
    reveal_strlit("GIVE");
    reveal_strlit("PLACE");
    reveal_strlit("ERASE");
    reveal_strlit("BRUTEFORCE");
    reveal_strlit("NAKEDSINGLE");
    reveal_strlit("HIDDENSINGLE");
    reveal_strlit("NAKEDPAIR");
    reveal_strlit("ALIGNEDPAIREXCLUSION");
    reveal_strlit("XWING");
    if strategy_label(s) == strategy_label(t) && s != t {
        assert(strategy_label(s).len() == strategy_label(t).len());
        assert(strategy_label(s)[0] == strategy_label(t)[0]);
        assert(strategy_label(s)[1] == strategy_label(t)[1]);
        assert(strategy_label(s)[strategy_label(s).len() - 1] == strategy_label(t)[strategy_label(t).len() - 1]);
    }
}

impl Strategy {
    /// Returns the strategy named `label`, its name in upper case without spaces.
    pub fn from_label(label: &str) -> (r: Option<Strategy>)
        ensures
            r matches Some(s) ==> strategy_label(s) == label@,
            r is None ==> forall|s: Strategy| strategy_label(s) != label@,
    {
        let all = [
            (Strategy::Given, "GIVEN"),
            (Strategy::Give, "GIVE"),
            (Strategy::Place, "PLACE"),
            (Strategy::Erase, "ERASE"),
            (Strategy::BruteForce, "BRUTEFORCE"),
            (Strategy::NakedSingle, "NAKEDSINGLE"),
            (Strategy::HiddenSingle, "HIDDENSINGLE"),
            (Strategy::NakedPair, "NAKEDPAIR"),
            (Strategy::AlignedPairExclusion, "ALIGNEDPAIREXCLUSION"),
            (Strategy::XWing, "XWING"),
        ];
        let mut i: usize = 0;
        while i < 10
            invariant
                i <= 10,
                all@ == seq![
                    (Strategy::Given, "GIVEN"),
                    (Strategy::Give, "GIVE"),
                    (Strategy::Place, "PLACE"),
                    (Strategy::Erase, "ERASE"),
                    (Strategy::BruteForce, "BRUTEFORCE"),
                    (Strategy::NakedSingle, "NAKEDSINGLE"),
                    (Strategy::HiddenSingle, "HIDDENSINGLE"),
                    (Strategy::NakedPair, "NAKEDPAIR"),
                    (Strategy::AlignedPairExclusion, "ALIGNEDPAIREXCLUSION"),
                    (Strategy::XWing, "XWING"),
                ],
                forall|k: int| 0 <= k < i ==> all@[k].1@ != label@,
            decreases 10 - i,
        {
            let (strategy, name) = all[i];
            if crate::text::same_text(name, label) {
                return Some(strategy);
            }
            i += 1;
        }
        proof {
            assert forall|s: Strategy| strategy_label(s) != label@ by {
                match s {
                    Strategy::Given => assert(all@[0].1@ != label@),
                    Strategy::Give => assert(all@[1].1@ != label@),
                    Strategy::Place => assert(all@[2].1@ != label@),
                    Strategy::Erase => assert(all@[3].1@ != label@),
                    Strategy::BruteForce => assert(all@[4].1@ != label@),
                    Strategy::NakedSingle => assert(all@[5].1@ != label@),
                    Strategy::HiddenSingle => assert(all@[6].1@ != label@),
                    Strategy::NakedPair => assert(all@[7].1@ != label@),
                    Strategy::AlignedPairExclusion => assert(all@[8].1@ != label@),
                    Strategy::XWing => assert(all@[9].1@ != label@),
                }
            }
        }
        None
    }
}

/// The part a clue plays in explaining a deduction.
#[derive(Clone, Copy, Debug, PartialEq, Eq, Structural, Hash)]
pub enum Verdict {
    Primary,
    Secondary,
}

/// An action in plain values.
pub struct ActionView {
    pub strategy: Strategy,
    /// The digit placed in each cell that the action solves.
    pub sets: Map<int, int>,
    /// The digits removed from each cell; never an empty set.
    pub erases: Map<int, Set<int>>,
    /// The clues in the order they were given: cell, digit and verdict.
    pub clues: Seq<(int, int, Verdict)>,
}

/// The cell and digit of each clue, in order.
pub open spec fn clue_keys(clues: Seq<(int, int, Verdict)>) -> Seq<(int, int)> {
    clues.map_values(|t: (int, int, Verdict)| (t.0, t.1))
}

/// The cells and digits that the clues of `a` point at.
pub open spec fn clue_points(a: ActionView) -> Set<(int, int)> {
    clue_keys(a.clues).to_set()
}

/// The action neither solves a cell nor removes a candidate.
pub open spec fn is_empty_view(a: ActionView) -> bool {
    a.sets.dom() == Set::<int>::empty() && a.erases.dom() == Set::<int>::empty()
}

/// The digits placed by an array with one optional digit per cell.
pub open spec fn sets_map(sets: [Option<Digit>; 81]) -> Map<int, int> {
    Map::new(|c: int| 0 <= c < 81 && sets[c] is Some, |c: int| sets[c]->0@)
}

/// The digits removed by an array with one digit set per cell.
pub open spec fn erases_map(erases: [DigitSet; 81]) -> Map<int, Set<int>> {
    Map::new(|c: int| 0 <= c < 81 && erases[c]@ != Set::<int>::empty(), |c: int| erases[c]@)
}

/// The digits erased from `c` by `a`, empty where it erases none.
pub open spec fn erased_at(erases: Map<int, Set<int>>, c: int) -> Set<int> {
    if erases.contains_key(c) {
        erases[c]
    } else {
        Set::empty()
    }
}

/// The clues of `clues` in plain values.
pub open spec fn clues_view(clues: Seq<(Cell, Digit, Verdict)>) -> Seq<(int, int, Verdict)> {
    clues.map_values(|t: (Cell, Digit, Verdict)| (t.0@, t.1@, t.2))
}

/// A deduction: the digits it places, the candidates it removes and the
/// clues that explain it.
pub struct Action {
    strategy: Strategy,
    sets: [Option<Digit>; 81],
    erases: [DigitSet; 81],
    clues: Vec<(Cell, Digit, Verdict)>,
}

impl Action {
    #[verifier::type_invariant]
    spec fn inv(self) -> bool {
        clue_keys(clues_view(self.clues@)).no_duplicates()
    }

    pub closed spec fn view(&self) -> ActionView {
        ActionView {
            strategy: self.strategy,
            sets: sets_map(self.sets),
            erases: erases_map(self.erases),
            clues: clues_view(self.clues@),
        }
    }

    /// An action only touches the cells of the grid, and removes at least one
    /// candidate from each cell it names among its removals.
    pub proof fn lemma_cells(a: Action)
        ensures
            forall|c: int| #[trigger] a@.sets.contains_key(c) ==> 0 <= c < 81,
            forall|c: int| #[trigger] a@.erases.contains_key(c) ==> 0 <= c < 81,
            forall|c: int| #[trigger] a@.erases.contains_key(c) ==> a@.erases[c] != Set::<int>::empty(),
    {
    }

    /// Returns an empty action found by `strategy`.
    pub fn new(strategy: Strategy) -> (r: Self)
        ensures
            r@.strategy == strategy,
            r@.sets == Map::<int, int>::empty(),
            r@.erases == Map::<int, Set<int>>::empty(),
            r@.clues == Seq::<(int, int, Verdict)>::empty(),
    {
        let r = Action {
            strategy,
            sets: [None; 81],
            erases: [DigitSet::empty(); 81],
            clues: Vec::new(),
        };
        proof {
            assert(r@.sets =~= Map::<int, int>::empty());
            assert(r@.erases =~= Map::<int, Set<int>>::empty());
            assert(r@.clues =~= Seq::<(int, int, Verdict)>::empty());
        }
        r
    }

    /// Returns an action found by `strategy` that places `digit` in `cell`.
    pub fn new_set(strategy: Strategy, cell: Cell, digit: Digit) -> (r: Self)
        ensures
            r@.strategy == strategy,
            r@.sets == Map::<int, int>::empty().insert(cell@, digit@),
            r@.erases == Map::<int, Set<int>>::empty(),
            r@.clues == Seq::<(int, int, Verdict)>::empty(),
    {
        let mut r = Self::new(strategy);
        r.set(cell, digit);
        r
    }

    /// Places `digit` in `cell`, in place of any digit placed there before.
    pub fn set(&mut self, cell: Cell, digit: Digit)
        ensures
            final(self)@.strategy == old(self)@.strategy,
            final(self)@.sets == old(self)@.sets.insert(cell@, digit@),
            final(self)@.erases == old(self)@.erases,
            final(self)@.clues == old(self)@.clues,
    {
        proof {
            use_type_invariant(&*self);
        }
        let i = cell.usize();
        let mut sets = self.sets;
        sets[i] = Some(digit);
        self.sets = sets;
        proof {
            assert(self@.sets =~= old(self)@.sets.insert(cell@, digit@));
        }
    }

    /// Removes `digit` from the candidates of `cell`.
    pub fn erase(&mut self, cell: Cell, digit: Digit)
        ensures
            final(self)@.strategy == old(self)@.strategy,
            final(self)@.sets == old(self)@.sets,
            final(self)@.erases == old(self)@.erases.insert(
                cell@,
                erased_at(old(self)@.erases, cell@).insert(digit@),
            ),
            final(self)@.clues == old(self)@.clues,
    {
        proof {
            use_type_invariant(&*self);
        }
        let i = cell.usize();
        let mut erases = self.erases;
        erases[i] = erases[i].with(digit);
        self.erases = erases;
        proof {
            assert(self.erases[i as int]@.contains(digit@));
            assert(self@.erases =~= old(self)@.erases.insert(
                cell@,
                erased_at(old(self)@.erases, cell@).insert(digit@),
            ));
        }
    }

    /// Removes each of `digits` from the candidates of `cell`.
    pub fn erase_digits(&mut self, cell: Cell, digits: DigitSet)
        ensures
            final(self)@.strategy == old(self)@.strategy,
            final(self)@.sets == old(self)@.sets,
            final(self)@.erases == (if digits@ == Set::<int>::empty() {
                old(self)@.erases
            } else {
                old(self)@.erases.insert(cell@, erased_at(old(self)@.erases, cell@).union(digits@))
            }),
            final(self)@.clues == old(self)@.clues,
    {
        proof {
            use_type_invariant(&*self);
        }
        let i = cell.usize();
        let mut erases = self.erases;
        erases[i] = erases[i].union(digits);
        self.erases = erases;
        proof {
            if digits@ == Set::<int>::empty() {
                assert(self.erases[i as int]@ =~= old(self).erases[i as int]@);
                assert(self@.erases =~= old(self)@.erases);
            } else {
                assert(!(digits@ =~= Set::<int>::empty()));
                let d = choose|d: int| digits@.contains(d);
                assert(self.erases[i as int]@.contains(d));
                assert(self@.erases =~= old(self)@.erases.insert(
                    cell@,
                    erased_at(old(self)@.erases, cell@).union(digits@),
                ));
            }
        }
    }

    /// Returns the position of the clue on `digit` in `cell`, if there is one.
    fn find_clue(&self, cell: Cell, digit: Digit) -> (r: Option<usize>)
        ensures
            r matches Some(i) ==> i < self@.clues.len() && clue_keys(self@.clues)[i as int] == (
                cell@,
                digit@,
            ),
            r is None ==> !clue_keys(self@.clues).contains((cell@, digit@)),
    {
        let n = self.clues.len();
        let mut i: usize = 0;
        while i < n
            invariant
                n == self.clues.len(),
                i <= n,
                forall|k: int| 0 <= k < i ==> clue_keys(self@.clues)[k] != (cell@, digit@),
            decreases n - i,
        {
            let t = self.clues[i];
            if t.0.index() == cell.index() && t.1.usize() == digit.usize() {
                return Some(i);
            }
            i += 1;
        }
        None
    }

    /// Returns true if `digit` in `cell` is one of the clues.
    pub fn has_clue(&self, cell: Cell, digit: Digit) -> (r: bool)
        ensures
            r == clue_points(self@).contains((cell@, digit@)),
    {
        self.find_clue(cell, digit).is_some()
    }

    /// Names `digit` in `cell` as a clue with `verdict`, in place of the verdict
    /// that the same clue had before.
    pub fn clue_cell_for_digit(&mut self, verdict: Verdict, cell: Cell, digit: Digit)
        ensures
            final(self)@.strategy == old(self)@.strategy,
            final(self)@.sets == old(self)@.sets,
            final(self)@.erases == old(self)@.erases,
            clue_keys(old(self)@.clues).contains((cell@, digit@)) ==> exists|i: int|
                0 <= i < old(self)@.clues.len() && clue_keys(old(self)@.clues)[i] == (cell@, digit@)
                    && final(self)@.clues == old(self)@.clues.update(i, (cell@, digit@, verdict)),
            !clue_keys(old(self)@.clues).contains((cell@, digit@)) ==> final(self)@.clues == old(
                self,
            )@.clues.push((cell@, digit@, verdict)),
    {
        proof {
            use_type_invariant(&*self);
        }
        let ghost before = self.clues@;
        let found = self.find_clue(cell, digit);
        let mut clues: Vec<(Cell, Digit, Verdict)> = Vec::new();
        std::mem::swap(&mut clues, &mut self.clues);
        match found {
            Some(i) => {
                clues.set(i, (cell, digit, verdict));
                proof {
                    assert(clues_view(clues@) =~= clues_view(before).update(
                        i as int,
                        (cell@, digit@, verdict),
                    ));
                    assert(clue_keys(clues_view(clues@)) =~= clue_keys(clues_view(before)));
                }
                self.clues = clues;
            },
            None => {
                clues.push((cell, digit, verdict));
                proof {
                    let keys = clue_keys(clues_view(before));
                    assert(clues_view(clues@) =~= clues_view(before).push((cell@, digit@, verdict)));
                    assert(clue_keys(clues_view(clues@)) =~= keys.push((cell@, digit@)));
                    assert forall|j: int, k: int|
                        0 <= j < k < keys.len() + 1 implies keys.push((cell@, digit@))[j]
                        != keys.push((cell@, digit@))[k] by {
                        if k == keys.len() {
                            assert(keys.contains(keys[j]));
                        }
                    }
                }
                self.clues = clues;
            },
        }
    }

    /// Returns the strategy that found this action.
    pub fn strategy(&self) -> (r: Strategy)
        ensures
            r == self@.strategy,
    {
        self.strategy
    }

    /// Returns true if `strategy` found this action.
    pub fn has_strategy(&self, strategy: Strategy) -> (r: bool)
        ensures
            r == (self@.strategy == strategy),
    {
        self.strategy == strategy
    }

    /// Returns the digit this action places in `cell`, if any.
    pub fn digit_set_in(&self, cell: Cell) -> (r: Option<Digit>)
        ensures
            r is Some == self@.sets.contains_key(cell@),
            r matches Some(d) ==> d@ == self@.sets[cell@],
    {
        self.sets[cell.usize()]
    }

    /// Returns the digits this action removes from `cell`.
    pub fn digits_erased_from(&self, cell: Cell) -> (r: DigitSet)
        ensures
            r@ == erased_at(self@.erases, cell@),
    {
        self.erases[cell.usize()]
    }

    /// Returns true if this action places `digit` in `cell`.
    pub fn sets(&self, cell: Cell, digit: Digit) -> (r: bool)
        ensures
            r == (self@.sets.contains_key(cell@) && self@.sets[cell@] == digit@),
    {
        match self.digit_set_in(cell) {
            Some(d) => d.usize() == digit.usize(),
            None => false,
        }
    }

    /// Returns true if this action removes `digit` from `cell`.
    pub fn erases(&self, cell: Cell, digit: Digit) -> (r: bool)
        ensures
            r == erased_at(self@.erases, cell@).contains(digit@),
    {
        self.digits_erased_from(cell).has(digit)
    }

    /// Returns true if this action neither places a digit nor removes a candidate.
    pub fn is_empty(&self) -> (r: bool)
        ensures
            r == is_empty_view(self@),
    {
        let mut c: usize = 0;
        while c < 81
            invariant
                c <= 81,
                forall|k: int| 0 <= k < c ==> !self@.sets.contains_key(k),
                forall|k: int| 0 <= k < c ==> !self@.erases.contains_key(k),
            decreases 81 - c,
        {
            if self.sets[c].is_some() || !self.erases[c].is_empty() {
                proof {
                    if self.sets[c as int] is Some {
                        assert(self@.sets.dom().contains(c as int));
                    } else {
                        assert(self@.erases.dom().contains(c as int));
                    }
                }
                return false;
            }
            c += 1;
        }
        proof {
            assert(self@.sets.dom() =~= Set::<int>::empty());
            assert(self@.erases.dom() =~= Set::<int>::empty());
        }
        true
    }

    /// Returns the number of distinct clues.
    pub fn clue_count(&self) -> (r: usize)
        ensures
            r == clue_points(self@).len(),
    {
        proof {
            use_type_invariant(self);
            clue_keys(self@.clues).unique_seq_to_set();
        }
        self.clues.len()
    }

    /// Returns the clues in the order they were given.
    pub fn collect_clues(&self) -> (r: Vec<(Cell, Digit, Verdict)>)
        ensures
            clues_view(r@) == self@.clues,
            clue_keys(self@.clues).no_duplicates(),
    {
        proof {
            use_type_invariant(self);
        }
        let mut r: Vec<(Cell, Digit, Verdict)> = Vec::new();
        let n = self.clues.len();
        let mut i: usize = 0;
        while i < n
            invariant
                n == self.clues.len(),
                i <= n,
                r@ == self.clues@.subrange(0, i as int),
            decreases n - i,
        {
            r.push(self.clues[i]);
            i += 1;
            proof {
                assert(r@ =~= self.clues@.subrange(0, i as int));
            }
        }
        proof {
            assert(r@ =~= self.clues@);
        }
        r
    }
}

} // verus!
