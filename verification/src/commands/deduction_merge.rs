use vstd::prelude::*;

use crate::layout::cells::cell::Cell;
use crate::layout::values::digit::Digit;
use crate::layout::values::digit_set::DigitSet;
use crate::text::lemma_filter_push;
use crate::puzzle::action::{
    clue_keys, clue_points, clues_view, erased_at, erases_map, is_empty_view, sets_map, Action,
    ActionView, Strategy, Verdict,
};

verus! {

/// What an action does to a board: the digits it places, and the candidates
/// it removes from the cells it does not solve.
pub struct EffectModel {
    pub sets: Map<int, int>,
    pub erases: Map<int, Set<int>>,
}

/// The effect of `a`: a removal in a cell that `a` also solves is dropped.
pub open spec fn effect_of(a: ActionView) -> EffectModel {
    EffectModel { sets: a.sets, erases: a.erases.remove_keys(a.sets.dom()) }
}

/// The two effects place different digits in one cell.
pub open spec fn sets_conflict(a: EffectModel, b: EffectModel) -> bool {
    exists|c: int|
        #![trigger a.sets.contains_key(c)]
        a.sets.contains_key(c) && b.sets.contains_key(c) && a.sets[c] != b.sets[c]
}

/// The two effects are the same.
pub open spec fn effects_equal(a: EffectModel, b: EffectModel) -> bool {
    a.sets == b.sets && a.erases == b.erases
}

/// Everything `sub` does, `sup` does too; a removal from a cell that `sup`
/// solves counts as done.
pub open spec fn effects_subset(sub: EffectModel, sup: EffectModel) -> bool {
    &&& forall|c: int|
        #![trigger sub.sets.contains_key(c)]
        sub.sets.contains_key(c) ==> sup.sets.contains_key(c) && sup.sets[c] == sub.sets[c]
    &&& forall|c: int|
        #![trigger sub.erases.contains_key(c)]
        sub.erases.contains_key(c) && !sup.sets.contains_key(c) ==> sup.erases.contains_key(c)
            && sub.erases[c].subset_of(sup.erases[c])
}

/// The two effects touch a common cell: `a` places a digit that `b` places
/// too or in a cell where `b` removes candidates, or `a` removes candidates
/// from a cell that `b` solves or from which `b` removes one of them too.
pub open spec fn effects_overlap(a: EffectModel, b: EffectModel) -> bool {
    ||| exists|c: int|
        #![trigger a.sets.contains_key(c)]
        a.sets.contains_key(c) && ((b.sets.contains_key(c) && b.sets[c] == a.sets[c])
            || b.erases.contains_key(c))
    ||| exists|c: int|
        #![trigger a.erases.contains_key(c)]
        a.erases.contains_key(c) && (b.sets.contains_key(c) || (b.erases.contains_key(c)
            && !a.erases[c].disjoint(b.erases[c])))
}

/// The effect of an action, one entry per cell.
struct EffectView {
    sets: [Option<Digit>; 81],
    erases: [DigitSet; 81],
}

impl EffectView {
    spec fn view(&self) -> EffectModel {
        EffectModel { sets: sets_map(self.sets), erases: erases_map(self.erases) }
    }
}

/// The digit placed at `c` agrees in the array and the map.
spec fn set_agrees(s: Option<Digit>, m: Map<int, int>, c: int) -> bool {
    &&& (s is Some) == m.contains_key(c)
    &&& s is Some ==> s->0@ == m[c]
}

fn effect_view(action: &Action) -> (r: EffectView)
    ensures
        r@ == effect_of(action@),
        forall|c: int| 0 <= c < 81 && r.sets[c] is Some ==> r.erases[c]@ == Set::<int>::empty(),
{
    let mut sets: [Option<Digit>; 81] = [None; 81];
    let mut erases: [DigitSet; 81] = [DigitSet::empty(); 81];
    let ghost a = action@;
    let mut c: usize = 0;
    while c < 81
        invariant
            c <= 81,
            a == action@,
            forall|k: int| 0 <= k < c ==> set_agrees(#[trigger] sets[k], a.sets, k),
            forall|k: int|
                0 <= k < c ==> (#[trigger] erases[k])@ == (if a.sets.contains_key(k) {
                    Set::<int>::empty()
                } else {
                    erased_at(a.erases, k)
                }),
        decreases 81 - c,
    {
        let cell = Cell::new(c as u8);
        let s = action.digit_set_in(cell);
        sets[c] = s;
        if s.is_some() {
            erases[c] = DigitSet::empty();
        } else {
            erases[c] = action.digits_erased_from(cell);
        }
        c += 1;
    }
    let r = EffectView { sets, erases };
    proof {
        Action::lemma_cells(*action);
        assert(r@.sets =~= a.sets);
        assert(r@.erases =~= a.erases.remove_keys(a.sets.dom()));
    }
    r
}

/// The two optional digits are both absent or the same digit.
spec fn same_set(x: Option<Digit>, y: Option<Digit>) -> bool {
    &&& (x is Some) == (y is Some)
    &&& x is Some ==> x->0@ == y->0@
}

fn sets_conflict_view(a: &EffectView, b: &EffectView) -> (r: bool)
    ensures
        r == sets_conflict(a@, b@),
{
    let mut c: usize = 0;
    while c < 81
        invariant
            c <= 81,
            forall|k: int|
                0 <= k < c ==> !(#[trigger] a@.sets.contains_key(k) && b@.sets.contains_key(k)
                    && a@.sets[k] != b@.sets[k]),
        decreases 81 - c,
    {
        if let (Some(x), Some(y)) = (a.sets[c], b.sets[c]) {
            if x.usize() != y.usize() {
                proof {
                    assert(a.sets[c as int] == Some(x));
                    assert(b.sets[c as int] == Some(y));
                    assert(a@.sets.contains_key(c as int));
                }
                return true;
            }
        }
        c += 1;
    }
    false
}

fn effects_equal_view(a: &EffectView, b: &EffectView) -> (r: bool)
    ensures
        r == effects_equal(a@, b@),
{
    let mut c: usize = 0;
    while c < 81
        invariant
            c <= 81,
            forall|k: int| 0 <= k < c ==> same_set(#[trigger] a.sets[k], b.sets[k]),
            forall|k: int| 0 <= k < c ==> (#[trigger] a.erases[k])@ == b.erases[k]@,
        decreases 81 - c,
    {
        let same = match (a.sets[c], b.sets[c]) {
            (Some(x), Some(y)) => x.usize() == y.usize(),
            (None, None) => true,
            _ => false,
        };
        if !same {
            proof {
                let k = c as int;
                assert(a@.sets.contains_key(k) != b@.sets.contains_key(k) || a@.sets[k]
                    != b@.sets[k]);
            }
            return false;
        }
        if !(a.erases[c].has_all(b.erases[c]) && b.erases[c].has_all(a.erases[c])) {
            proof {
                let k = c as int;
                assert(a.erases[k]@ != b.erases[k]@);
                assert(a@.erases.contains_key(k) != b@.erases.contains_key(k) || a@.erases[k]
                    != b@.erases[k]);
            }
            return false;
        }
        proof {
            assert(a.erases[c as int]@ =~= b.erases[c as int]@);
        }
        c += 1;
    }
    proof {
        assert(a@.sets =~= b@.sets);
        assert(a@.erases =~= b@.erases);
    }
    true
}

fn effects_subset_view(sub: &EffectView, sup: &EffectView) -> (r: bool)
    ensures
        r == effects_subset(sub@, sup@),
{
    let mut c: usize = 0;
    while c < 81
        invariant
            c <= 81,
            forall|k: int|
                0 <= k < c && #[trigger] sub@.sets.contains_key(k) ==> sup@.sets.contains_key(k)
                    && sup@.sets[k] == sub@.sets[k],
            forall|k: int|
                0 <= k < c && #[trigger] sub@.erases.contains_key(k) && !sup@.sets.contains_key(k)
                    ==> sup@.erases.contains_key(k) && sub@.erases[k].subset_of(sup@.erases[k]),
        decreases 81 - c,
    {
        let k = Ghost(c as int);
        if let Some(x) = sub.sets[c] {
            let same = match sup.sets[c] {
                Some(y) => x.usize() == y.usize(),
                None => false,
            };
            if !same {
                proof {
                    assert(sub@.sets.contains_key(k@));
                }
                return false;
            }
        }
        if !sub.erases[c].is_empty() && sup.sets[c].is_none() {
            if !sup.erases[c].has_all(sub.erases[c]) {
                proof {
                    assert(sub@.erases.contains_key(k@));
                }
                return false;
            }
            proof {
                assert(sub.erases[k@]@.subset_of(sup.erases[k@]@));
                assert(!(sub.erases[k@]@ =~= Set::<int>::empty()));
                let d = choose|d: int| sub.erases[k@]@.contains(d);
                assert(sup.erases[k@]@.contains(d));
                assert(sup@.erases.contains_key(k@));
            }
        }
        c += 1;
    }
    true
}

fn effects_overlap_view(a: &EffectView, b: &EffectView) -> (r: bool)
    ensures
        r == effects_overlap(a@, b@),
{
    let mut c: usize = 0;
    while c < 81
        invariant
            c <= 81,
            forall|k: int|
                0 <= k < c ==> !(#[trigger] a@.sets.contains_key(k) && ((b@.sets.contains_key(k)
                    && b@.sets[k] == a@.sets[k]) || b@.erases.contains_key(k))),
            forall|k: int|
                0 <= k < c ==> !(#[trigger] a@.erases.contains_key(k) && (b@.sets.contains_key(k)
                    || (b@.erases.contains_key(k) && !a@.erases[k].disjoint(b@.erases[k])))),
        decreases 81 - c,
    {
        let k = Ghost(c as int);
        if let Some(x) = a.sets[c] {
            let hit = match b.sets[c] {
                Some(y) => x.usize() == y.usize(),
                None => false,
            };
            if hit || !b.erases[c].is_empty() {
                proof {
                    assert(a@.sets.contains_key(k@));
                }
                return true;
            }
        }
        if !a.erases[c].is_empty() {
            if b.sets[c].is_some() || (!b.erases[c].is_empty() && a.erases[c].has_any(
                b.erases[c],
            )) {
                proof {
                    assert(a@.erases.contains_key(k@));
                }
                return true;
            }
        }
        c += 1;
    }
    false
}

/// The cells and digits of `points` in plain values.
pub open spec fn points_of(points: Seq<(Cell, Digit)>) -> Seq<(int, int)> {
    points.map_values(|p: (Cell, Digit)| (p.0@, p.1@))
}

/// Returns the cells and digits that the clues of `action` point at, each once.
pub fn clue_set(action: &Action) -> (r: Vec<(Cell, Digit)>)
    ensures
        points_of(r@).to_set() == clue_points(action@),
        points_of(r@).no_duplicates(),
        r.len() == clue_points(action@).len(),
{
    let clues = action.collect_clues();
    let mut r: Vec<(Cell, Digit)> = Vec::new();
    let n = clues.len();
    let mut i: usize = 0;
    while i < n
        invariant
            n == clues.len(),
            i <= n,
            points_of(r@) == clue_keys(clues_view(clues@)).take(
                i as int,
            ),
        decreases n - i,
    {
        let (cell, digit, _) = clues[i];
        let ghost prev = points_of(r@);
        r.push((cell, digit));
        i += 1;
        proof {
            let keys = clue_keys(clues_view(clues@));
            assert(keys[i - 1] == (cell@, digit@));
            assert(points_of(r@) =~= prev.push((cell@, digit@)));
            assert(keys.take(i as int) =~= keys.take(i - 1).push(keys[i - 1]));
            assert(points_of(r@) =~= clue_keys(
                clues_view(clues@),
            ).take(i as int));
        }
    }
    proof {
        let keys = clue_keys(clues_view(clues@));
        assert(keys.take(n as int) =~= keys);
        keys.unique_seq_to_set();
    }
    r
}

/// Returns true if every clue of `sub` is a clue of `sup`.
fn clues_within(sub: &Action, sup: &Action) -> (r: bool)
    ensures
        r == clue_points(sub@).subset_of(clue_points(sup@)),
{
    let clues = sub.collect_clues();
    let n = clues.len();
    let mut i: usize = 0;
    while i < n
        invariant
            n == clues.len(),
            clues_view(clues@) == sub@.clues,
            i <= n,
            forall|k: int| 0 <= k < i ==> clue_points(sup@).contains(#[trigger] clue_keys(sub@.clues)[k]),
        decreases n - i,
    {
        let (cell, digit, _) = clues[i];
        if !sup.has_clue(cell, digit) {
            proof {
                assert(clue_keys(sub@.clues)[i as int] == (cell@, digit@));
                assert(clue_points(sub@).contains((cell@, digit@)));
            }
            return false;
        }
        i += 1;
    }
    proof {
        assert forall|p: (int, int)| clue_points(sub@).contains(p) implies clue_points(sup@).contains(p) by {
            let k = choose|k: int| 0 <= k < clue_keys(sub@.clues).len() && clue_keys(sub@.clues)[k] == p;
        }
    }
    true
}

/// How an incoming action fares against one already kept with the same
/// strategy.
pub enum Outcome {
    /// The incoming action adds nothing.
    Ignore,
    /// The incoming action takes the place of the kept one.
    Replace,
    /// The two are merged into the kept one's place.
    Merge,
    /// Both stay.
    KeepBoth,
}

/// The rule for two actions with the same strategy: between actions with the
/// same effects the one with fewer clues stays; one whose effects and clues
/// are both within the other's goes; actions that share clues and overlap
/// without either covering the other are merged; conflicting ones both stay.
pub open spec fn decision(existing: ActionView, incoming: ActionView) -> Outcome {
    let ev = effect_of(existing);
    let iv = effect_of(incoming);
    let ec = clue_points(existing);
    let ic = clue_points(incoming);
    let in_sub = ic.subset_of(ec);
    let ex_sub = ec.subset_of(ic);
    if sets_conflict(ev, iv) {
        Outcome::KeepBoth
    } else if effects_equal(ev, iv) {
        if in_sub && !ex_sub {
            Outcome::Replace
        } else if ex_sub && !in_sub {
            Outcome::Ignore
        } else if ic.len() < ec.len() {
            Outcome::Replace
        } else {
            Outcome::Ignore
        }
    } else if effects_subset(iv, ev) && in_sub {
        Outcome::Ignore
    } else if effects_subset(ev, iv) && ex_sub {
        Outcome::Replace
    } else if !effects_subset(iv, ev) && !effects_subset(ev, iv) && effects_overlap(ev, iv)
        && in_sub && ex_sub {
        Outcome::Merge
    } else {
        Outcome::KeepBoth
    }
}

/// The action that does what both do, with the strategy and clues of
/// `preferred`: where the two place different digits in a cell, the digit of
/// `preferred` wins, and no candidate is removed from a cell that it solves.
pub open spec fn merged_view(preferred: ActionView, other: ActionView) -> ActionView {
    let pv = effect_of(preferred);
    let ov = effect_of(other);
    let sets = ov.sets.union_prefer_right(pv.sets);
    ActionView {
        strategy: preferred.strategy,
        sets,
        erases: Map::new(
            |c: int| (pv.erases.contains_key(c) || ov.erases.contains_key(c)) && !sets.contains_key(c),
            |c: int| erased_at(pv.erases, c).union(erased_at(ov.erases, c)),
        ),
        clues: preferred.clues,
    }
}

/// Returns the action that does what `preferred` and `other` both do, with the
/// strategy and clues of `preferred`.
pub fn merge_effects_keep_clues(preferred: &Action, other: &Action) -> (r: Action)
    ensures
        r@ == merged_view(preferred@, other@),
{
    let pv = effect_view(preferred);
    let ov = effect_view(other);
    let ghost target = merged_view(preferred@, other@);
    proof {
        Action::lemma_cells(*preferred);
        Action::lemma_cells(*other);
    }
    let mut merged = Action::new(preferred.strategy());
    let mut c: usize = 0;
    while c < 81
        invariant
            c <= 81,
            pv@ == effect_of(preferred@),
            ov@ == effect_of(other@),
            forall|k: int| 0 <= k < 81 && pv.sets[k] is Some ==> pv.erases[k]@ == Set::<int>::empty(),
            forall|k: int| 0 <= k < 81 && ov.sets[k] is Some ==> ov.erases[k]@ == Set::<int>::empty(),
            target == merged_view(preferred@, other@),
            merged@.strategy == preferred@.strategy,
            merged@.clues == Seq::<(int, int, Verdict)>::empty(),
            forall|k: int|
                #![trigger merged@.sets.contains_key(k)]
                merged@.sets.contains_key(k) == (0 <= k < c && target.sets.contains_key(k)),
            forall|k: int|
                #![trigger merged@.sets[k]]
                0 <= k < c && target.sets.contains_key(k) ==> merged@.sets[k] == target.sets[k],
            forall|k: int|
                #![trigger merged@.erases.contains_key(k)]
                merged@.erases.contains_key(k) == (0 <= k < c && target.erases.contains_key(k)),
            forall|k: int|
                #![trigger merged@.erases[k]]
                0 <= k < c && target.erases.contains_key(k) ==> merged@.erases[k] == target.erases[k],
        decreases 81 - c,
    {
        let cell = Cell::new(c as u8);
        let ghost k = c as int;
        match pv.sets[c] {
            Some(d) => {
                merged.set(cell, d);
            },
            None => match ov.sets[c] {
                Some(d) => {
                    merged.set(cell, d);
                },
                None => {
                    let u = pv.erases[c].union(ov.erases[c]);
                    let ghost before = merged@.erases;
                    merged.erase_digits(cell, u);
                    proof {
                        assert(u@ == erased_at(pv@.erases, k).union(erased_at(ov@.erases, k)));
                        assert(!before.contains_key(k));
                        if u@ != Set::<int>::empty() {
                            assert(!(u@ =~= Set::<int>::empty()));
                            let d = choose|d: int| u@.contains(d);
                            assert(pv@.erases.contains_key(k) || ov@.erases.contains_key(k));
                            assert(Set::<int>::empty().union(u@) =~= u@);
                        } else {
                            assert(pv.erases[k]@ =~= Set::<int>::empty());
                            assert(ov.erases[k]@ =~= Set::<int>::empty());
                            assert(!pv@.erases.contains_key(k));
                            assert(!ov@.erases.contains_key(k));
                        }
                    }
                },
            },
        }
        c += 1;
    }
    proof {
        assert(merged@.sets =~= target.sets);
        assert(merged@.erases =~= target.erases);
    }
    let clues = preferred.collect_clues();
    let n = clues.len();
    let mut i: usize = 0;
    while i < n
        invariant
            n == clues.len(),
            i <= n,
            clues_view(clues@) == preferred@.clues,
            clue_keys(preferred@.clues).no_duplicates(),
            target == merged_view(preferred@, other@),
            merged@.strategy == target.strategy,
            merged@.sets == target.sets,
            merged@.erases == target.erases,
            merged@.clues == preferred@.clues.take(i as int),
        decreases n - i,
    {
        let (cell, digit, verdict) = clues[i];
        proof {
            let keys = clue_keys(preferred@.clues);
            assert(clue_keys(merged@.clues) =~= keys.take(i as int));
            if clue_keys(merged@.clues).contains((cell@, digit@)) {
                let j = choose|j: int| 0 <= j < i && keys.take(i as int)[j] == (cell@, digit@);
                assert(keys[j] == keys[i as int]);
            }
        }
        merged.clue_cell_for_digit(verdict, cell, digit);
        i += 1;
        proof {
            assert(merged@.clues =~= preferred@.clues.take(i as int));
        }
    }
    proof {
        assert(preferred@.clues.take(n as int) =~= preferred@.clues);
    }
    merged
}

/// What to do with an incoming action given one kept with the same strategy.
pub enum SameStrategyDecision {
    IgnoreIncoming,
    ReplaceExisting,
    MergeIntoExisting(Action),
    KeepBoth,
}

/// The outcome that `d` stands for.
pub open spec fn outcome_of(d: SameStrategyDecision) -> Outcome {
    match d {
        SameStrategyDecision::IgnoreIncoming => Outcome::Ignore,
        SameStrategyDecision::ReplaceExisting => Outcome::Replace,
        SameStrategyDecision::MergeIntoExisting(_) => Outcome::Merge,
        SameStrategyDecision::KeepBoth => Outcome::KeepBoth,
    }
}

/// Decides what to do with `incoming` given `existing`, found by the same
/// strategy.
pub fn decide_same_strategy(existing: &Action, incoming: &Action) -> (r: SameStrategyDecision)
    ensures
        outcome_of(r) == decision(existing@, incoming@),
        r matches SameStrategyDecision::MergeIntoExisting(m) ==> m@ == merged_view(
            existing@,
            incoming@,
        ),
{
    let existing_view = effect_view(existing);
    let incoming_view = effect_view(incoming);

    if sets_conflict_view(&existing_view, &incoming_view) {
        return SameStrategyDecision::KeepBoth;
    }
    let existing_count = existing.clue_count();
    let incoming_count = incoming.clue_count();
    let incoming_clues_subset = clues_within(incoming, existing);
    let existing_clues_subset = clues_within(existing, incoming);
    let clues_equal = incoming_clues_subset && existing_clues_subset;

    if effects_equal_view(&existing_view, &incoming_view) {
        if incoming_clues_subset && !existing_clues_subset {
            return SameStrategyDecision::ReplaceExisting;
        }
        if existing_clues_subset && !incoming_clues_subset {
            return SameStrategyDecision::IgnoreIncoming;
        }
        if incoming_count < existing_count {
            return SameStrategyDecision::ReplaceExisting;
        }
        return SameStrategyDecision::IgnoreIncoming;
    }
    let incoming_subset = effects_subset_view(&incoming_view, &existing_view);
    let existing_subset = effects_subset_view(&existing_view, &incoming_view);

    if incoming_subset && incoming_clues_subset {
        return SameStrategyDecision::IgnoreIncoming;
    }
    if existing_subset && existing_clues_subset {
        return SameStrategyDecision::ReplaceExisting;
    }
    if !incoming_subset && !existing_subset && effects_overlap_view(
        &existing_view,
        &incoming_view,
    ) && clues_equal {
        let merged = merge_effects_keep_clues(existing, incoming);
        return SameStrategyDecision::MergeIntoExisting(merged);
    }
    SameStrategyDecision::KeepBoth
}

/// An action of another strategy makes `incoming` needless: it does the same,
/// or does all that `incoming` does on clues that include those of `incoming`,
/// without placing a digit that `incoming` contradicts.
pub open spec fn covers_across(existing: ActionView, incoming: ActionView) -> bool {
    let ev = effect_of(existing);
    let iv = effect_of(incoming);
    &&& existing.strategy != incoming.strategy
    &&& !sets_conflict(ev, iv)
    &&& effects_equal(ev, iv) || (effects_subset(iv, ev) && clue_points(incoming).subset_of(
        clue_points(existing),
    ))
}

/// Some action of `target` with another strategy makes `incoming` needless.
pub open spec fn ignored_across(target: Seq<ActionView>, incoming: ActionView) -> bool {
    exists|k: int| 0 <= k < target.len() && #[trigger] covers_across(target[k], incoming)
}

/// The actions in plain values.
pub open spec fn views(actions: Seq<Action>) -> Seq<ActionView> {
    actions.map_values(|a: Action| a@)
}

/// The list that results from weighing `incoming` against `rest`, one action
/// at a time, after the actions `kept` were weighed and kept.
pub open spec fn merge_from(
    kept: Seq<ActionView>,
    rest: Seq<ActionView>,
    incoming: ActionView,
) -> Seq<ActionView>
    decreases rest.len(),
{
    if rest.len() == 0 {
        if ignored_across(kept, incoming) {
            kept
        } else {
            kept.push(incoming)
        }
    } else {
        let e = rest[0];
        if e.strategy != incoming.strategy {
            merge_from(kept.push(e), rest.drop_first(), incoming)
        } else {
            match decision(e, incoming) {
                Outcome::Ignore => kept + rest,
                Outcome::Replace => merge_from(kept, rest.drop_first(), incoming),
                Outcome::Merge => kept.push(merged_view(e, incoming)) + rest.drop_first(),
                Outcome::KeepBoth => merge_from(kept.push(e), rest.drop_first(), incoming),
            }
        }
    }
}

/// The list of actions once `incoming` is merged into `target`; an action
/// that does nothing leaves the list as it is.
pub open spec fn merged_into(target: Seq<ActionView>, incoming: ActionView) -> Seq<ActionView> {
    if is_empty_view(incoming) {
        target
    } else {
        merge_from(Seq::empty(), target, incoming)
    }
}

/// The list of actions once each of `from` is merged into `target` in order.
pub open spec fn merge_all(target: Seq<ActionView>, from: Seq<ActionView>) -> Seq<ActionView>
    decreases from.len(),
{
    if from.len() == 0 {
        target
    } else {
        merge_all(merged_into(target, from[0]), from.drop_first())
    }
}

/// Returns true if an action of `target` with another strategy makes
/// `incoming` needless.
fn should_ignore_cross_strategy(target: &Vec<Action>, incoming: &Action) -> (r: bool)
    ensures
        r == ignored_across(views(target@), incoming@),
{
    let incoming_view = effect_view(incoming);
    let n = target.len();
    let mut k: usize = 0;
    while k < n
        invariant
            n == target.len(),
            k <= n,
            incoming_view@ == effect_of(incoming@),
            forall|j: int| 0 <= j < k ==> !covers_across(#[trigger] views(target@)[j], incoming@),
        decreases n - k,
    {
        let existing = &target[k];
        proof {
            assert(views(target@)[k as int] == existing@);
        }
        if existing.strategy() != incoming.strategy() {
            let existing_view = effect_view(existing);
            if !sets_conflict_view(&existing_view, &incoming_view) {
                if effects_equal_view(&existing_view, &incoming_view) {
                    proof {
                        assert(covers_across(views(target@)[k as int], incoming@));
                    }
                    return true;
                }
                if effects_subset_view(&incoming_view, &existing_view) && clues_within(
                    incoming,
                    existing,
                ) {
                    proof {
                        assert(covers_across(views(target@)[k as int], incoming@));
                    }
                    return true;
                }
            }
        }
        k += 1;
    }
    false
}

/// Merges `incoming` into `target` by the rules of `decision`: actions of
/// other strategies are passed over, and `incoming` is added at the end unless
/// an action of another strategy makes it needless.
pub fn merge_action(target: &mut Vec<Action>, incoming: Action)
    ensures
        views(final(target)@) == merged_into(views(old(target)@), incoming@),
{
    if incoming.is_empty() {
        return;
    }
    let ghost goal = merge_from(Seq::empty(), views(target@), incoming@);
    proof {
        assert(views(target@).take(0) =~= Seq::<ActionView>::empty());
        assert(views(target@).skip(0) =~= views(target@));
    }
    let mut index: usize = 0;
    while index < target.len()
        invariant
            index <= target.len(),
            goal == merged_into(views(old(target)@), incoming@),
            merge_from(views(target@).take(index as int), views(target@).skip(index as int), incoming@)
                == goal,
        decreases target.len() - index,
    {
        let ghost all = views(target@);
        let ghost kept = all.take(index as int);
        let ghost rest = all.skip(index as int);
        proof {
            assert(rest[0] == target@[index as int]@);
            assert(rest.drop_first() =~= all.skip(index + 1));
            assert(kept.push(rest[0]) =~= all.take(index + 1));
        }
        if target[index].strategy() != incoming.strategy() {
            index += 1;
            continue;
        }
        match decide_same_strategy(&target[index], &incoming) {
            SameStrategyDecision::IgnoreIncoming => {
                proof {
                    assert(kept + rest =~= all);
                }
                return;
            },
            SameStrategyDecision::ReplaceExisting => {
                target.remove(index);
                proof {
                    assert(views(target@).take(index as int) =~= kept);
                    assert(views(target@).skip(index as int) =~= rest.drop_first());
                }
            },
            SameStrategyDecision::MergeIntoExisting(merged) => {
                target.set(index, merged);
                proof {
                    assert(views(target@) =~= kept.push(merged_view(rest[0], incoming@))
                        + rest.drop_first());
                }
                return;
            },
            SameStrategyDecision::KeepBoth => {
                index += 1;
            },
        }
    }
    proof {
        assert(views(target@).take(index as int) =~= views(target@));
        assert(views(target@).skip(index as int) =~= Seq::<ActionView>::empty());
    }
    if should_ignore_cross_strategy(target, &incoming) {
        return;
    }
    let ghost before = views(target@);
    target.push(incoming);
    proof {
        assert(views(target@) =~= before.push(incoming@));
    }
}

/// Merges each action of `from` into `target` in order, by the rules of
/// `merge_action`.
pub fn take_actions_with_rules(target: &mut Vec<Action>, from: Vec<Action>)
    ensures
        views(final(target)@) == merge_all(views(old(target)@), views(from@)),
{
    let mut from = from;
    let ghost all = views(from@);
    let n = from.len();
    proof {
        assert(all.skip(0) =~= all);
    }
    let mut i: usize = 0;
    while i < n
        invariant
            n == from.len(),
            n == all.len(),
            i <= n,
            forall|k: int| i <= k < n ==> #[trigger] views(from@)[k] == all[k],
            merge_all(views(target@), all.skip(i as int)) == merge_all(
                views(old(target)@),
                all,
            ),
        decreases n - i,
    {
        let mut action = Action::new(Strategy::Given);
        let ghost before = from@;
        proof {
            assert(views(before)[i as int] == before[i as int]@);
        }
        from.set_and_swap(i, &mut action);
        proof {
            assert forall|k: int| i < k < n implies #[trigger] views(from@)[k] == all[k] by {
                assert(views(before)[k] == all[k]);
                assert(from@[k] == before[k]);
            }
            assert(action@ == all[i as int]);
            assert(all.skip(i as int)[0] == all[i as int]);
            assert(all.skip(i as int).drop_first() =~= all.skip(i + 1));
        }
        merge_action(target, action);
        i += 1;
    }
    proof {
        assert(all.skip(n as int) =~= Seq::<ActionView>::empty());
    }
}

/// The actions found by a strategy other than `strategy`.
pub open spec fn other_strategy(strategy: Strategy) -> spec_fn(ActionView) -> bool {
    |a: ActionView| a.strategy != strategy
}

proof fn lemma_merge_from_keeps_others(
    kept: Seq<ActionView>,
    rest: Seq<ActionView>,
    incoming: ActionView,
)
    ensures
        merge_from(kept, rest, incoming).filter(other_strategy(incoming.strategy)) == (kept
            + rest).filter(other_strategy(incoming.strategy)),
        merge_from(kept, rest, incoming).len() <= kept.len() + rest.len() + 1,
    decreases rest.len(),
{
    let pred = other_strategy(incoming.strategy);
    broadcast use Seq::filter_distributes_over_add;

    if rest.len() == 0 {
        assert(kept + rest =~= kept);
        lemma_filter_push(kept, incoming, pred);
    } else {
        let e = rest[0];
        let tail = rest.drop_first();
        assert(kept.push(e) + tail =~= kept + rest);
        assert(rest =~= seq![e] + tail);
        lemma_filter_push(Seq::empty(), e, pred);
        assert(Seq::<ActionView>::empty().push(e) =~= seq![e]);
        assert(Seq::<ActionView>::empty().filter(pred) =~= Seq::<ActionView>::empty()) by {
            reveal(Seq::filter);
        }
        if e.strategy != incoming.strategy {
            lemma_merge_from_keeps_others(kept.push(e), tail, incoming);
        } else {
            assert(seq![e].filter(pred) =~= Seq::<ActionView>::empty());
            assert((seq![e] + tail).filter(pred) =~= tail.filter(pred));
            match decision(e, incoming) {
                Outcome::Ignore => {},
                Outcome::Replace => {
                    lemma_merge_from_keeps_others(kept, tail, incoming);
                },
                Outcome::Merge => {
                    let m = merged_view(e, incoming);
                    lemma_filter_push(kept, m, pred);
                },
                Outcome::KeepBoth => {
                    lemma_merge_from_keeps_others(kept.push(e), tail, incoming);
                },
            }
        }
    }
}

/// Merging an action never removes, replaces or reorders an action of another
/// strategy, and adds at most one action to the list.
pub proof fn lemma_merge_keeps_other_strategies(target: Seq<ActionView>, incoming: ActionView)
    ensures
        merged_into(target, incoming).filter(other_strategy(incoming.strategy)) == target.filter(
            other_strategy(incoming.strategy),
        ),
        merged_into(target, incoming).len() <= target.len() + 1,
{
    if !is_empty_view(incoming) {
        lemma_merge_from_keeps_others(Seq::empty(), target, incoming);
        assert(Seq::<ActionView>::empty() + target =~= target);
    }
}

/// The merge of two actions that place no conflicting digits does everything
/// each of them does, on the clues of the preferred one.
pub proof fn lemma_merged_covers_both(preferred: ActionView, other: ActionView)
    requires
        !sets_conflict(effect_of(preferred), effect_of(other)),
    ensures
        effects_subset(effect_of(preferred), effect_of(merged_view(preferred, other))),
        effects_subset(effect_of(other), effect_of(merged_view(preferred, other))),
        clue_points(merged_view(preferred, other)) == clue_points(preferred),
        merged_view(preferred, other).strategy == preferred.strategy,
{
    let m = merged_view(preferred, other);
    let pv = effect_of(preferred);
    let ov = effect_of(other);
    let mv = effect_of(m);
    assert(mv.erases =~= m.erases);
    assert forall|c: int| #[trigger] ov.sets.contains_key(c) implies mv.sets.contains_key(c)
        && mv.sets[c] == ov.sets[c] by {
        if pv.sets.contains_key(c) {
            assert(!(pv.sets.contains_key(c) && ov.sets.contains_key(c) && pv.sets[c] != ov.sets[c]));
        }
    }
}

/// Taking the actions of `from` and then `a` is merging `a` into what taking
/// `from` left: taking a list of actions merges them one at a time, in order,
/// as `merge_action` does.
pub proof fn lemma_take_actions_one_at_a_time(
    target: Seq<ActionView>,
    from: Seq<ActionView>,
    a: ActionView,
)
    ensures
        merge_all(target, from.push(a)) == merged_into(merge_all(target, from), a),
    decreases from.len(),
{
    if from.len() == 0 {
        assert(from.push(a).drop_first() =~= Seq::<ActionView>::empty());
        assert(from.push(a)[0] == a);
        assert(merge_all(merged_into(target, a), Seq::<ActionView>::empty()) == merged_into(target, a));
    } else {
        assert(from.push(a).drop_first() =~= from.drop_first().push(a));
        assert(from.push(a)[0] == from[0]);
        lemma_take_actions_one_at_a_time(merged_into(target, from[0]), from.drop_first(), a);
    }
}

/// `take_actions_with_rules` is `merge_action` run on each action in turn: if
/// `steps` records the targets that merging the actions of `from` one at a time,
/// in order, goes through, starting from `target`, then taking them all at once
/// ends at the last of them.
pub proof fn lemma_take_actions_is_merge_each(
    target: Seq<ActionView>,
    from: Seq<ActionView>,
    steps: Seq<Seq<ActionView>>,
)
    requires
        steps.len() == from.len() + 1,
        steps[0] == target,
        forall|i: int| 0 <= i < from.len() ==> steps[i + 1] == merged_into(steps[i], #[trigger] from[i]),
    ensures
        merge_all(target, from) == steps[from.len() as int],
    decreases from.len(),
{
    if from.len() > 0 {
        let rest = from.drop_first();
        let later = steps.drop_first();
        assert forall|i: int| 0 <= i < rest.len() implies later[i + 1] == merged_into(
            later[i],
            #[trigger] rest[i],
        ) by {
            assert(rest[i] == from[i + 1]);
            assert(later[i + 1] == steps[i + 2]);
            assert(later[i] == steps[i + 1]);
        }
        assert(steps[1] == merged_into(steps[0], from[0]));
        lemma_take_actions_is_merge_each(merged_into(target, from[0]), rest, later);
    }
}

/// Equal effects are each within the other.
proof fn lemma_equal_within(a: EffectModel, b: EffectModel)
    requires
        effects_equal(a, b),
    ensures
        effects_subset(a, b),
        effects_subset(b, a),
        !sets_conflict(a, b),
{
}

/// Of two actions of one strategy with the same effects, where neither's
/// clues include the other's, the list keeps just one, and the one it keeps
/// has no more clues than either.
pub proof fn lemma_same_effects_keep_fewer_clues(existing: ActionView, incoming: ActionView)
    requires
        existing.strategy == incoming.strategy,
        !is_empty_view(incoming),
        effects_equal(effect_of(existing), effect_of(incoming)),
        !clue_points(incoming).subset_of(clue_points(existing)),
        !clue_points(existing).subset_of(clue_points(incoming)),
    ensures
        merged_into(seq![existing], incoming).len() == 1,
        merged_into(seq![existing], incoming)[0] == existing || merged_into(seq![existing], incoming)[0]
            == incoming,
        clue_points(merged_into(seq![existing], incoming)[0]).len() <= clue_points(existing).len(),
        clue_points(merged_into(seq![existing], incoming)[0]).len() <= clue_points(incoming).len(),
{
    lemma_equal_within(effect_of(existing), effect_of(incoming));
    let t = seq![existing];
    assert(t[0] == existing);
    assert(t.drop_first() =~= Seq::<ActionView>::empty());
    let empty = Seq::<ActionView>::empty();
    assert(!ignored_across(empty, incoming));
    assert(empty + t =~= t);
    assert(empty.push(incoming) =~= seq![incoming]);
    assert(merged_into(t, incoming) == merge_from(empty, t, incoming));
    if clue_points(incoming).len() < clue_points(existing).len() {
        assert(decision(existing, incoming) == Outcome::Replace);
        assert(merge_from(empty, t, incoming) == merge_from(empty, t.drop_first(), incoming));
        assert(merge_from(empty, t.drop_first(), incoming) == seq![incoming]);
    } else {
        assert(decision(existing, incoming) == Outcome::Ignore);
        assert(merge_from(empty, t, incoming) == t);
    }
}

/// Two effects that place the same digit in the same cell overlap.
pub proof fn lemma_same_placement_overlaps(a: EffectModel, b: EffectModel, c: int)
    requires
        a.sets.contains_key(c),
        b.sets.contains_key(c),
        a.sets[c] == b.sets[c],
    ensures
        effects_overlap(a, b),
        effects_overlap(b, a),
{
}

/// Two actions of one strategy with the same clues, whose effects place the same
/// digit in some cell without either doing all that the other does and without
/// placing different digits in a cell, become one action that does what both do.
pub proof fn lemma_overlapping_actions_merge(existing: ActionView, incoming: ActionView, c: int)
    requires
        existing.strategy == incoming.strategy,
        !is_empty_view(incoming),
        clue_points(existing) == clue_points(incoming),
        effect_of(existing).sets.contains_key(c),
        effect_of(incoming).sets.contains_key(c),
        effect_of(existing).sets[c] == effect_of(incoming).sets[c],
        !sets_conflict(effect_of(existing), effect_of(incoming)),
        !effects_subset(effect_of(existing), effect_of(incoming)),
        !effects_subset(effect_of(incoming), effect_of(existing)),
    ensures
        merged_into(seq![existing], incoming) == seq![merged_view(existing, incoming)],
{
    let ev = effect_of(existing);
    let iv = effect_of(incoming);
    lemma_same_placement_overlaps(ev, iv, c);
    if effects_equal(ev, iv) {
        lemma_equal_within(ev, iv);
    }
    assert(decision(existing, incoming) == Outcome::Merge);
    let t = seq![existing];
    assert(t[0] == existing);
    assert(t.drop_first() =~= Seq::<ActionView>::empty());
    let empty = Seq::<ActionView>::empty();
    assert(empty.push(merged_view(existing, incoming)) + t.drop_first() =~= seq![
        merged_view(existing, incoming),
    ]);
}

} // verus!
