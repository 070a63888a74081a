use sudoku_rust::commands::deduction_merge::{
    clue_set, merge_action, merge_effects_keep_clues, take_actions_with_rules,
};
use sudoku_rust::layout::cells::cell::Cell;
use sudoku_rust::layout::values::digit::Digit;
use sudoku_rust::layout::values::digit_set::DigitSet;
use sudoku_rust::puzzle::action::{Action, Strategy, Verdict};

/// The cell with a label such as "A1" or "B2".
fn cell(label: &str) -> Cell {
    Cell::try_from(label).unwrap()
}

/// The digit with the one-based value `value`.
fn digit(value: u8) -> Digit {
    Digit::from_ordinal(value)
}

/// The set of the digits with the one-based `values`.
fn digits(values: &[u8]) -> DigitSet {
    let mut set = DigitSet::empty();
    for value in values {
        set.add(digit(*value));
    }
    set
}

fn aggregate(actions: Vec<Action>) -> Vec<Action> {
    let mut target = Vec::new();
    for action in actions {
        merge_action(&mut target, action);
    }
    target
}

#[test]
fn same_effects_prefers_fewer_clues() {
    let mut existing = Action::new_set(Strategy::NakedSingle, cell("A1"), digit(1));
    existing.erase(cell("B2"), digit(3));
    existing.clue_cell_for_digit(Verdict::Primary, cell("A1"), digit(1));
    existing.clue_cell_for_digit(Verdict::Secondary, cell("B2"), digit(3));

    let mut incoming = Action::new_set(Strategy::NakedSingle, cell("A1"), digit(1));
    incoming.erase(cell("B2"), digit(3));
    incoming.clue_cell_for_digit(Verdict::Secondary, cell("A1"), digit(1));

    let result = aggregate(vec![existing, incoming]);

    assert_eq!(1, result.len());
    assert_eq!(1, clue_set(&result[0]).len());
}

#[test]
fn same_effects_keeps_existing_when_more_clues() {
    let mut existing = Action::new_set(Strategy::NakedSingle, cell("A1"), digit(1));
    existing.erase(cell("B2"), digit(3));
    existing.clue_cell_for_digit(Verdict::Primary, cell("A1"), digit(1));

    let mut incoming = Action::new_set(Strategy::NakedSingle, cell("A1"), digit(1));
    incoming.erase(cell("B2"), digit(3));
    incoming.clue_cell_for_digit(Verdict::Primary, cell("A1"), digit(1));
    incoming.clue_cell_for_digit(Verdict::Secondary, cell("B2"), digit(3));

    let result = aggregate(vec![existing, incoming]);

    assert_eq!(1, result.len());
    assert_eq!(1, clue_set(&result[0]).len());
}

#[test]
fn subset_effects_and_clues_subsets_keep_superset() {
    let mut existing = Action::new(Strategy::Erase);
    existing.erase_digits(cell("A1"), digits(&[1, 3]));
    existing.clue_cell_for_digit(Verdict::Primary, cell("A1"), digit(1));
    existing.clue_cell_for_digit(Verdict::Secondary, cell("A1"), digit(3));

    let mut incoming = Action::new(Strategy::Erase);
    incoming.erase(cell("A1"), digit(1));
    incoming.clue_cell_for_digit(Verdict::Secondary, cell("A1"), digit(1));

    let result = aggregate(vec![existing, incoming]);

    assert_eq!(1, result.len());
    assert!(result[0].erases(cell("A1"), digit(1)));
    assert!(result[0].erases(cell("A1"), digit(3)));
}

#[test]
fn subset_effects_existing_subset_replaced_by_superset() {
    let mut existing = Action::new(Strategy::Erase);
    existing.erase(cell("A1"), digit(1));
    existing.clue_cell_for_digit(Verdict::Primary, cell("A1"), digit(1));

    let mut incoming = Action::new(Strategy::Erase);
    incoming.erase_digits(cell("A1"), digits(&[1, 3]));
    incoming.clue_cell_for_digit(Verdict::Primary, cell("A1"), digit(1));
    incoming.clue_cell_for_digit(Verdict::Secondary, cell("A1"), digit(3));

    let result = aggregate(vec![existing, incoming]);

    assert_eq!(1, result.len());
    assert!(result[0].erases(cell("A1"), digit(1)));
    assert!(result[0].erases(cell("A1"), digit(3)));
}

#[test]
fn subset_effects_without_clue_subset_keep_both() {
    let mut existing = Action::new(Strategy::Erase);
    existing.erase_digits(cell("A1"), digits(&[1, 3]));
    existing.clue_cell_for_digit(Verdict::Primary, cell("A1"), digit(1));

    let mut incoming = Action::new(Strategy::Erase);
    incoming.erase(cell("A1"), digit(1));
    incoming.clue_cell_for_digit(Verdict::Secondary, cell("B2"), digit(2));

    let result = aggregate(vec![existing, incoming]);

    assert_eq!(2, result.len());
}

#[test]
fn overlap_equal_clues_merges_effects() {
    let mut existing = Action::new(Strategy::Erase);
    existing.erase_digits(cell("A1"), digits(&[1, 2]));
    existing.clue_cell_for_digit(Verdict::Primary, cell("A1"), digit(1));

    let mut incoming = Action::new(Strategy::Erase);
    incoming.erase_digits(cell("A1"), digits(&[2, 3]));
    incoming.clue_cell_for_digit(Verdict::Secondary, cell("A1"), digit(1));

    let result = aggregate(vec![existing, incoming]);

    assert_eq!(1, result.len());
    assert!(result[0].erases(cell("A1"), digit(1)));
    assert!(result[0].erases(cell("A1"), digit(2)));
    assert!(result[0].erases(cell("A1"), digit(3)));
}

#[test]
fn overlap_with_different_clues_keeps_both() {
    let mut existing = Action::new(Strategy::Erase);
    existing.erase_digits(cell("A1"), digits(&[1, 2]));
    existing.clue_cell_for_digit(Verdict::Primary, cell("A1"), digit(1));

    let mut incoming = Action::new(Strategy::Erase);
    incoming.erase_digits(cell("A1"), digits(&[2, 3]));
    incoming.clue_cell_for_digit(Verdict::Secondary, cell("B2"), digit(2));

    let result = aggregate(vec![existing, incoming]);

    assert_eq!(2, result.len());
}

#[test]
fn set_overrides_erase_when_merging() {
    let mut existing = Action::new_set(Strategy::Place, cell("A1"), digit(1));
    existing.clue_cell_for_digit(Verdict::Primary, cell("A1"), digit(1));

    let mut incoming = Action::new(Strategy::Place);
    incoming.erase_digits(cell("A1"), digits(&[2, 3]));
    incoming.clue_cell_for_digit(Verdict::Secondary, cell("A1"), digit(1));

    let result = aggregate(vec![existing, incoming]);

    assert_eq!(1, result.len());
    assert!(result[0].sets(cell("A1"), digit(1)));
    assert!(!result[0].erases(cell("A1"), digit(2)));
    assert!(!result[0].erases(cell("A1"), digit(3)));
}

#[test]
fn conflicting_sets_keep_both() {
    let existing = Action::new_set(Strategy::Place, cell("A1"), digit(1));
    let incoming = Action::new_set(Strategy::Place, cell("A1"), digit(2));

    let result = aggregate(vec![existing, incoming]);

    assert_eq!(2, result.len());
}

#[test]
fn cross_strategy_equal_effects_ignored() {
    let mut existing = Action::new(Strategy::NakedPair);
    existing.erase(cell("A1"), digit(1));

    let mut incoming = Action::new(Strategy::AlignedPairExclusion);
    incoming.erase(cell("A1"), digit(1));

    let result = aggregate(vec![existing, incoming]);

    assert_eq!(1, result.len());
    assert!(result[0].has_strategy(Strategy::NakedPair));
}

#[test]
fn cross_strategy_subset_effects_and_clues_ignored() {
    let mut existing = Action::new(Strategy::HiddenSingle);
    existing.erase_digits(cell("A1"), digits(&[1, 2]));
    existing.clue_cell_for_digit(Verdict::Primary, cell("A1"), digit(1));
    existing.clue_cell_for_digit(Verdict::Secondary, cell("A1"), digit(2));

    let mut incoming = Action::new(Strategy::XWing);
    incoming.erase(cell("A1"), digit(1));
    incoming.clue_cell_for_digit(Verdict::Secondary, cell("A1"), digit(1));

    let result = aggregate(vec![existing, incoming]);

    assert_eq!(1, result.len());
    assert!(result[0].has_strategy(Strategy::HiddenSingle));
}

#[test]
fn cross_strategy_subset_effects_without_clue_subset_keeps_both() {
    let mut existing = Action::new(Strategy::HiddenSingle);
    existing.erase_digits(cell("A1"), digits(&[1, 2]));
    existing.clue_cell_for_digit(Verdict::Primary, cell("A1"), digit(1));

    let mut incoming = Action::new(Strategy::XWing);
    incoming.erase(cell("A1"), digit(1));
    incoming.clue_cell_for_digit(Verdict::Secondary, cell("B2"), digit(2));

    let result = aggregate(vec![existing, incoming]);

    assert_eq!(2, result.len());
}

#[test]
fn empty_action_is_never_added() {
    let mut target = vec![Action::new_set(Strategy::Place, cell("A1"), digit(1))];
    let mut empty = Action::new(Strategy::Erase);
    empty.clue_cell_for_digit(Verdict::Primary, cell("A1"), digit(1));
    merge_action(&mut target, empty);
    assert_eq!(1, target.len());
    assert!(target[0].sets(cell("A1"), digit(1)));
}

#[test]
fn take_actions_merges_in_order() {
    let mut target = Vec::new();
    let mut first = Action::new(Strategy::Erase);
    first.erase_digits(cell("A1"), digits(&[1, 2]));
    first.clue_cell_for_digit(Verdict::Primary, cell("A1"), digit(1));
    let mut second = Action::new(Strategy::Erase);
    second.erase_digits(cell("A1"), digits(&[2, 3]));
    second.clue_cell_for_digit(Verdict::Secondary, cell("A1"), digit(1));
    let third = Action::new_set(Strategy::Place, cell("C3"), digit(9));
    take_actions_with_rules(&mut target, vec![first, second, third]);

    assert_eq!(2, target.len());
    assert!(target[0].has_strategy(Strategy::Erase));
    assert!(target[0].erases(cell("A1"), digit(3)));
    assert!(target[1].sets(cell("C3"), digit(9)));
}

#[test]
fn merged_action_prefers_placed_digits_and_keeps_clues() {
    let mut preferred = Action::new_set(Strategy::Place, cell("A1"), digit(4));
    preferred.erase(cell("B2"), digit(5));
    preferred.clue_cell_for_digit(Verdict::Primary, cell("A1"), digit(4));
    let mut other = Action::new_set(Strategy::Place, cell("A1"), digit(7));
    other.set(cell("B2"), digit(6));
    other.erase(cell("C3"), digit(8));
    other.clue_cell_for_digit(Verdict::Secondary, cell("C3"), digit(8));

    let merged = merge_effects_keep_clues(&preferred, &other);

    assert!(merged.has_strategy(Strategy::Place));
    assert!(merged.sets(cell("A1"), digit(4)));
    assert!(!merged.sets(cell("A1"), digit(7)));
    assert!(merged.sets(cell("B2"), digit(6)));
    assert!(!merged.erases(cell("B2"), digit(5)));
    assert!(merged.erases(cell("C3"), digit(8)));
    assert_eq!(1, clue_set(&merged).len());
    assert_eq!(1, merged.clue_count());
}

#[test]
fn repeated_clue_keeps_one_entry() {
    let mut action = Action::new(Strategy::Erase);
    action.clue_cell_for_digit(Verdict::Primary, cell("A1"), digit(1));
    action.clue_cell_for_digit(Verdict::Secondary, cell("A1"), digit(1));
    assert_eq!(1, action.clue_count());
    assert_eq!(vec![(cell("A1"), digit(1), Verdict::Secondary)], action.collect_clues());
    assert!(action.is_empty());
}

fn three_actions() -> Vec<Action> {
    let mut a = Action::new_set(Strategy::NakedSingle, cell("A1"), digit(1));
    a.clue_cell_for_digit(Verdict::Primary, cell("A1"), digit(1));
    let mut b = Action::new_set(Strategy::HiddenSingle, cell("C3"), digit(4));
    b.erase(cell("C4"), digit(4));
    let mut c = Action::new_set(Strategy::NakedSingle, cell("A1"), digit(1));
    c.erase(cell("A2"), digit(1));
    vec![a, b, c]
}

#[test]
fn taking_actions_merges_them_one_at_a_time() {
    let mut taken = Vec::new();
    take_actions_with_rules(&mut taken, three_actions());
    let merged = aggregate(three_actions());

    assert_eq!(merged.len(), taken.len());
    for (x, y) in merged.iter().zip(taken.iter()) {
        assert_eq!(x.strategy(), y.strategy());
        for i in 0..81 {
            for d in 1..=9 {
                assert_eq!(x.sets(Cell::new(i), digit(d)), y.sets(Cell::new(i), digit(d)));
                assert_eq!(x.erases(Cell::new(i), digit(d)), y.erases(Cell::new(i), digit(d)));
            }
        }
    }
}
