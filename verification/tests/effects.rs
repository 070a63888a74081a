use sudoku_rust::effects::actions::{Action, Actions, Strategy};
use sudoku_rust::effects::effects::Effects;
use sudoku_rust::effects::errors::Error;
use sudoku_rust::layout::cells::cell::Cell;
use sudoku_rust::layout::knowns::known::Known;

#[test]
fn actions_collect_in_order() {
    let mut actions = Actions::new();
    assert!(actions.is_empty());

    let mut action = Action::new(Strategy::NakedSingle);
    action.set(Cell::new(3), Known::new(4));
    action.set(Cell::new(3), Known::new(5));
    action.erase(Cell::new(7), Known::new(1));
    action.erase(Cell::new(7), Known::new(2));
    actions.add(action);
    actions.add(Action::new_set(Strategy::HiddenSingle, Cell::new(1), Known::new(9)));
    actions.add(Action::new_erase(Strategy::PointingPair, Cell::new(2), Known::new(8)));

    assert!(!actions.is_empty());
    assert_eq!(3, actions.size());
}

#[test]
fn effects_track_errors_and_actions() {
    let mut effects = Effects::new();
    assert!(!effects.has_errors());
    assert!(!effects.has_actions());
    assert_eq!(0, effects.errors().len());

    effects.add_set(Strategy::Neighbor, Cell::new(0), Known::new(1));
    effects.add_erase(Strategy::BoxLineReduction, Cell::new(1), Known::new(1));
    assert!(effects.has_actions());
    assert_eq!(2, effects.moves().size());

    effects.add_error(Error::UnsolvableCell(Cell::new(5)));
    assert!(effects.has_errors());
    assert_eq!(&[Error::UnsolvableCell(Cell::new(5))], effects.errors());

    effects.add_action(Action::new(Strategy::PointingTriple));
    assert_eq!(3, effects.moves().size());
}
