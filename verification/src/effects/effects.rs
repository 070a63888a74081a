//! The errors and follow-up actions that a change produces.
use vstd::prelude::*;

use crate::effects::actions::{Action, Actions, Strategy};
use crate::effects::errors::Error;
use crate::layout::cells::cell::Cell;
use crate::layout::knowns::known::Known;

verus! {

/// Collects the errors found and the actions to take next.
#[derive(Debug)]
pub struct Effects {
    errors: Vec<Error>,
    actions: Actions,
}

impl Effects {
    /// The errors found, in order.
    pub closed spec fn error_list(&self) -> Seq<Error> {
        self.errors@
    }

    /// The actions to take, in order.
    pub closed spec fn action_list(&self) -> Seq<Action> {
        self.actions@
    }

    /// Returns effects with no error and no action.
    pub fn new() -> (r: Self)
        ensures
            r.error_list() == Seq::<Error>::empty(),
            r.action_list() == Seq::<Action>::empty(),
    {
        Self { errors: Vec::new(), actions: Actions::new() }
    }

    /// Returns the errors found.
    pub fn errors(&self) -> (r: &[Error])
        ensures
            r@ == self.error_list(),
    {
        self.errors.as_slice()
    }

    /// Returns the actions to take.
    pub fn moves(&self) -> (r: &Actions)
        ensures
            r@ == self.action_list(),
    {
        &self.actions
    }

    /// Returns true if an error was found.
    pub fn has_errors(&self) -> (r: bool)
        ensures
            r == (self.error_list().len() > 0),
    {
        self.errors.len() != 0
    }

    /// Records `error`.
    pub fn add_error(&mut self, error: Error)
        ensures
            final(self).error_list() == old(self).error_list().push(error),
            final(self).action_list() == old(self).action_list(),
    {
        self.errors.push(error);
    }

    /// Returns true if there are actions to take.
    pub fn has_actions(&self) -> (r: bool)
        ensures
            r == (self.action_list().len() > 0),
    {
        !self.actions.is_empty()
    }

    /// Records `action` to take.
    pub fn add_action(&mut self, action: Action)
        ensures
            final(self).error_list() == old(self).error_list(),
            final(self).action_list() == old(self).action_list().push(action),
    {
        self.actions.add(action);
    }

    /// Records an action for `strategy` that sets `cell` to `known`.
    pub fn add_set(&mut self, strategy: Strategy, cell: Cell, known: Known)
        ensures
            final(self).error_list() == old(self).error_list(),
            final(self).action_list().len() == old(self).action_list().len() + 1,
            final(self).action_list().drop_last() == old(self).action_list(),
            ({
                let a = final(self).action_list().last();
                &&& a.strategy_spec() == strategy
                &&& a.sets() == map![cell@ => known@]
                &&& a.erases() == Map::<int, Set<int>>::empty()
            }),
    {
        self.add_action(Action::new_set(strategy, cell, known));
        proof {
            assert(self.action_list().drop_last() =~= old(self).action_list());
        }
    }

    /// Records an action for `strategy` that erases `known` from `cell`.
    pub fn add_erase(&mut self, strategy: Strategy, cell: Cell, known: Known)
        ensures
            final(self).error_list() == old(self).error_list(),
            final(self).action_list().len() == old(self).action_list().len() + 1,
            final(self).action_list().drop_last() == old(self).action_list(),
            ({
                let a = final(self).action_list().last();
                &&& a.strategy_spec() == strategy
                &&& a.sets() == Map::<int, int>::empty()
                &&& a.erases() == map![cell@ => set![known@]]
            }),
    {
        self.add_action(Action::new_erase(strategy, cell, known));
        proof {
            assert(self.action_list().drop_last() =~= old(self).action_list());
        }
    }
}

} // verus!
