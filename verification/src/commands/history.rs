//! The boards of a game in play, with undo and redo.
use vstd::prelude::*;

use crate::commands::play_core::PlayOutput;
use crate::layout::board::Board;
use crate::text::string_of;

verus! {

/// A history of boards and the position of the board in play.
pub type HistoryView = (Seq<Board>, int);

/// The position is on a board of the history, or at zero while it is empty.
pub open spec fn history_wf(v: HistoryView) -> bool {
    &&& v.0.len() == 0 ==> v.1 == 0
    &&& v.0.len() > 0 ==> 0 <= v.1 < v.0.len()
}

/// The board in play, if any.
pub open spec fn current_board(v: HistoryView) -> Option<Board> {
    if 0 <= v.1 < v.0.len() {
        Some(v.0[v.1])
    } else {
        None
    }
}

/// The history with `b` played: the boards after the one in play are dropped and
/// `b` follows it, as the board in play.
pub open spec fn pushed(v: HistoryView, b: Board) -> HistoryView {
    let kept = if v.0.len() == 0 {
        Seq::<Board>::empty()
    } else {
        v.0.take(v.1 + 1)
    };
    (kept.push(b), kept.len() as int)
}

/// The history one board back, where there is one.
pub open spec fn undone(v: HistoryView) -> HistoryView {
    if v.1 > 0 {
        (v.0, v.1 - 1)
    } else {
        v
    }
}

/// The history one board forward, where there is one.
pub open spec fn redone(v: HistoryView) -> HistoryView {
    if v.1 + 1 < v.0.len() {
        (v.0, v.1 + 1)
    } else {
        v
    }
}

/// The boards of a game and the one in play.
pub struct BoardHistory {
    boards: Vec<Board>,
    index: usize,
}

impl BoardHistory {
    #[verifier::type_invariant]
    spec fn inv(self) -> bool {
        history_wf((self.boards@, self.index as int))
    }

    /// The boards and the position of the one in play.
    pub closed spec fn view(&self) -> HistoryView {
        (self.boards@, self.index as int)
    }

    /// Returns an empty history.
    pub fn new() -> (r: Self)
        ensures
            r.view() == (Seq::<Board>::empty(), 0int),
    {
        BoardHistory { boards: Vec::new(), index: 0 }
    }

    /// Every history is well formed.
    pub fn check(&self)
        ensures
            history_wf(self.view()),
    {
        proof {
            use_type_invariant(self);
        }
    }

    /// Returns the board in play, if any.
    pub fn current(&self) -> (r: Option<Board>)
        ensures
            r == current_board(self.view()),
    {
        proof {
            use_type_invariant(self);
        }
        if self.index < self.boards.len() {
            Some(self.boards[self.index])
        } else {
            None
        }
    }

    /// Plays `board`: the boards after the one in play are dropped, and `board`
    /// is added as the one in play.
    pub fn push_board(&mut self, board: Board)
        ensures
            final(self).view() == pushed(old(self).view(), board),
    {
        proof {
            use_type_invariant(&*self);
        }
        let keep = if self.boards.len() == 0 {
            0
        } else {
            self.index + 1
        };
        let mut boards: Vec<Board> = Vec::new();
        let mut i: usize = 0;
        while i < keep
            invariant
                keep <= self.boards@.len(),
                i <= keep,
                boards@ == self.boards@.take(i as int),
            decreases keep - i,
        {
            boards.push(self.boards[i]);
            i = i + 1;
            proof {
                assert(boards@ =~= self.boards@.take(i as int));
            }
        }
        boards.push(board);
        let index = boards.len() - 1;
        *self = BoardHistory { boards, index };
        proof {
            if old(self).boards@.len() == 0 {
                assert(old(self).boards@.take(0) =~= Seq::<Board>::empty());
            }
        }
    }

    /// Steps back one board where there is one, and says so.
    pub fn undo(&mut self) -> (r: PlayOutput)
        ensures
            final(self).view() == undone(old(self).view()),
            old(self).view().1 > 0 ==> r.messages@.len() == 1 && r.messages@[0]@
                == "Undoing last move"@ && r.show_board,
            old(self).view().1 == 0 ==> r.messages@.len() == 0 && !r.show_board,
            r.overlay is None,
            !r.board_changed,
            !r.quit,
    {
        proof {
            use_type_invariant(&*self);
        }
        let output = PlayOutput::default();
        if self.index > 0 {
            self.index = self.index - 1;
            return output.message(string_of("Undoing last move")).with_show_board();
        }
        output
    }

    /// Steps forward one board where there is one, and says so.
    pub fn redo(&mut self) -> (r: PlayOutput)
        ensures
            final(self).view() == redone(old(self).view()),
            old(self).view().1 + 1 < old(self).view().0.len() ==> r.messages@.len() == 1
                && r.messages@[0]@ == "Redoing last move"@ && r.show_board,
            !(old(self).view().1 + 1 < old(self).view().0.len()) ==> r.messages@.len() == 0
                && !r.show_board,
            r.overlay is None,
            !r.board_changed,
            !r.quit,
    {
        proof {
            use_type_invariant(&*self);
        }
        let output = PlayOutput::default();
        if self.boards.len() > 0 && self.index < self.boards.len() - 1 {
            self.index = self.index + 1;
            return output.message(string_of("Redoing last move")).with_show_board();
        }
        output
    }
}

/// Playing a board makes it the one in play.
pub proof fn lemma_push_plays(v: HistoryView, b: Board)
    requires
        history_wf(v),
    ensures
        history_wf(pushed(v, b)),
        current_board(pushed(v, b)) == Some(b),
{
}

/// Undoing a move just played brings back the board that was in play.
pub proof fn lemma_undo_after_push(v: HistoryView, b: Board)
    requires
        history_wf(v),
        v.0.len() > 0,
    ensures
        current_board(undone(pushed(v, b))) == current_board(v),
{
}

/// Redoing a move just undone gives back the history as it was.
pub proof fn lemma_redo_after_undo(v: HistoryView)
    requires
        history_wf(v),
        v.1 > 0,
    ensures
        redone(undone(v)) == v,
{
}

/// Playing a board leaves nothing to redo.
pub proof fn lemma_push_clears_redo(v: HistoryView, b: Board)
    requires
        history_wf(v),
    ensures
        redone(pushed(v, b)) == pushed(v, b),
{
}

} // verus!
