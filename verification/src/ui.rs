//! Cursor navigation and square selection for an interactive front end.
//!
//! The widget state owns the game, a cursor position, and an optional
//! selected square.  Toggling selection on a second square asks the game
//! to attempt the move between the two; a rejected request simply clears
//! the selection and leaves the game unchanged.

use vstd::prelude::*;

use crate::board::{apply_spec, initial_square, square, Move};
use crate::game::{has_any_move, legal_move, move_allowed, ChessState};
use crate::geometry::{in_bounds, shift_ok, shifted, Color, Dir, Pos};

verus! {

/// The interactive state: the game, the cursor, and the selection.
pub struct ChessWidgetState {
    pub chess_state: ChessState,
    pub cursor: Pos,
    pub selected: Option<Pos>,
}

/// The game part of the widget state is unchanged between `pre` and `post`.
pub open spec fn game_unchanged(pre: ChessWidgetState, post: ChessWidgetState) -> bool {
    post.chess_state.board@ == pre.chess_state.board@ && post.chess_state.turn
        == pre.chess_state.turn
}

/// What one selection toggle does: with no legal move left, nothing;
/// with nothing selected, the cursor's square becomes selected; with a
/// square selected, the selection is cleared and, when the cursor names
/// a different square that a legal move of the side to move reaches,
/// that move is applied and the turn flips.
pub open spec fn toggle_transition(pre: ChessWidgetState, post: ChessWidgetState) -> bool {
    let s = pre.chess_state.board@;
    let t = pre.chess_state.turn;
    &&& post.cursor == pre.cursor
    &&& (!has_any_move(s, t) ==> game_unchanged(pre, post) && post.selected == pre.selected)
    &&& (has_any_move(s, t) && pre.selected is None ==> game_unchanged(pre, post) && post.selected
        == Some(pre.cursor))
    &&& (has_any_move(s, t) && pre.selected is Some ==> {
        let sel = pre.selected->0;
        &&& post.selected is None
        &&& (sel == pre.cursor || !move_allowed(s, t, sel, pre.cursor) ==> game_unchanged(
            pre,
            post,
        ))
        &&& (sel != pre.cursor && move_allowed(s, t, sel, pre.cursor) ==> post.chess_state.turn
            == t.other_spec() && (exists|m: Move|
            legal_move(s, t, sel, m) && m.from_spec() == sel && m.to_spec() == pre.cursor
                && post.chess_state.board@ == apply_spec(s, m)))
    })
}

impl ChessWidgetState {
    /// The game is well formed and every stored position is on the board.
    pub open spec fn wf(self) -> bool {
        self.chess_state.wf() && self.cursor.wf() && (self.selected is Some
            ==> self.selected->0.wf())
    }

    /// A fresh game with the cursor on the White king's pawn and nothing
    /// selected.
    pub fn new() -> (s: ChessWidgetState)
        ensures
            s.wf(),
            s.selected is None,
            s.cursor == (Pos { file: 5, rank: 2 }),
            s.chess_state.turn == Color::White,
            forall|f: int, r: int|
                in_bounds(f, r) ==> square(s.chess_state.board@, f, r) == initial_square(f, r),
    {
        ChessWidgetState {
            chess_state: ChessState::new(),
            cursor: Pos { file: 5, rank: 2 },
            selected: None,
        }
    }

    /// Moves the cursor one square in `dir`, staying put at the board
    /// edge; the game and the selection are untouched.
    pub fn move_cursor(&mut self, dir: Dir)
        requires
            old(self).wf(),
        ensures
            final(self).wf(),
            final(self).chess_state == old(self).chess_state,
            final(self).selected == old(self).selected,
            shift_ok(old(self).cursor, dir) ==> final(self).cursor == shifted(
                old(self).cursor,
                dir,
            ),
            !shift_ok(old(self).cursor, dir) ==> final(self).cursor == old(self).cursor,
    {
        self.cursor = match self.cursor.move_dir(dir) {
            Ok(pos) => pos,
            Err(_) => self.cursor,
        }
    }

    /// Selects the cursor's square, or, with a square already selected,
    /// asks the game to move from it to the cursor and clears the
    /// selection.  When the side to move has no legal moves at all the
    /// call does nothing, so a finished game can no longer be driven.
    pub fn toggle_select(&mut self)
        requires
            old(self).wf(),
        ensures
            final(self).wf(),
            toggle_transition(*old(self), *final(self)),
    {
        if !self.chess_state.player_has_moves() {
            return ;
        }
        match self.selected {
            Some(sel) => {
                if self.cursor != sel {
                    let cursor = self.cursor;
                    match self.chess_state.move_checked(sel, cursor) {
                        Ok(()) => (),
                        Err(_) => (),
                    }
                }
                self.selected = None;
            },
            None => {
                self.selected = Some(self.cursor);
            },
        }
    }

    /// Clears the selection; everything else is untouched.
    pub fn quit_select(&mut self)
        requires
            old(self).wf(),
        ensures
            final(self).wf(),
            final(self).chess_state == old(self).chess_state,
            final(self).cursor == old(self).cursor,
            final(self).selected is None,
    {
        self.selected = None;
    }
}

} // verus!
