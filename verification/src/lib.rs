//! A two-player chess rules engine: board state, legal-move enumeration,
//! check detection, and turn-ordered move application with exact reversal.

pub mod board;
pub mod game;
pub mod geometry;
pub mod ui;

pub use board::{Figure, Move};
pub use game::ChessState;
pub use geometry::{Color, Dir, MoveError, Pos};
pub use ui::ChessWidgetState;
