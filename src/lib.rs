//! Rules engine for the board game Abalone: board state, move legality,
//! move application and a linear undo/redo history.

pub mod board;
pub mod codec;
pub mod geometry;
pub mod history;
pub mod laws;
pub mod outcome;
pub mod rules;
pub mod stackvec;

pub use board::{is_in_bounds, Abalone, NUM_STARTING_BALLS};
pub use geometry::{Color, Dir, Pos2, Vec2};
pub use outcome::{Error, Move, MoveError, SelectionError};
pub use stackvec::StackVec;
