//! Conway's Game of Life on a fixed-size toroidal grid.
//!
//! A generation is advanced in two phases. `GameBoard::ready` decides every
//! cell's next state from the committed states of its eight neighbours and
//! stores the decision beside the committed state; `GameBoard::step` then
//! commits every decision. Between the two calls each cell carries both
//! states, which is what lets a renderer show cells that are about to be
//! born or to die.
//!
//! - `cell`: one cell and the rule that decides its next state.
//! - `grid`: the mathematical model of a board and of one generation.
//! - `board`: the executable board.
//! - `text`: the text form that a board is read from.
//! - `render`: the picture of a board.
//! - `laws`: what holds of every board.
//! - `patterns`: the block, the blinker and the glider.

pub mod board;
pub mod cell;
pub mod grid;
pub mod laws;
pub mod patterns;
pub mod render;
pub mod text;

pub use crate::board::{GameBoard, OutOfBounds};
pub use crate::cell::{CellState, LifeCell, StateChangeError};
pub use crate::text::LoadError;
