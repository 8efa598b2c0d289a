//! Rule engine for a tile-placement puzzle played on a 9x9 board.
//!
//! Pieces are 5x5 boolean masks drawn three at a time from a fixed catalog.
//! Full rows, columns and 3x3 grids clear after each placement, and the game
//! ends when no piece of the current batch fits anywhere on the board.

pub mod batch;
pub mod clearing;
pub mod encoding;
pub mod error;
pub mod game;
pub mod placement;

pub use encoding::{parse_move, MoveParseError};
pub use error::MoveError;
pub use game::{Shape, Woodoku};
