use vstd::prelude::*;

verus! {

/// Why a move was refused. A refused move never changes the game.
#[derive(Clone, Copy, Debug, PartialEq, Eq, Structural)]
pub enum MoveError {
    /// The requested batch slot has already been played.
    ShapeAlreadyUsed,
    /// Some cell of the shape would fall off the board or wrap past its edge.
    OutOfRange,
    /// Some cell of the shape would cover an occupied board cell.
    Overlap,
}

impl MoveError {
    /// A short human-readable description of the error.
    pub fn message(&self) -> (r: &'static str) {
        match self {
            MoveError::ShapeAlreadyUsed => "Invalid move: shape already used",
            MoveError::OutOfRange => "Invalid move: shape out of range",
            MoveError::Overlap => "Invalid move: shape overlapping",
        }
    }
}

} // verus!
