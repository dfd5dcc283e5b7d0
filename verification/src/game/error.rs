//! What can go wrong in the game engine.

use crate::game::Move;
use vstd::prelude::*;

verus! {

/// The ways in which a request to the game engine can fail. A failed request
/// leaves the game as it was.
#[derive(Debug, PartialEq, Eq, Structural, Clone, Copy)]
pub enum GameError {
    /// A deal was asked for while some column was empty.
    DealToEmptyColumn,
    /// The move does not fit the board.
    InvalidMove { mv: Move },
    /// Only the start of the game is on record: there is nothing to undo.
    NoCheckpointsToUndo,
    /// The record on top of the history is none that undo can take back.
    UnknownCheckpoint,
    /// The source has no card left to deal.
    DealFromEmptyDeck,
    /// The source was asked to rewind to a point it has not reached yet.
    RewindIntoFuture,
}

} // verus!
