//! What can go wrong on the observer's side.

use crate::game::delta::Delta;
use crate::game::error::GameError;
use crate::hex_text::FromHexError;
use vstd::prelude::*;

verus! {

/// The ways in which a request to the client can fail.
#[derive(Debug, PartialEq, Eq, Structural, Clone, Copy)]
pub enum ClientError {
    /// The engine sent a delta of a kind that the request does not expect.
    UnknownDelta { delta: Delta },
    /// A column that holds cards offers none to move: its top slot is
    /// opaque.
    NoMove,
    /// The top slot of a destination column is opaque.
    BottomNotVisible,
    /// The engine refused the request.
    GameError(GameError),
    /// The seed text is no hexadecimal encoding.
    HexError(FromHexError),
}

} // verus!
