//! Rules engine for a two-deck Spider-style patience game.
//!
//! The crate is split the way the game itself is: [`cards`] holds the card
//! domain (suits, ranks, cards and runs), [`game`] the authoritative state
//! machine with its rewindable card source and its undo log, and [`client`]
//! the observer that mirrors the visible board from the delta stream.
//! [`autoplay`] chooses the next step for a player that plays by itself, and
//! [`hex_text`] reads and writes the hexadecimal text of seeds and digests.

pub mod autoplay;
pub mod cards;
pub mod client;
pub mod game;
pub mod hex_text;
