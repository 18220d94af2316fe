//! Errors reported by the library.

use vstd::prelude::*;

verus! {

/// An error of the rules engine or of one of its loaders.
#[derive(Debug, Clone)]
pub enum MtgError {
    /// An action or setup request that the rules do not allow.
    InvalidAction(String),
    /// A card file that cannot be read as a card.
    InvalidCardFormat(String),
    /// A deck file that cannot be read as a deck.
    InvalidDeckFormat(String),
    /// Reading a file failed; the message says why.
    IoError(String),
}

} // verus!
