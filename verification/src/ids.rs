//! Identifiers of cards and players.

use vstd::prelude::*;

verus! {

/// An identifier of a game entity: a card or a player.
#[derive(Debug, Clone, Copy, PartialEq, Eq, Hash, PartialOrd, Ord, Structural)]
pub struct EntityId {
    pub value: u32,
}

/// Identifier of a card.
pub type CardId = EntityId;

/// Identifier of a player.
pub type PlayerId = EntityId;

impl EntityId {
    /// Creates an identifier from its number.
    pub fn new(value: u32) -> (r: Self)
        ensures
            r.value == value,
    {
        EntityId { value }
    }

    /// The number of this identifier.
    pub fn as_u32(&self) -> (r: u32)
        ensures
            r == self.value,
    {
        self.value
    }
}

} // verus!
