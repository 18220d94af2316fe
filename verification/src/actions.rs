//! The actions a game records.

use vstd::prelude::*;
use crate::ids::{CardId, PlayerId};

verus! {

/// A game action.
#[derive(Debug, Clone)]
pub enum GameAction {
    /// Play a land from hand.
    PlayLand { player_id: PlayerId, card_id: CardId },
    /// Cast a spell from hand at the given targets.
    CastSpell { player_id: PlayerId, card_id: CardId, targets: Vec<CardId> },
    /// Deal damage from a source to a target.
    DealDamage { source: CardId, target: CardId, amount: i32 },
    /// Tap a permanent for mana.
    TapForMana { player_id: PlayerId, card_id: CardId },
    /// Declare attackers.
    DeclareAttackers { player_id: PlayerId, attackers: Vec<CardId> },
    /// Pass priority.
    PassPriority { player_id: PlayerId },
}

} // verus!
