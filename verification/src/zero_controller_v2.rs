//! A controller for the specific-callback interface that always takes the
//! first option.

use vstd::prelude::*;
use crate::controller::{first_ids, pair_in_order, min_usize};
use crate::ids::{CardId, PlayerId};

verus! {

/// Plays the first land, casts the first spell without targets, never taps
/// for mana on its own, attacks with everything, blocks one to one in order,
/// discards the first cards and always passes priority.
pub struct ZeroControllerV2 {
    player_id: PlayerId,
}

impl ZeroControllerV2 {
    /// The player this controller decides for.
    pub closed spec fn spec_player(self) -> PlayerId {
        self.player_id
    }

    pub fn new(player_id: PlayerId) -> (r: Self)
        ensures
            r.spec_player() == player_id,
    {
        ZeroControllerV2 { player_id }
    }

    pub fn player_id(&self) -> (r: PlayerId)
        ensures
            r == self.spec_player(),
    {
        self.player_id
    }

    /// The first land, if any.
    pub fn choose_land_to_play(&mut self, lands_in_hand: &[CardId]) -> (r: Option<CardId>)
        ensures
            r == if lands_in_hand@.len() > 0 { Some(lands_in_hand@[0]) } else { None },
    {
        if lands_in_hand.len() > 0 {
            Some(lands_in_hand[0])
        } else {
            None
        }
    }

    /// The first castable spell, with no targets, if any.
    pub fn choose_spell_to_cast(&mut self, castable_spells: &[CardId]) -> (r: Option<(CardId, Vec<CardId>)>)
        ensures
            castable_spells@.len() == 0 ==> r is None,
            castable_spells@.len() > 0 ==> (r matches Some((c, t)) && c == castable_spells@[0] && t@.len() == 0),
    {
        if castable_spells.len() > 0 {
            Some((castable_spells[0], Vec::new()))
        } else {
            None
        }
    }

    /// Never taps for mana on its own.
    pub fn choose_card_to_tap_for_mana(&mut self, tappable_cards: &[CardId]) -> (r: Option<CardId>)
        ensures
            r is None,
    {
        None
    }

    /// Attacks with every available creature.
    pub fn choose_attackers(&mut self, available_creatures: &[CardId]) -> (r: Vec<CardId>)
        ensures
            r@ == available_creatures@,
    {
        let r = first_ids(available_creatures, available_creatures.len());
        proof {
            assert(available_creatures@.take(available_creatures@.len() as int) =~= available_creatures@);
        }
        r
    }

    /// Blocks the i-th attacker with the i-th blocker while both last.
    pub fn choose_blockers(&mut self, available_blockers: &[CardId], attackers: &[CardId]) -> (r: Vec<
        (CardId, CardId),
    >)
        ensures
            r.len() == min_usize(available_blockers@.len() as int, attackers@.len() as int),
            forall|i: int| 0 <= i < r.len() ==> (#[trigger] r@[i]) == (available_blockers@[i], attackers@[i]),
    {
        pair_in_order(available_blockers, attackers)
    }

    /// Discards the first `count` cards of the hand.
    pub fn choose_cards_to_discard(&mut self, hand: &[CardId], count: usize) -> (r: Vec<CardId>)
        ensures
            r@ == hand@.take(min_usize(count as int, hand@.len() as int)),
    {
        first_ids(hand, count)
    }

    /// Always passes priority: the game asks for specific choices when needed.
    pub fn wants_to_pass_priority(&mut self) -> (r: bool)
        ensures
            r,
    {
        true
    }
}

} // verus!
