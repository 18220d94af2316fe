//! A controller that always takes the first option.

use vstd::prelude::*;
use crate::card::SpellAbility;
use crate::controller::{first_ids, pair_in_order, min_usize};
use crate::ids::{CardId, PlayerId};
use crate::mana::ManaCost;

verus! {

/// Plays the first ability, targets the first target, taps the first mana
/// sources, attacks with everything, blocks attackers one to one in order and
/// discards the first cards.
pub struct ZeroController {
    player_id: PlayerId,
}

impl ZeroController {
    /// The player this controller decides for.
    pub closed spec fn spec_player(self) -> PlayerId {
        self.player_id
    }

    pub fn new(player_id: PlayerId) -> (r: Self)
        ensures
            r.spec_player() == player_id,
    {
        ZeroController { player_id }
    }

    pub fn player_id(&self) -> (r: PlayerId)
        ensures
            r == self.spec_player(),
    {
        self.player_id
    }

    /// The first available ability, if any.
    pub fn choose_spell_ability_to_play(&mut self, available: &[SpellAbility]) -> (r: Option<SpellAbility>)
        ensures
            r == if available@.len() > 0 { Some(available@[0]) } else { None },
    {
        if available.len() > 0 {
            Some(available[0])
        } else {
            None
        }
    }

    /// The first valid target, if any.
    pub fn choose_targets(&mut self, spell: CardId, valid_targets: &[CardId]) -> (r: Vec<CardId>)
        ensures
            r@ == valid_targets@.take(min_usize(1, valid_targets@.len() as int)),
    {
        first_ids(valid_targets, 1)
    }

    /// The first sources, as many as the cost's converted mana cost.
    pub fn choose_mana_sources_to_pay(&mut self, cost: &ManaCost, available_sources: &[CardId]) -> (r: Vec<
        CardId,
    >)
        ensures
            r@ == available_sources@.take(min_usize(cost.spec_cmc(), available_sources@.len() as int)),
    {
        first_ids(available_sources, cost.cmc() as usize)
    }

    /// Attacks with every available creature.
    pub fn choose_attackers(&mut self, available_creatures: &[CardId]) -> (r: Vec<CardId>)
        ensures
            r@ == available_creatures@,
    {
        let r = first_ids(available_creatures, available_creatures.len());
        proof {
            assert(available_creatures@.take(available_creatures@.len() as int) =~= available_creatures@);
        }
        r
    }

    /// Blocks the i-th attacker with the i-th blocker while both last.
    pub fn choose_blockers(&mut self, available_blockers: &[CardId], attackers: &[CardId]) -> (r: Vec<
        (CardId, CardId),
    >)
        ensures
            r.len() == min_usize(available_blockers@.len() as int, attackers@.len() as int),
            forall|i: int| 0 <= i < r.len() ==> (#[trigger] r@[i]) == (available_blockers@[i], attackers@[i]),
    {
        pair_in_order(available_blockers, attackers)
    }

    /// Keeps the blockers in the order given.
    pub fn choose_damage_assignment_order(&mut self, attacker: CardId, blockers: &[CardId]) -> (r: Vec<
        CardId,
    >)
        ensures
            r@ == blockers@,
    {
        let r = first_ids(blockers, blockers.len());
        proof {
            assert(blockers@.take(blockers@.len() as int) =~= blockers@);
        }
        r
    }

    /// Discards the first `count` cards of the hand.
    pub fn choose_cards_to_discard(&mut self, hand: &[CardId], count: usize) -> (r: Vec<CardId>)
        ensures
            r@ == hand@.take(min_usize(count as int, hand@.len() as int)),
    {
        first_ids(hand, count)
    }
}

} // verus!
