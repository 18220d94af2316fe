//! A controller that follows a fixed list of choice indices, for
//! deterministic tests. Once the list is used up it always answers 0.

use vstd::prelude::*;
use crate::card::SpellAbility;
use crate::controller::{first_ids, min_usize};
use crate::ids::{CardId, PlayerId};
use crate::mana::ManaCost;

verus! {

/// Follows a fixed script of choice indices.
#[derive(Debug, Clone)]
pub struct FixedScriptController {
    player_id: PlayerId,
    script: Vec<usize>,
    /// The position of the next choice in the script.
    pub current_index: usize,
}

impl FixedScriptController {
    /// The player this controller decides for.
    pub closed spec fn spec_player(self) -> PlayerId {
        self.player_id
    }

    /// The script of choice indices.
    pub closed spec fn spec_script(self) -> Seq<usize> {
        self.script@
    }

    /// The position of the next choice.
    pub closed spec fn pos(self) -> usize {
        self.current_index
    }

    /// The public `current_index` field, read: the position of the next
    /// choice that the contracts speak of.
    pub fn current_position(&self) -> (r: usize)
        ensures
            r == self.pos(),
    {
        self.current_index
    }

    /// The choice that the next decision takes: the script entry at the
    /// current position, or 0 when the script is used up.
    pub open spec fn upcoming(self) -> usize {
        if self.pos() < self.spec_script().len() {
            self.spec_script()[self.pos() as int]
        } else {
            0
        }
    }

    /// `after` is `before` with one choice taken: the position moves on by
    /// one unless the script is used up, and nothing else changes.
    pub open spec fn advanced(before: Self, after: Self) -> bool {
        &&& after.spec_player() == before.spec_player()
        &&& after.spec_script() == before.spec_script()
        &&& after.pos() == if before.pos() < before.spec_script().len() {
            before.pos() + 1
        } else {
            before.pos() as int
        }
    }

    /// A controller at the start of `script`.
    pub fn new(player_id: PlayerId, script: Vec<usize>) -> (r: Self)
        ensures
            r.spec_player() == player_id,
            r.spec_script() == script@,
            r.pos() == 0,
    {
        FixedScriptController { player_id, script, current_index: 0 }
    }

    pub fn player_id(&self) -> (r: PlayerId)
        ensures
            r == self.spec_player(),
    {
        self.player_id
    }

    /// Takes the next choice from the script: the entry at the current
    /// position, moving on by one, or 0 once the script is used up.
    pub fn next_choice(&mut self) -> (r: usize)
        ensures
            r == old(self).upcoming(),
            Self::advanced(*old(self), *final(self)),
    {
        if self.current_index < self.script.len() {
            let choice = self.script[self.current_index];
            self.current_index = self.current_index + 1;
            choice
        } else {
            0
        }
    }

    /// Choice 0 passes priority; choice N plays the N-th available ability
    /// (counting from 1); a choice past the end passes too.
    pub fn choose_spell_ability_to_play(&mut self, available: &[SpellAbility]) -> (r: Option<SpellAbility>)
        ensures
            Self::advanced(*old(self), *final(self)),
            r == if 1 <= old(self).upcoming() <= available@.len() {
                Some(available@[old(self).upcoming() - 1])
            } else {
                None
            },
    {
        let choice_index = self.next_choice();
        if choice_index == 0 {
            return None;
        }
        let ability_index = choice_index - 1;
        if ability_index >= available.len() {
            return None;
        }
        Some(available[ability_index])
    }

    /// No target when there is none; the only target when there is one
    /// (taking no choice); otherwise the target at the next choice, clamped
    /// to the last one.
    pub fn choose_targets(&mut self, valid_targets: &[CardId]) -> (r: Vec<CardId>)
        ensures
            valid_targets@.len() <= 1 ==> *final(self) == *old(self) && r@ == valid_targets@,
            valid_targets@.len() > 1 ==> Self::advanced(*old(self), *final(self)) && r@ == seq![
                valid_targets@[min_usize(old(self).upcoming() as int, valid_targets@.len() - 1)],
            ],
    {
        if valid_targets.len() == 0 {
            return Vec::new();
        }
        if valid_targets.len() == 1 {
            let mut targets: Vec<CardId> = Vec::new();
            targets.push(valid_targets[0]);
            proof {
                assert(targets@ =~= valid_targets@);
            }
            return targets;
        }
        let choice_index = self.next_choice();
        let last = valid_targets.len() - 1;
        let clamped_index = if choice_index < last { choice_index } else { last };
        let mut targets: Vec<CardId> = Vec::new();
        targets.push(valid_targets[clamped_index]);
        proof {
            assert(targets@ =~= seq![valid_targets@[clamped_index as int]]);
        }
        targets
    }

    /// The first sources, as many as the cost's converted mana cost.
    pub fn choose_mana_sources_to_pay(&mut self, cost: &ManaCost, available_sources: &[CardId]) -> (r: Vec<
        CardId,
    >)
        ensures
            *final(self) == *old(self),
            r@ == available_sources@.take(min_usize(cost.spec_cmc(), available_sources@.len() as int)),
    {
        let needed = cost.cmc() as usize;
        first_ids(available_sources, needed)
    }

    /// Attacks with the first creatures, as many as the next choice says.
    pub fn choose_attackers(&mut self, available_creatures: &[CardId]) -> (r: Vec<CardId>)
        ensures
            available_creatures@.len() == 0 ==> *final(self) == *old(self) && r@.len() == 0,
            available_creatures@.len() > 0 ==> Self::advanced(*old(self), *final(self)) && r@
                == available_creatures@.take(
                min_usize(old(self).upcoming() as int, available_creatures@.len() as int),
            ),
    {
        if available_creatures.len() == 0 {
            return Vec::new();
        }
        let choice_index = self.next_choice();
        first_ids(available_creatures, choice_index)
    }

    /// Blocks the first attacker with the first blockers, as many as the next
    /// choice says; no blocks when there is no attacker or no blocker.
    pub fn choose_blockers(&mut self, available_blockers: &[CardId], attackers: &[CardId]) -> (r: Vec<
        (CardId, CardId),
    >)
        ensures
            attackers@.len() == 0 || available_blockers@.len() == 0 ==> *final(self) == *old(self)
                && r@.len() == 0,
            attackers@.len() > 0 && available_blockers@.len() > 0 ==> {
                &&& Self::advanced(*old(self), *final(self))
                &&& r@.len() == min_usize(old(self).upcoming() as int, available_blockers@.len() as int)
                &&& forall|i: int| 0 <= i < r@.len() ==> (#[trigger] r@[i]) == (available_blockers@[i], attackers@[0])
            },
    {
        if attackers.len() == 0 || available_blockers.len() == 0 {
            return Vec::new();
        }
        let choice_index = self.next_choice();
        let n = if choice_index < available_blockers.len() { choice_index } else { available_blockers.len() };
        let mut blocks: Vec<(CardId, CardId)> = Vec::new();
        let mut i: usize = 0;
        while i < n
            invariant
                n <= available_blockers.len(),
                attackers.len() > 0,
                i <= n,
                blocks.len() == i,
                forall|j: int| 0 <= j < i ==> (#[trigger] blocks@[j]) == (available_blockers@[j], attackers@[0]),
            decreases n - i,
        {
            blocks.push((available_blockers[i], attackers[0]));
            i = i + 1;
        }
        blocks
    }

    /// Keeps the blockers in the order given.
    pub fn choose_damage_assignment_order(&mut self, attacker: CardId, blockers: &[CardId]) -> (r: Vec<
        CardId,
    >)
        ensures
            *final(self) == *old(self),
            r@ == blockers@,
    {
        let r = first_ids(blockers, blockers.len());
        proof {
            assert(blockers@.take(blockers@.len() as int) =~= blockers@);
        }
        r
    }

    /// Discards the first `count` cards of the hand.
    pub fn choose_cards_to_discard(&mut self, hand: &[CardId], count: usize) -> (r: Vec<CardId>)
        ensures
            *final(self) == *old(self),
            r@ == hand@.take(min_usize(count as int, hand@.len() as int)),
    {
        first_ids(hand, count)
    }
}

} // verus!

verus! {

/// Once the script is used up, a choice is always 0 and the position stays.
pub proof fn law_used_up_script_answers_zero(before: FixedScriptController, after: FixedScriptController)
    requires
        before.pos() >= before.spec_script().len(),
        FixedScriptController::advanced(before, after),
    ensures
        before.upcoming() == 0,
        after.upcoming() == 0,
        after.pos() == before.pos(),
{
}

/// A choice before the end of the script is the script's entry, and the
/// next one comes from the following entry.
pub proof fn law_script_entries_in_order(before: FixedScriptController, after: FixedScriptController)
    requires
        before.pos() < before.spec_script().len(),
        FixedScriptController::advanced(before, after),
    ensures
        before.upcoming() == before.spec_script()[before.pos() as int],
        after.pos() == before.pos() + 1,
        after.pos() < after.spec_script().len() ==> after.upcoming() == before.spec_script()[before.pos() + 1],
{
}

} // verus!
