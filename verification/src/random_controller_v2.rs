//! A random controller for the callback interface: what it decides once the
//! random draws are made.
//!
//! Its generator is any `RngCore` the caller picked (the thread's generator,
//! or a seeded standard generator), so the caller draws: an index below the
//! number of options for each single pick, a coin for each creature that may
//! attack or block, an attacker index for each blocker, a shuffled hand for
//! discards. The functions here turn those draws into the choices.

use vstd::prelude::*;
use crate::controller::{first_ids, min_usize};
use crate::ids::{CardId, PlayerId};
use crate::random_controller::selected;

verus! {

/// Makes random choices through the callback interface.
pub struct RandomControllerV2 {
    player_id: PlayerId,
}

/// The blocks made when each blocker blocks on a true coin, the attacker at
/// its drawn index.
pub open spec fn random_blocks(
    blockers: Seq<CardId>,
    attackers: Seq<CardId>,
    coins: Seq<bool>,
    picks: Seq<usize>,
) -> Seq<(CardId, CardId)>
    decreases blockers.len(),
{
    if blockers.len() == 0 {
        Seq::empty()
    } else {
        let n = blockers.len() - 1;
        let prev = random_blocks(blockers.drop_last(), attackers, coins.take(n), picks.take(n));
        if coins[n] {
            prev.push((blockers[n], attackers[picks[n] as int]))
        } else {
            prev
        }
    }
}

/// The option at a drawn index, or none when there are no options.
fn pick(options: &[CardId], index: usize) -> (r: Option<CardId>)
    requires
        options@.len() > 0 ==> index < options@.len(),
    ensures
        r == if options@.len() == 0 { None } else { Some(options@[index as int]) },
{
    if options.len() == 0 {
        None
    } else {
        Some(options[index])
    }
}

impl RandomControllerV2 {
    /// The player this controller decides for.
    pub closed spec fn spec_player(self) -> PlayerId {
        self.player_id
    }

    pub fn new(player_id: PlayerId) -> (r: Self)
        ensures
            r.spec_player() == player_id,
    {
        RandomControllerV2 { player_id }
    }

    pub fn player_id(&self) -> (r: PlayerId)
        ensures
            r == self.spec_player(),
    {
        self.player_id
    }

    /// The land at the drawn index, none when there is no land.
    pub fn choose_land_to_play(&mut self, lands_in_hand: &[CardId], index: usize) -> (r: Option<CardId>)
        requires
            lands_in_hand@.len() > 0 ==> index < lands_in_hand@.len(),
        ensures
            *final(self) == *old(self),
            r == if lands_in_hand@.len() == 0 { None } else { Some(lands_in_hand@[index as int]) },
    {
        pick(lands_in_hand, index)
    }

    /// The spell at the drawn index, with no targets; none when no spell is
    /// castable.
    pub fn choose_spell_to_cast(&mut self, castable_spells: &[CardId], index: usize) -> (r: Option<(CardId, Vec<CardId>)>)
        requires
            castable_spells@.len() > 0 ==> index < castable_spells@.len(),
        ensures
            *final(self) == *old(self),
            castable_spells@.len() == 0 ==> r is None,
            castable_spells@.len() > 0 ==> (r matches Some((c, t)) && c == castable_spells@[index as int] && t@.len()
                == 0),
    {
        match pick(castable_spells, index) {
            Some(c) => Some((c, Vec::new())),
            None => None,
        }
    }

    /// The card at the drawn index, none when nothing can be tapped.
    pub fn choose_card_to_tap_for_mana(&mut self, tappable_cards: &[CardId], index: usize) -> (r: Option<CardId>)
        requires
            tappable_cards@.len() > 0 ==> index < tappable_cards@.len(),
        ensures
            *final(self) == *old(self),
            r == if tappable_cards@.len() == 0 { None } else { Some(tappable_cards@[index as int]) },
    {
        pick(tappable_cards, index)
    }

    /// The creatures whose coin came up true, in order.
    pub fn choose_attackers(&mut self, available_creatures: &[CardId], coins: &[bool]) -> (r: Vec<CardId>)
        requires
            coins@.len() == available_creatures@.len(),
        ensures
            *final(self) == *old(self),
            r@ == selected(available_creatures@, coins@),
    {
        let mut attackers: Vec<CardId> = Vec::new();
        let mut i: usize = 0;
        while i < available_creatures.len()
            invariant
                i <= available_creatures.len(),
                coins@.len() == available_creatures@.len(),
                attackers@ == selected(available_creatures@.take(i as int), coins@.take(i as int)),
            decreases available_creatures.len() - i,
        {
            proof {
                assert(available_creatures@.take(i + 1).drop_last() =~= available_creatures@.take(i as int));
                assert(coins@.take(i + 1).take(i as int) =~= coins@.take(i as int));
            }
            if coins[i] {
                attackers.push(available_creatures[i]);
            }
            i = i + 1;
        }
        proof {
            assert(available_creatures@.take(available_creatures@.len() as int) =~= available_creatures@);
            assert(coins@.take(coins@.len() as int) =~= coins@);
        }
        attackers
    }

    /// The blocks: none when nothing attacks; otherwise each blocker whose
    /// coin came up true blocks the attacker at its drawn index, in order.
    pub fn choose_blockers(
        &mut self,
        available_blockers: &[CardId],
        attackers: &[CardId],
        coins: &[bool],
        picks: &[usize],
    ) -> (r: Vec<(CardId, CardId)>)
        requires
            coins@.len() == available_blockers@.len(),
            picks@.len() == available_blockers@.len(),
            attackers@.len() > 0 ==> forall|i: int| 0 <= i < picks@.len() ==> #[trigger] picks@[i] < attackers@.len(),
        ensures
            *final(self) == *old(self),
            attackers@.len() == 0 ==> r@.len() == 0,
            attackers@.len() > 0 ==> r@ == random_blocks(available_blockers@, attackers@, coins@, picks@),
    {
        let mut blocks: Vec<(CardId, CardId)> = Vec::new();
        if attackers.len() == 0 {
            return blocks;
        }
        let mut i: usize = 0;
        while i < available_blockers.len()
            invariant
                i <= available_blockers.len(),
                attackers@.len() > 0,
                coins@.len() == available_blockers@.len(),
                picks@.len() == available_blockers@.len(),
                forall|j: int| 0 <= j < picks@.len() ==> #[trigger] picks@[j] < attackers@.len(),
                blocks@ == random_blocks(
                    available_blockers@.take(i as int),
                    attackers@,
                    coins@.take(i as int),
                    picks@.take(i as int),
                ),
            decreases available_blockers.len() - i,
        {
            proof {
                assert(available_blockers@.take(i + 1).drop_last() =~= available_blockers@.take(i as int));
                assert(coins@.take(i + 1).take(i as int) =~= coins@.take(i as int));
                assert(picks@.take(i + 1).take(i as int) =~= picks@.take(i as int));
            }
            if coins[i] {
                let k = picks[i];
                blocks.push((available_blockers[i], attackers[k]));
            }
            i = i + 1;
        }
        proof {
            assert(available_blockers@.take(available_blockers@.len() as int) =~= available_blockers@);
            assert(coins@.take(coins@.len() as int) =~= coins@);
            assert(picks@.take(picks@.len() as int) =~= picks@);
        }
        blocks
    }

    /// The first `count` cards of the shuffled hand (all of them when the hand
    /// is smaller).
    pub fn choose_cards_to_discard(&mut self, shuffled_hand: &[CardId], count: usize) -> (r: Vec<CardId>)
        ensures
            *final(self) == *old(self),
            r@ == shuffled_hand@.take(min_usize(count as int, shuffled_hand@.len() as int)),
    {
        first_ids(shuffled_hand, count)
    }
}

} // verus!
