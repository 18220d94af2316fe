//! A controller that plays a fixed list of actions, then passes.

use vstd::prelude::*;
use crate::controller::{PlayerAction, copy_action, same_action, first_ids, min_usize};
use crate::ids::{CardId, PlayerId};

verus! {

/// Plays a predetermined sequence of actions.
pub struct ScriptedController {
    player_id: PlayerId,
    actions: Vec<PlayerAction>,
    current_step: usize,
}

impl ScriptedController {
    /// The player this controller acts for.
    pub closed spec fn spec_player(self) -> PlayerId {
        self.player_id
    }

    /// The actions to play, in order.
    pub closed spec fn spec_actions(self) -> Seq<PlayerAction> {
        self.actions@
    }

    /// How many actions have been played.
    pub closed spec fn spec_step(self) -> usize {
        self.current_step
    }

    /// A controller at the start of `actions`.
    pub fn new(player_id: PlayerId, actions: Vec<PlayerAction>) -> (r: Self)
        ensures
            r.spec_player() == player_id,
            r.spec_actions() == actions@,
            r.spec_step() == 0,
    {
        ScriptedController { player_id, actions, current_step: 0 }
    }

    pub fn player_id(&self) -> (r: PlayerId)
        ensures
            r == self.spec_player(),
    {
        self.player_id
    }

    /// The next scripted action, or none (pass priority) once all were played.
    pub fn choose_action(&mut self, available_actions: &[PlayerAction]) -> (r: Option<PlayerAction>)
        ensures
            final(self).spec_player() == old(self).spec_player(),
            final(self).spec_actions() == old(self).spec_actions(),
            old(self).spec_step() < old(self).spec_actions().len() ==> {
                &&& final(self).spec_step() == old(self).spec_step() + 1
                &&& r matches Some(a) && same_action(a, old(self).spec_actions()[old(self).spec_step() as int])
            },
            old(self).spec_step() >= old(self).spec_actions().len() ==> final(self).spec_step() == old(
                self,
            ).spec_step() && r is None,
    {
        if self.current_step < self.actions.len() {
            let action = copy_action(&self.actions[self.current_step]);
            self.current_step = self.current_step + 1;
            Some(action)
        } else {
            None
        }
    }

    /// Discards the first `count` cards of the hand.
    pub fn choose_cards_to_discard(&mut self, hand: &[CardId], count: usize) -> (r: Vec<CardId>)
        ensures
            r@ == hand@.take(min_usize(count as int, hand@.len() as int)),
    {
        first_ids(hand, count)
    }
}

} // verus!
