//! Replaying recorded choices before another controller takes over.
//!
//! A controller resumed from a snapshot first plays back the choices recorded
//! during the interrupted turn, in order; once they are used up, or when the
//! next recorded choice is of another kind than the decision asked for, the
//! wrapped controller decides. This module keeps the queue of recorded
//! choices; the caller asks the wrapped controller whenever no recorded choice
//! is handed out.

use vstd::prelude::*;
use crate::card::SpellAbility;
use crate::controller::first_ids;
use crate::ids::{CardId, PlayerId};

verus! {

/// A single recorded choice of a controller.
#[derive(Debug, Clone)]
pub enum ReplayChoice {
    /// The ability to play, or none to pass priority.
    SpellAbility(Option<SpellAbility>),
    /// The targets of a spell.
    Targets(Vec<CardId>),
    /// The mana sources to tap.
    ManaSources(Vec<CardId>),
    /// The attacking creatures.
    Attackers(Vec<CardId>),
    /// The blocks, as (blocker, attacker) pairs.
    Blockers(Vec<(CardId, CardId)>),
    /// The damage assignment order.
    DamageOrder(Vec<CardId>),
    /// The cards to discard.
    Discard(Vec<CardId>),
}

/// A recorded choice, by value.
pub enum ChoiceView {
    SpellAbility(Option<SpellAbility>),
    Targets(Seq<CardId>),
    ManaSources(Seq<CardId>),
    Attackers(Seq<CardId>),
    Blockers(Seq<(CardId, CardId)>),
    DamageOrder(Seq<CardId>),
    Discard(Seq<CardId>),
}

impl View for ReplayChoice {
    type V = ChoiceView;

    open spec fn view(&self) -> ChoiceView {
        match self {
            ReplayChoice::SpellAbility(a) => ChoiceView::SpellAbility(*a),
            ReplayChoice::Targets(v) => ChoiceView::Targets(v@),
            ReplayChoice::ManaSources(v) => ChoiceView::ManaSources(v@),
            ReplayChoice::Attackers(v) => ChoiceView::Attackers(v@),
            ReplayChoice::Blockers(v) => ChoiceView::Blockers(v@),
            ReplayChoice::DamageOrder(v) => ChoiceView::DamageOrder(v@),
            ReplayChoice::Discard(v) => ChoiceView::Discard(v@),
        }
    }
}

/// Plays back recorded choices, in order, one decision at a time.
pub struct ReplayController {
    player_id: PlayerId,
    replay_choices: Vec<ReplayChoice>,
    replay_index: usize,
}

/// A copy of a list of block pairs.
fn copy_pairs(v: &Vec<(CardId, CardId)>) -> (r: Vec<(CardId, CardId)>)
    ensures
        r@ == v@,
{
    let mut r: Vec<(CardId, CardId)> = Vec::new();
    let mut i: usize = 0;
    while i < v.len()
        invariant
            i <= v.len(),
            r@ == v@.take(i as int),
        decreases v.len() - i,
    {
        r.push(v[i]);
        proof {
            assert(v@.take(i + 1) =~= v@.take(i as int).push(v@[i as int]));
        }
        i = i + 1;
    }
    proof {
        assert(v@.take(v@.len() as int) =~= v@);
    }
    r
}

/// A copy of a list of card ids.
fn copy_ids(v: &Vec<CardId>) -> (r: Vec<CardId>)
    ensures
        r@ == v@,
{
    let r = first_ids(v.as_slice(), v.len());
    proof {
        assert(v@.take(v@.len() as int) =~= v@);
    }
    r
}

/// A copy of a recorded choice.
pub fn copy_choice(c: &ReplayChoice) -> (r: ReplayChoice)
    ensures
        r@ == c@,
{
    match c {
        ReplayChoice::SpellAbility(a) => ReplayChoice::SpellAbility(*a),
        ReplayChoice::Targets(v) => ReplayChoice::Targets(copy_ids(v)),
        ReplayChoice::ManaSources(v) => ReplayChoice::ManaSources(copy_ids(v)),
        ReplayChoice::Attackers(v) => ReplayChoice::Attackers(copy_ids(v)),
        ReplayChoice::Blockers(v) => ReplayChoice::Blockers(copy_pairs(v)),
        ReplayChoice::DamageOrder(v) => ReplayChoice::DamageOrder(copy_ids(v)),
        ReplayChoice::Discard(v) => ReplayChoice::Discard(copy_ids(v)),
    }
}

impl ReplayController {
    #[verifier::type_invariant]
    spec fn index_in_range(self) -> bool {
        self.replay_index <= self.replay_choices@.len()
    }

    /// The player this controller decides for.
    pub closed spec fn spec_player(self) -> PlayerId {
        self.player_id
    }

    /// All recorded choices, in order.
    pub closed spec fn spec_choices(self) -> Seq<ReplayChoice> {
        self.replay_choices@
    }

    /// How many recorded choices have been played back.
    pub closed spec fn spec_index(self) -> nat {
        self.replay_index as nat
    }

    /// The next recorded choice, if any is left.
    pub open spec fn pending(self) -> Option<ReplayChoice> {
        if self.spec_index() < self.spec_choices().len() {
            Some(self.spec_choices()[self.spec_index() as int])
        } else {
            None
        }
    }

    /// `self` is `prev` with one more recorded choice played back.
    pub open spec fn advanced_from(self, prev: Self) -> bool {
        &&& self.spec_player() == prev.spec_player()
        &&& self.spec_choices() == prev.spec_choices()
        &&& self.spec_index() == prev.spec_index() + 1
    }

    /// A controller that will play back `replay_choices` from the first.
    pub fn new(player_id: PlayerId, replay_choices: Vec<ReplayChoice>) -> (r: Self)
        ensures
            r.spec_player() == player_id,
            r.spec_choices() == replay_choices@,
            r.spec_index() == 0,
    {
        ReplayController { player_id, replay_choices, replay_index: 0 }
    }

    pub fn player_id(&self) -> (r: PlayerId)
        ensures
            r == self.spec_player(),
    {
        self.player_id
    }

    /// Whether recorded choices are left.
    pub fn has_replay_choice(&self) -> (r: bool)
        ensures
            r == (self.spec_index() < self.spec_choices().len()),
            r == self.pending() is Some,
    {
        self.replay_index < self.replay_choices.len()
    }

    fn advance(&mut self)
        requires
            old(self).spec_index() < old(self).spec_choices().len(),
        ensures
            final(self).advanced_from(*old(self)),
    {
        let n = self.replay_choices.len();
        proof {
            assert(self.replay_index < n);
        }
        self.replay_index = self.replay_index + 1;
    }

    /// The recorded ability choice, if the next recorded choice is one (then it
    /// is played back); otherwise nothing, and nothing is played back.
    pub fn replay_spell_ability(&mut self) -> (r: Option<Option<SpellAbility>>)
        ensures
            match old(self).pending() {
                Some(ReplayChoice::SpellAbility(a)) => r == Some(a) && final(self).advanced_from(*old(self)),
                _ => r is None && *final(self) == *old(self),
            },
    {
        proof {
            use_type_invariant(&*self);
        }
        if self.replay_index >= self.replay_choices.len() {
            return None;
        }
        let found = match &self.replay_choices[self.replay_index] {
            ReplayChoice::SpellAbility(a) => Some(*a),
            _ => None,
        };
        if found.is_some() {
            self.advance();
        }
        found
    }

    /// The recorded targets, if the next recorded choice is targets (then it is
    /// played back); otherwise nothing, and nothing is played back.
    pub fn replay_targets(&mut self) -> (r: Option<Vec<CardId>>)
        ensures
            match old(self).pending() {
                Some(ReplayChoice::Targets(t)) => r matches Some(v) && v@ == t@ && final(self).advanced_from(
                    *old(self),
                ),
                _ => r is None && *final(self) == *old(self),
            },
    {
        proof {
            use_type_invariant(&*self);
        }
        if self.replay_index >= self.replay_choices.len() {
            return None;
        }
        let found = match &self.replay_choices[self.replay_index] {
            ReplayChoice::Targets(t) => Some(copy_ids(t)),
            _ => None,
        };
        if found.is_some() {
            self.advance();
        }
        found
    }

    /// The recorded mana sources, if the next recorded choice is mana sources
    /// (then it is played back); otherwise nothing, and nothing is played back.
    pub fn replay_mana_sources(&mut self) -> (r: Option<Vec<CardId>>)
        ensures
            match old(self).pending() {
                Some(ReplayChoice::ManaSources(t)) => r matches Some(v) && v@ == t@ && final(self).advanced_from(
                    *old(self),
                ),
                _ => r is None && *final(self) == *old(self),
            },
    {
        proof {
            use_type_invariant(&*self);
        }
        if self.replay_index >= self.replay_choices.len() {
            return None;
        }
        let found = match &self.replay_choices[self.replay_index] {
            ReplayChoice::ManaSources(t) => Some(copy_ids(t)),
            _ => None,
        };
        if found.is_some() {
            self.advance();
        }
        found
    }

    /// The recorded attackers, if the next recorded choice is attackers (then
    /// it is played back); otherwise nothing, and nothing is played back.
    pub fn replay_attackers(&mut self) -> (r: Option<Vec<CardId>>)
        ensures
            match old(self).pending() {
                Some(ReplayChoice::Attackers(t)) => r matches Some(v) && v@ == t@ && final(self).advanced_from(
                    *old(self),
                ),
                _ => r is None && *final(self) == *old(self),
            },
    {
        proof {
            use_type_invariant(&*self);
        }
        if self.replay_index >= self.replay_choices.len() {
            return None;
        }
        let found = match &self.replay_choices[self.replay_index] {
            ReplayChoice::Attackers(t) => Some(copy_ids(t)),
            _ => None,
        };
        if found.is_some() {
            self.advance();
        }
        found
    }

    /// The recorded blocks, if the next recorded choice is blocks (then it is
    /// played back); otherwise nothing, and nothing is played back.
    pub fn replay_blockers(&mut self) -> (r: Option<Vec<(CardId, CardId)>>)
        ensures
            match old(self).pending() {
                Some(ReplayChoice::Blockers(t)) => r matches Some(v) && v@ == t@ && final(self).advanced_from(
                    *old(self),
                ),
                _ => r is None && *final(self) == *old(self),
            },
    {
        proof {
            use_type_invariant(&*self);
        }
        if self.replay_index >= self.replay_choices.len() {
            return None;
        }
        let found = match &self.replay_choices[self.replay_index] {
            ReplayChoice::Blockers(t) => Some(copy_pairs(t)),
            _ => None,
        };
        if found.is_some() {
            self.advance();
        }
        found
    }

    /// The recorded damage order, if the next recorded choice is a damage order
    /// (then it is played back); otherwise nothing, and nothing is played back.
    pub fn replay_damage_order(&mut self) -> (r: Option<Vec<CardId>>)
        ensures
            match old(self).pending() {
                Some(ReplayChoice::DamageOrder(t)) => r matches Some(v) && v@ == t@ && final(self).advanced_from(
                    *old(self),
                ),
                _ => r is None && *final(self) == *old(self),
            },
    {
        proof {
            use_type_invariant(&*self);
        }
        if self.replay_index >= self.replay_choices.len() {
            return None;
        }
        let found = match &self.replay_choices[self.replay_index] {
            ReplayChoice::DamageOrder(t) => Some(copy_ids(t)),
            _ => None,
        };
        if found.is_some() {
            self.advance();
        }
        found
    }

    /// The recorded discards, if the next recorded choice is discards (then it
    /// is played back); otherwise nothing, and nothing is played back.
    pub fn replay_discard(&mut self) -> (r: Option<Vec<CardId>>)
        ensures
            match old(self).pending() {
                Some(ReplayChoice::Discard(t)) => r matches Some(v) && v@ == t@ && final(self).advanced_from(
                    *old(self),
                ),
                _ => r is None && *final(self) == *old(self),
            },
    {
        proof {
            use_type_invariant(&*self);
        }
        if self.replay_index >= self.replay_choices.len() {
            return None;
        }
        let found = match &self.replay_choices[self.replay_index] {
            ReplayChoice::Discard(t) => Some(copy_ids(t)),
            _ => None,
        };
        if found.is_some() {
            self.advance();
        }
        found
    }
}

} // verus!
