//! What a controller may answer, and the list helpers that the simple
//! controllers share.

use vstd::prelude::*;
use crate::ids::{CardId, PlayerId};

verus! {

/// An action a player can take.
#[derive(Debug, Clone, PartialEq)]
pub enum PlayerAction {
    /// Play a land card from hand.
    PlayLand(CardId),
    /// Cast a spell from hand at the given targets.
    CastSpell { card_id: CardId, targets: Vec<CardId> },
    /// Tap a permanent for mana.
    TapForMana(CardId),
    /// Pass priority.
    PassPriority,
}

/// Two actions are the same action: same kind, same cards, same targets.
pub open spec fn same_action(x: PlayerAction, y: PlayerAction) -> bool {
    match (x, y) {
        (PlayerAction::PlayLand(a), PlayerAction::PlayLand(b)) => a == b,
        (
            PlayerAction::CastSpell { card_id: a, targets: ta },
            PlayerAction::CastSpell { card_id: b, targets: tb },
        ) => a == b && ta@ == tb@,
        (PlayerAction::TapForMana(a), PlayerAction::TapForMana(b)) => a == b,
        (PlayerAction::PassPriority, PlayerAction::PassPriority) => true,
        _ => false,
    }
}

/// A copy of an action.
pub fn copy_action(a: &PlayerAction) -> (r: PlayerAction)
    ensures
        same_action(r, *a),
{
    match a {
        PlayerAction::PlayLand(c) => PlayerAction::PlayLand(*c),
        PlayerAction::CastSpell { card_id, targets } => {
            let copied = first_ids(targets.as_slice(), targets.len());
            assert(copied@ =~= targets@);
            PlayerAction::CastSpell { card_id: *card_id, targets: copied }
        },
        PlayerAction::TapForMana(c) => PlayerAction::TapForMana(*c),
        PlayerAction::PassPriority => PlayerAction::PassPriority,
    }
}

/// A decision maker that reduces every decision to picking one of N
/// described options. What an implementation returns is its own affair: the
/// caller checks the index.
pub trait DecisionMaker {
    /// The player this decision maker decides for.
    fn player_id(&self) -> PlayerId;

    /// Picks one of `options` (by index) for the decision `prompt`.
    fn make_choice(&mut self, prompt: &str, options: &[&str]) -> usize;
}

/// The smaller of two numbers.
pub open spec fn min_usize(a: int, b: int) -> int {
    if a < b {
        a
    } else {
        b
    }
}

/// The first `n` ids of `v` (all of them when `v` is shorter).
pub fn first_ids(v: &[CardId], n: usize) -> (r: Vec<CardId>)
    ensures
        r@ == v@.take(min_usize(n as int, v@.len() as int)),
{
    let k = if n < v.len() { n } else { v.len() };
    let mut r: Vec<CardId> = Vec::new();
    let mut i: usize = 0;
    while i < k
        invariant
            k <= v.len(),
            i <= k,
            r@ == v@.take(i as int),
        decreases k - i,
    {
        r.push(v[i]);
        proof {
            assert(v@.take(i + 1) =~= v@.take(i as int).push(v@[i as int]));
        }
        i = i + 1;
    }
    r
}

/// Pairs each of the first `min(blockers, attackers)` blockers with the
/// attacker at the same position.
pub fn pair_in_order(blockers: &[CardId], attackers: &[CardId]) -> (r: Vec<(CardId, CardId)>)
    ensures
        r.len() == min_usize(blockers@.len() as int, attackers@.len() as int),
        forall|i: int| 0 <= i < r.len() ==> (#[trigger] r@[i]) == (blockers@[i], attackers@[i]),
{
    let k = if blockers.len() < attackers.len() { blockers.len() } else { attackers.len() };
    let mut r: Vec<(CardId, CardId)> = Vec::new();
    let mut i: usize = 0;
    while i < k
        invariant
            k == min_usize(blockers@.len() as int, attackers@.len() as int),
            i <= k,
            r.len() == i,
            forall|j: int| 0 <= j < i ==> (#[trigger] r@[j]) == (blockers@[j], attackers@[j]),
        decreases k - i,
    {
        r.push((blockers[i], attackers[i]));
        i = i + 1;
    }
    r
}

} // verus!
