//! Declaring attackers and blockers: the checks the rules make before a
//! creature joins combat, and what declaring it changes.
//!
//! The caller hands over the creature's card, the ids of the cards on the
//! battlefield, the turn number and the players; the card and the combat
//! state are updated in place.

use vstd::prelude::*;
use crate::card::{has_keyword_kind, has_type, Card, CardType, KeywordKind};
use crate::combat::{add_blocker_to, lists_view, CombatState};
use crate::error::MtgError;
use crate::ids::{CardId, PlayerId};
use crate::legal_actions::summoning_sick;
use crate::text::{concat3, decimal_string, decimal_text};

verus! {

/// The first player other than `me`, in turn order.
pub open spec fn first_other(players: Seq<PlayerId>, me: PlayerId) -> Option<PlayerId>
    decreases players.len(),
{
    if players.len() == 0 {
        None
    } else if players[0] != me {
        Some(players[0])
    } else {
        first_other(players.drop_first(), me)
    }
}

/// Why a creature may not be declared as an attacker, if it may not: checked
/// in this order, it must be a creature, controlled by the attacking player,
/// on the battlefield, untapped, not summoning sick, and there must be an
/// opponent to attack.
pub open spec fn attack_refusal(
    card: Card,
    player: PlayerId,
    battlefield: Seq<CardId>,
    turn_number: u32,
    players: Seq<PlayerId>,
) -> Option<Seq<char>> {
    if !has_type(card, CardType::Creature) {
        Some("Only creatures can attack"@)
    } else if card.controller != player {
        Some("Can't attack with opponent's creatures"@)
    } else if !battlefield.contains(card.id) {
        Some("Creature must be on battlefield to attack"@)
    } else if card.tapped {
        Some("Creature is tapped and can't attack"@)
    } else if summoning_sick(card, turn_number) {
        Some("Creature has summoning sickness and can't attack this turn"@)
    } else if first_other(players, player) is None {
        Some("No opponent found"@)
    } else {
        None
    }
}

/// The message for a blocked card that is not attacking.
pub open spec fn not_attacking_message(id: CardId) -> Seq<char> {
    "Card "@ + decimal_text(id.value as nat) + " is not attacking"@
}

/// The first of `attackers` that is not attacking, if any.
pub open spec fn first_not_attacking(attackers: Seq<CardId>, attacking: Set<CardId>) -> Option<CardId>
    decreases attackers.len(),
{
    if attackers.len() == 0 {
        None
    } else if !attacking.contains(attackers[0]) {
        Some(attackers[0])
    } else {
        first_not_attacking(attackers.drop_first(), attacking)
    }
}

/// Why a creature may not be declared as a blocker of `attackers`, if it may
/// not: checked in this order, it must be a creature, controlled by the
/// defending player, on the battlefield, untapped; each of `attackers` must be
/// attacking; and it may block one attacker only.
pub open spec fn block_refusal(
    blocker: Card,
    player: PlayerId,
    battlefield: Seq<CardId>,
    attackers: Seq<CardId>,
    attacking: Set<CardId>,
) -> Option<Seq<char>> {
    if !has_type(blocker, CardType::Creature) {
        Some("Only creatures can block"@)
    } else if blocker.controller != player {
        Some("Can't block with opponent's creatures"@)
    } else if !battlefield.contains(blocker.id) {
        Some("Creature must be on battlefield to block"@)
    } else if blocker.tapped {
        Some("Creature is tapped and can't block"@)
    } else if first_not_attacking(attackers, attacking) is Some {
        Some(not_attacking_message(first_not_attacking(attackers, attacking)->0))
    } else if attackers.len() > 1 {
        Some("Creature can only block one attacker"@)
    } else {
        None
    }
}

/// The card after attacking: tapped, unless it has vigilance.
pub open spec fn after_attacking(card: Card) -> Card {
    Card { tapped: card.tapped || !has_keyword_kind(card, KeywordKind::Vigilance), ..card }
}

fn ids_contain(ids: &[CardId], id: CardId) -> (r: bool)
    ensures
        r == ids@.contains(id),
{
    let mut i: usize = 0;
    while i < ids.len()
        invariant
            i <= ids.len(),
            forall|j: int| 0 <= j < i ==> ids@[j] != id,
        decreases ids.len() - i,
    {
        if ids[i] == id {
            return true;
        }
        i = i + 1;
    }
    false
}

fn find_other(players: &[PlayerId], me: PlayerId) -> (r: Option<PlayerId>)
    ensures
        r == first_other(players@, me),
{
    let mut i: usize = 0;
    proof {
        assert(players@.skip(0) =~= players@);
    }
    while i < players.len()
        invariant
            i <= players.len(),
            forall|j: int| 0 <= j < i ==> players@[j] == me,
            first_other(players@, me) == first_other(players@.skip(i as int), me),
        decreases players.len() - i,
    {
        proof {
            assert(players@.skip(i as int).drop_first() =~= players@.skip(i + 1));
        }
        if players[i] != me {
            return Some(players[i]);
        }
        i = i + 1;
    }
    None
}

fn find_not_attacking(attackers: &[CardId], combat: &CombatState) -> (r: Option<CardId>)
    ensures
        r == first_not_attacking(attackers@, combat.attackers@.dom()),
{
    let mut i: usize = 0;
    proof {
        assert(attackers@.skip(0) =~= attackers@);
    }
    while i < attackers.len()
        invariant
            i <= attackers.len(),
            first_not_attacking(attackers@, combat.attackers@.dom()) == first_not_attacking(
                attackers@.skip(i as int),
                combat.attackers@.dom(),
            ),
        decreases attackers.len() - i,
    {
        proof {
            assert(attackers@.skip(i as int).drop_first() =~= attackers@.skip(i + 1));
        }
        if !combat.is_attacking(attackers[i]) {
            return Some(attackers[i]);
        }
        i = i + 1;
    }
    None
}

fn refuse(message: &str) -> (r: Result<(), MtgError>)
    ensures
        r matches Err(MtgError::InvalidAction(s)) && s@ == message@,
{
    Err(MtgError::InvalidAction(message.to_owned()))
}

/// Declares `card` as an attacker for `player_id`: when the rules allow it,
/// it attacks the first other player of `players` and is tapped unless it
/// has vigilance; otherwise nothing changes and the reason is returned.
pub fn declare_attacker(
    combat: &mut CombatState,
    card: &mut Card,
    player_id: PlayerId,
    battlefield: &[CardId],
    turn_number: u32,
    players: &[PlayerId],
) -> (r: Result<(), MtgError>)
    ensures
        match attack_refusal(*old(card), player_id, battlefield@, turn_number, players@) {
            Some(m) => r matches Err(MtgError::InvalidAction(s)) && s@ == m && *final(combat) == *old(combat)
                && *final(card) == *old(card),
            None => {
                &&& r is Ok
                &&& final(combat).attackers@ == old(combat).attackers@.insert(
                    old(card).id,
                    first_other(players@, player_id)->0,
                )
                &&& final(combat).blockers@ == old(combat).blockers@
                &&& final(combat).attacker_blockers@ == old(combat).attacker_blockers@
                &&& final(combat).combat_active
                &&& *final(card) == after_attacking(*old(card))
            },
        },
{
    if !card.is_creature() {
        return refuse("Only creatures can attack");
    }
    if card.controller != player_id {
        return refuse("Can't attack with opponent's creatures");
    }
    if !ids_contain(battlefield, card.id) {
        return refuse("Creature must be on battlefield to attack");
    }
    if card.tapped {
        return refuse("Creature is tapped and can't attack");
    }
    match card.turn_entered_battlefield {
        Some(entered) => {
            if entered == turn_number && !card.has_keyword_kind(KeywordKind::Haste) {
                return refuse("Creature has summoning sickness and can't attack this turn");
            }
        },
        None => {},
    }
    let defending = match find_other(players, player_id) {
        Some(p) => p,
        None => {
            return refuse("No opponent found");
        },
    };
    combat.declare_attacker(card.id, defending);
    if !card.has_keyword_kind(KeywordKind::Vigilance) {
        card.tapped = true;
    }
    proof {
        assert(*card == after_attacking(*old(card)));
    }
    Ok(())
}

/// Declares `blocker` as blocking `attackers` for `player_id`: when the rules
/// allow it, the combat state records the block; otherwise nothing changes
/// and the reason is returned.
pub fn declare_blocker(
    combat: &mut CombatState,
    blocker: &Card,
    player_id: PlayerId,
    battlefield: &[CardId],
    attackers: Vec<CardId>,
) -> (r: Result<(), MtgError>)
    ensures
        match block_refusal(*blocker, player_id, battlefield@, attackers@, old(combat).attackers@.dom()) {
            Some(m) => r matches Err(MtgError::InvalidAction(s)) && s@ == m && *final(combat) == *old(combat),
            None => {
                &&& r is Ok
                &&& final(combat).attackers@ == old(combat).attackers@
                &&& final(combat).blockers@.dom() == old(combat).blockers@.dom().insert(blocker.id)
                &&& final(combat).blockers@[blocker.id]@ == attackers@
                &&& forall|b: CardId|
                    b != blocker.id && #[trigger] old(combat).blockers@.contains_key(b) ==> final(combat).blockers@[b]@
                        == old(combat).blockers@[b]@
                &&& lists_view(final(combat).attacker_blockers@) == add_blocker_to(
                    lists_view(old(combat).attacker_blockers@),
                    attackers@,
                    blocker.id,
                )
                &&& final(combat).combat_active == old(combat).combat_active
            },
        },
{
    if !blocker.is_creature() {
        return refuse("Only creatures can block");
    }
    if blocker.controller != player_id {
        return refuse("Can't block with opponent's creatures");
    }
    if !ids_contain(battlefield, blocker.id) {
        return refuse("Creature must be on battlefield to block");
    }
    if blocker.tapped {
        return refuse("Creature is tapped and can't block");
    }
    match find_not_attacking(attackers.as_slice(), combat) {
        Some(a) => {
            let num = decimal_string(a.value as usize);
            return Err(MtgError::InvalidAction(concat3("Card ", num.as_str(), " is not attacking")));
        },
        None => {},
    }
    if attackers.len() > 1 {
        return refuse("Creature can only block one attacker");
    }
    combat.declare_blocker(blocker.id, attackers);
    Ok(())
}

} // verus!

verus! {

/// A creature offered as a possible attacker can be declared as one, when it
/// is on the battlefield and there is an opponent to attack.
pub proof fn law_offered_attacker_can_attack(
    card: Card,
    player: PlayerId,
    attacking: Set<CardId>,
    turn_number: u32,
    battlefield: Seq<CardId>,
    players: Seq<PlayerId>,
)
    requires
        crate::legal_actions::may_attack(card, player, attacking, turn_number),
        battlefield.contains(card.id),
        first_other(players, player) is Some,
    ensures
        attack_refusal(card, player, battlefield, turn_number, players) is None,
{
}

/// A creature offered as a possible blocker can be declared as blocking one
/// attacking creature, when it is on the battlefield.
pub proof fn law_offered_blocker_can_block(
    blocker: Card,
    player: PlayerId,
    blocking: Set<CardId>,
    battlefield: Seq<CardId>,
    attacker: CardId,
    attacking: Set<CardId>,
)
    requires
        crate::legal_actions::may_block(blocker, player, blocking),
        battlefield.contains(blocker.id),
        attacking.contains(attacker),
    ensures
        block_refusal(blocker, player, battlefield, seq![attacker], attacking) is None,
{
    let s = seq![attacker];
    assert(s.drop_first() =~= Seq::<CardId>::empty());
    assert(first_not_attacking(Seq::<CardId>::empty(), attacking) is None);
    assert(s[0] == attacker);
    assert(first_not_attacking(s, attacking) == first_not_attacking(s.drop_first(), attacking));
}

} // verus!
