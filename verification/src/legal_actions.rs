//! Which creatures may attack or block, which lands may be played, and the
//! list of actions offered to a player holding priority.
//!
//! The lists are computed from the cards themselves (those on the battlefield
//! or in hand) and the combat state; lists of creatures and the list of
//! actions come sorted by card id, so that a choice made by index picks the
//! same card whatever order the cards were found in.

use vstd::prelude::*;
use crate::card::{has_keyword_kind, has_type, needs_stack_target, spell_requires_stack_target, Card, CardType, KeywordKind, SpellAbility};
use crate::mana_engine::{engine_accepts, engine_payment, ManaEngine};
use crate::text::str_eq;
use crate::combat::CombatState;
use crate::ids::{CardId, PlayerId};
use crate::ordering::{is_stable_order, stable_order};

verus! {

/// A creature that came under its controller's control this turn, without
/// haste, cannot attack yet.
pub open spec fn summoning_sick(card: Card, turn_number: u32) -> bool {
    match card.turn_entered_battlefield {
        Some(t) => t == turn_number && !has_keyword_kind(card, KeywordKind::Haste),
        None => false,
    }
}

/// A card of the player's that may be declared as an attacker: an untapped
/// creature, not attacking yet, not summoning sick, without defender.
pub open spec fn may_attack(card: Card, player: PlayerId, attacking: Set<CardId>, turn_number: u32) -> bool {
    &&& card.controller == player
    &&& has_type(card, CardType::Creature)
    &&& !card.tapped
    &&& !attacking.contains(card.id)
    &&& !summoning_sick(card, turn_number)
    &&& !has_keyword_kind(card, KeywordKind::Defender)
}

/// A card of the player's that may be declared as a blocker: an untapped
/// creature, not blocking yet.
pub open spec fn may_block(card: Card, player: PlayerId, blocking: Set<CardId>) -> bool {
    &&& card.controller == player
    &&& has_type(card, CardType::Creature)
    &&& !card.tapped
    &&& !blocking.contains(card.id)
}

/// The ids of the possible attackers among `cards`, in the order of `cards`.
pub open spec fn attacker_ids(cards: Seq<Card>, player: PlayerId, attacking: Set<CardId>, turn_number: u32) -> Seq<
    CardId,
>
    decreases cards.len(),
{
    if cards.len() == 0 {
        Seq::empty()
    } else {
        let prev = attacker_ids(cards.drop_last(), player, attacking, turn_number);
        if may_attack(cards.last(), player, attacking, turn_number) {
            prev.push(cards.last().id)
        } else {
            prev
        }
    }
}

/// The ids of the possible blockers among `cards`, in the order of `cards`.
pub open spec fn blocker_ids(cards: Seq<Card>, player: PlayerId, blocking: Set<CardId>) -> Seq<CardId>
    decreases cards.len(),
{
    if cards.len() == 0 {
        Seq::empty()
    } else {
        let prev = blocker_ids(cards.drop_last(), player, blocking);
        if may_block(cards.last(), player, blocking) {
            prev.push(cards.last().id)
        } else {
            prev
        }
    }
}

/// The ids of the lands among `cards`, in order.
pub open spec fn land_ids(cards: Seq<Card>) -> Seq<CardId>
    decreases cards.len(),
{
    if cards.len() == 0 {
        Seq::empty()
    } else {
        let prev = land_ids(cards.drop_last());
        if has_type(cards.last(), CardType::Land) {
            prev.push(cards.last().id)
        } else {
            prev
        }
    }
}

/// The sort keys of ids: their numbers.
pub open spec fn id_keys(ids: Seq<CardId>) -> Seq<i64> {
    Seq::new(ids.len(), |i: int| ids[i].value as i64)
}

/// The items of `s` at the positions `order`.
pub open spec fn at_positions<T>(s: Seq<T>, order: Seq<usize>) -> Seq<T> {
    Seq::new(order.len(), |i: int| s[order[i] as int])
}

/// `r` is `ids` sorted by number, keeping the order of equal numbers.
pub open spec fn sorted_ids(ids: Seq<CardId>, r: Seq<CardId>) -> bool {
    exists|order: Seq<usize>| is_stable_order(id_keys(ids), order) && r == at_positions(ids, order)
}

/// The card an action is about.
pub open spec fn action_card(a: SpellAbility) -> CardId {
    match a {
        SpellAbility::PlayLand { card_id } => card_id,
        SpellAbility::CastSpell { card_id } => card_id,
        SpellAbility::ActivateAbility { card_id, .. } => card_id,
    }
}

/// The actions offered before sorting: each land (when a land may be played),
/// then each castable spell, then each activatable ability.
pub open spec fn offered_actions(
    may_play_land: bool,
    lands: Seq<CardId>,
    spells: Seq<CardId>,
    abilities: Seq<(CardId, usize)>,
) -> Seq<SpellAbility> {
    (if may_play_land {
        lands.map_values(|c: CardId| SpellAbility::PlayLand { card_id: c })
    } else {
        Seq::empty()
    }) + spells.map_values(|c: CardId| SpellAbility::CastSpell { card_id: c }) + abilities.map_values(
        |p: (CardId, usize)| SpellAbility::ActivateAbility { card_id: p.0, ability_index: p.1 },
    )
}

/// The sort keys of actions: the numbers of their cards.
pub open spec fn action_keys(actions: Seq<SpellAbility>) -> Seq<i64> {
    Seq::new(actions.len(), |i: int| action_card(actions[i]).value as i64)
}

fn sort_ids(ids: Vec<CardId>) -> (r: Vec<CardId>)
    ensures
        sorted_ids(ids@, r@),
{
    let mut keys: Vec<i64> = Vec::new();
    let mut i: usize = 0;
    while i < ids.len()
        invariant
            i <= ids.len(),
            keys.len() == i,
            forall|k: int| 0 <= k < i ==> (#[trigger] keys@[k]) == id_keys(ids@)[k],
        decreases ids.len() - i,
    {
        keys.push(ids[i].value as i64);
        i = i + 1;
    }
    proof {
        assert(keys@ =~= id_keys(ids@));
    }
    let order = stable_order(&keys);
    let mut r: Vec<CardId> = Vec::new();
    let mut j: usize = 0;
    while j < order.len()
        invariant
            j <= order.len(),
            is_stable_order(id_keys(ids@), order@),
            r@ == at_positions(ids@, order@.take(j as int)),
        decreases order.len() - j,
    {
        r.push(ids[order[j]]);
        proof {
            assert(at_positions(ids@, order@.take(j + 1)) =~= at_positions(ids@, order@.take(j as int)).push(
                ids@[order@[j as int] as int],
            ));
        }
        j = j + 1;
    }
    proof {
        assert(order@.take(order@.len() as int) =~= order@);
    }
    r
}

/// The creatures of `player_id` on the battlefield that may attack this turn,
/// sorted by card id.
pub fn available_attacker_creatures(battlefield: &[Card], player_id: PlayerId, combat: &CombatState, turn_number: u32) -> (r:
    Vec<CardId>)
    ensures
        sorted_ids(attacker_ids(battlefield@, player_id, combat.attackers@.dom(), turn_number), r@),
{
    let mut ids: Vec<CardId> = Vec::new();
    let mut i: usize = 0;
    while i < battlefield.len()
        invariant
            i <= battlefield.len(),
            ids@ == attacker_ids(battlefield@.take(i as int), player_id, combat.attackers@.dom(), turn_number),
        decreases battlefield.len() - i,
    {
        proof {
            assert(battlefield@.take(i + 1).drop_last() =~= battlefield@.take(i as int));
        }
        let card = &battlefield[i];
        if card.controller == player_id && card.is_creature() && !card.tapped && !combat.is_attacking(card.id) {
            let sick = match card.turn_entered_battlefield {
                Some(entered) => entered == turn_number && !card.has_keyword_kind(KeywordKind::Haste),
                None => false,
            };
            if !sick && !card.has_defender() {
                ids.push(card.id);
            }
        }
        i = i + 1;
    }
    proof {
        assert(battlefield@.take(battlefield@.len() as int) =~= battlefield@);
    }
    sort_ids(ids)
}

/// The creatures of `player_id` on the battlefield that may block, sorted by
/// card id.
pub fn available_blocker_creatures(battlefield: &[Card], player_id: PlayerId, combat: &CombatState) -> (r: Vec<
    CardId,
>)
    ensures
        sorted_ids(blocker_ids(battlefield@, player_id, combat.blockers@.dom()), r@),
{
    let mut ids: Vec<CardId> = Vec::new();
    let mut i: usize = 0;
    while i < battlefield.len()
        invariant
            i <= battlefield.len(),
            ids@ == blocker_ids(battlefield@.take(i as int), player_id, combat.blockers@.dom()),
        decreases battlefield.len() - i,
    {
        proof {
            assert(battlefield@.take(i + 1).drop_last() =~= battlefield@.take(i as int));
        }
        let card = &battlefield[i];
        if card.controller == player_id && card.is_creature() && !card.tapped && !combat.is_blocking(card.id) {
            ids.push(card.id);
        }
        i = i + 1;
    }
    proof {
        assert(battlefield@.take(battlefield@.len() as int) =~= battlefield@);
    }
    sort_ids(ids)
}

/// The lands in a hand, in hand order.
pub fn lands_in_hand(hand: &[Card]) -> (r: Vec<CardId>)
    ensures
        r@ == land_ids(hand@),
{
    let mut ids: Vec<CardId> = Vec::new();
    let mut i: usize = 0;
    while i < hand.len()
        invariant
            i <= hand.len(),
            ids@ == land_ids(hand@.take(i as int)),
        decreases hand.len() - i,
    {
        proof {
            assert(hand@.take(i + 1).drop_last() =~= hand@.take(i as int));
        }
        if hand[i].is_land() {
            ids.push(hand[i].id);
        }
        i = i + 1;
    }
    proof {
        assert(hand@.take(hand@.len() as int) =~= hand@);
    }
    ids
}

/// Everything a player holding priority may do: playing each land in
/// `lands` (when `may_play_land`: the stack is empty, it is the player's own
/// main phase and a land may still be played), casting each spell of
/// `spells`, activating each ability of `abilities`; sorted by card id,
/// keeping that order among actions on the same card.
pub fn available_spell_abilities(
    may_play_land: bool,
    lands: &[CardId],
    spells: &[CardId],
    abilities: &[(CardId, usize)],
) -> (r: Vec<SpellAbility>)
    ensures
        exists|order: Seq<usize>|
            is_stable_order(action_keys(offered_actions(may_play_land, lands@, spells@, abilities@)), order)
                && r@ == at_positions(offered_actions(may_play_land, lands@, spells@, abilities@), order),
{
    let ghost land_part: Seq<SpellAbility> = if may_play_land {
        lands@.map_values(|c: CardId| SpellAbility::PlayLand { card_id: c })
    } else {
        Seq::empty()
    };
    let ghost spell_part = spells@.map_values(|c: CardId| SpellAbility::CastSpell { card_id: c });
    let ghost ability_part = abilities@.map_values(
        |p: (CardId, usize)| SpellAbility::ActivateAbility { card_id: p.0, ability_index: p.1 },
    );
    let mut all: Vec<SpellAbility> = Vec::new();
    if may_play_land {
        let mut i: usize = 0;
        while i < lands.len()
            invariant
                may_play_land,
                i <= lands.len(),
                land_part == lands@.map_values(|c: CardId| SpellAbility::PlayLand { card_id: c }),
                all@ == land_part.take(i as int),
            decreases lands.len() - i,
        {
            all.push(SpellAbility::PlayLand { card_id: lands[i] });
            proof {
                assert(all@ =~= land_part.take(i + 1));
            }
            i = i + 1;
        }
        proof {
            assert(land_part.take(lands.len() as int) =~= land_part);
        }
    } else {
        proof {
            assert(all@ =~= land_part);
        }
    }
    let mut i: usize = 0;
    while i < spells.len()
        invariant
            i <= spells.len(),
            spell_part == spells@.map_values(|c: CardId| SpellAbility::CastSpell { card_id: c }),
            all@ == land_part + spell_part.take(i as int),
        decreases spells.len() - i,
    {
        all.push(SpellAbility::CastSpell { card_id: spells[i] });
        proof {
            assert(all@ =~= land_part + spell_part.take(i + 1));
        }
        i = i + 1;
    }
    proof {
        assert(spell_part.take(spells.len() as int) =~= spell_part);
    }
    let mut i: usize = 0;
    while i < abilities.len()
        invariant
            i <= abilities.len(),
            ability_part == abilities@.map_values(
                |p: (CardId, usize)| SpellAbility::ActivateAbility { card_id: p.0, ability_index: p.1 },
            ),
            all@ == land_part + spell_part + ability_part.take(i as int),
        decreases abilities.len() - i,
    {
        let (card_id, ability_index) = abilities[i];
        all.push(SpellAbility::ActivateAbility { card_id, ability_index });
        proof {
            assert(all@ =~= land_part + spell_part + ability_part.take(i + 1));
        }
        i = i + 1;
    }
    proof {
        assert(ability_part.take(abilities.len() as int) =~= ability_part);
        assert(all@ =~= offered_actions(may_play_land, lands@, spells@, abilities@));
    }
    let ghost offered = all@;
    let mut keys: Vec<i64> = Vec::new();
    let mut k: usize = 0;
    while k < all.len()
        invariant
            k <= all.len(),
            keys.len() == k,
            forall|j: int| 0 <= j < k ==> (#[trigger] keys@[j]) == action_keys(all@)[j],
        decreases all.len() - k,
    {
        let key: i64 = match &all[k] {
            SpellAbility::PlayLand { card_id } => card_id.value as i64,
            SpellAbility::CastSpell { card_id } => card_id.value as i64,
            SpellAbility::ActivateAbility { card_id, .. } => card_id.value as i64,
        };
        keys.push(key);
        k = k + 1;
    }
    proof {
        assert(keys@ =~= action_keys(all@));
    }
    let order = stable_order(&keys);
    let mut r: Vec<SpellAbility> = Vec::new();
    let mut j: usize = 0;
    while j < order.len()
        invariant
            j <= order.len(),
            is_stable_order(action_keys(all@), order@),
            r@ == at_positions(all@, order@.take(j as int)),
        decreases order.len() - j,
    {
        r.push(all[order[j]]);
        proof {
            assert(at_positions(all@, order@.take(j + 1)) =~= at_positions(all@, order@.take(j as int)).push(
                all@[order@[j as int] as int],
            ));
        }
        j = j + 1;
    }
    proof {
        assert(order@.take(order@.len() as int) =~= order@);
    }
    r
}

} // verus!

verus! {

/// An Aura: a card with the subtype `Aura`.
pub open spec fn is_aura(card: Card) -> bool {
    exists|i: int| 0 <= i < card.subtypes@.len() && (#[trigger] card.subtypes@[i])@ == "Aura"@
}

/// Whether a card may be cast at this moment: an instant at any time, other
/// spells at sorcery speed, by the active player, with an empty stack.
pub open spec fn cast_timing_ok(card: Card, is_active_player: bool, is_sorcery_speed: bool, stack_is_empty: bool) -> bool {
    has_type(card, CardType::Instant) || (is_sorcery_speed && is_active_player && stack_is_empty)
}

/// A creature is on the battlefield.
pub open spec fn creature_present(battlefield: Seq<Card>) -> bool {
    exists|i: int| 0 <= i < battlefield.len() && has_type(#[trigger] battlefield[i], CardType::Creature)
}

/// A card of the hand that may be cast now: not a land, timing allows it, the
/// mana engine can pay its cost, and it has something to aim at: an Aura a
/// creature on the battlefield, a counterspell a spell on the stack.
pub open spec fn castable(
    card: Card,
    engine: crate::mana_engine::EngineView,
    battlefield: Seq<Card>,
    is_active_player: bool,
    is_sorcery_speed: bool,
    stack_is_empty: bool,
) -> bool {
    &&& !has_type(card, CardType::Land)
    &&& cast_timing_ok(card, is_active_player, is_sorcery_speed, stack_is_empty)
    &&& engine_payment(engine, card.mana_cost) is Yes
    &&& if is_aura(card) {
        creature_present(battlefield)
    } else if needs_stack_target(card) {
        !stack_is_empty
    } else {
        true
    }
}

/// The ids of the castable cards of a hand, in hand order.
pub open spec fn castable_ids(
    hand: Seq<Card>,
    engine: crate::mana_engine::EngineView,
    battlefield: Seq<Card>,
    is_active_player: bool,
    is_sorcery_speed: bool,
    stack_is_empty: bool,
) -> Seq<CardId>
    decreases hand.len(),
{
    if hand.len() == 0 {
        Seq::empty()
    } else {
        let prev = castable_ids(hand.drop_last(), engine, battlefield, is_active_player, is_sorcery_speed, stack_is_empty);
        if castable(hand.last(), engine, battlefield, is_active_player, is_sorcery_speed, stack_is_empty) {
            prev.push(hand.last().id)
        } else {
            prev
        }
    }
}

fn has_aura_subtype(card: &Card) -> (r: bool)
    ensures
        r == is_aura(*card),
{
    let mut i: usize = 0;
    while i < card.subtypes.len()
        invariant
            i <= card.subtypes.len(),
            forall|j: int| 0 <= j < i ==> (#[trigger] card.subtypes@[j])@ != "Aura"@,
        decreases card.subtypes.len() - i,
    {
        if str_eq(card.subtypes[i].as_str(), "Aura") {
            return true;
        }
        i = i + 1;
    }
    false
}

fn any_creature(battlefield: &[Card]) -> (r: bool)
    ensures
        r == creature_present(battlefield@),
{
    let mut i: usize = 0;
    while i < battlefield.len()
        invariant
            i <= battlefield.len(),
            forall|j: int| 0 <= j < i ==> !has_type(#[trigger] battlefield@[j], CardType::Creature),
        decreases battlefield.len() - i,
    {
        if battlefield[i].is_creature() {
            return true;
        }
        i = i + 1;
    }
    false
}

/// The spells of a hand that may be cast now, in hand order, given the mana
/// engine of their player (already updated from the battlefield), the cards
/// on the battlefield, and whether the player is the active player, it is a
/// main phase and the stack is empty.
pub fn castable_spells(
    engine: &ManaEngine,
    hand: &[Card],
    battlefield: &[Card],
    is_active_player: bool,
    is_sorcery_speed: bool,
    stack_is_empty: bool,
) -> (r: Vec<CardId>)
    requires
        forall|i: int| 0 <= i < hand@.len() ==> engine_accepts(engine@, (#[trigger] hand@[i]).mana_cost),
    ensures
        r@ == castable_ids(hand@, engine@, battlefield@, is_active_player, is_sorcery_speed, stack_is_empty),
{
    let mut ids: Vec<CardId> = Vec::new();
    let mut i: usize = 0;
    while i < hand.len()
        invariant
            i <= hand.len(),
            forall|k: int| 0 <= k < hand@.len() ==> engine_accepts(engine@, (#[trigger] hand@[k]).mana_cost),
            ids@ == castable_ids(
                hand@.take(i as int),
                engine@,
                battlefield@,
                is_active_player,
                is_sorcery_speed,
                stack_is_empty,
            ),
        decreases hand.len() - i,
    {
        proof {
            assert(hand@.take(i + 1).drop_last() =~= hand@.take(i as int));
        }
        let card = &hand[i];
        if !card.is_land() {
            let timing = card.is_instant() || (is_sorcery_speed && is_active_player && stack_is_empty);
            if timing && engine.can_pay(&card.mana_cost) {
                if has_aura_subtype(card) {
                    if any_creature(battlefield) {
                        ids.push(card.id);
                    }
                } else if spell_requires_stack_target(card) {
                    if !stack_is_empty {
                        ids.push(card.id);
                    }
                } else {
                    ids.push(card.id);
                }
            }
        }
        i = i + 1;
    }
    proof {
        assert(hand@.take(hand@.len() as int) =~= hand@);
    }
    ids
}

} // verus!

verus! {

/// A list sorted by `sorted_ids` is ascending by card number, as long as the
/// list it came from, and made of its ids: so a choice by index picks the
/// same card whatever order the cards were found in.
pub proof fn law_sorted_ids_ascending(ids: Seq<CardId>, r: Seq<CardId>)
    requires
        sorted_ids(ids, r),
    ensures
        r.len() == ids.len(),
        forall|i: int, j: int| 0 <= i < j < r.len() ==> (#[trigger] r[i]).value <= (#[trigger] r[j]).value,
        forall|i: int| 0 <= i < r.len() ==> ids.contains(#[trigger] r[i]),
{
    let order = choose|order: Seq<usize>| is_stable_order(id_keys(ids), order) && r == at_positions(ids, order);
    assert forall|i: int, j: int| 0 <= i < j < r.len() implies (#[trigger] r[i]).value <= (#[trigger] r[j]).value by {
        assert(crate::ordering::key_before(id_keys(ids), order[i] as int, order[j] as int));
        assert(id_keys(ids)[order[i] as int] == ids[order[i] as int].value as i64);
        assert(id_keys(ids)[order[j] as int] == ids[order[j] as int].value as i64);
    }
    assert forall|i: int| 0 <= i < r.len() implies ids.contains(#[trigger] r[i]) by {
        assert(order[i] < id_keys(ids).len());
        assert(r[i] == ids[order[i] as int]);
    }
}

} // verus!
