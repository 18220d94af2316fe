use mtg_forge_rs::card::{Card, CardType, Effect, Keyword, SpellAbility};
use mtg_forge_rs::mana::ManaCost;
use mtg_forge_rs::mana_engine::ManaEngine;
use mtg_forge_rs::combat::CombatState;
use mtg_forge_rs::ids::EntityId;
use mtg_forge_rs::legal_actions::{
    available_attacker_creatures, available_blocker_creatures, available_spell_abilities, castable_spells, lands_in_hand,
};

fn creature(id: u32, controller: u32) -> Card {
    let mut c = Card::new(EntityId::new(id), format!("Creature {}", id), EntityId::new(controller));
    c.types.push(CardType::Creature);
    c.power = Some(2);
    c.toughness = Some(2);
    c
}

fn ids(v: &[u32]) -> Vec<EntityId> {
    v.iter().map(|&n| EntityId::new(n)).collect()
}

#[test]
fn attackers_exclude_tapped_sick_defenders_and_attacking() {
    let mut tapped = creature(5, 1);
    tapped.tapped = true;
    let mut sick = creature(3, 1);
    sick.turn_entered_battlefield = Some(4);
    let mut hasty = creature(9, 1);
    hasty.turn_entered_battlefield = Some(4);
    hasty.keywords.push(Keyword::Haste);
    let mut old = creature(7, 1);
    old.turn_entered_battlefield = Some(2);
    let mut wall = creature(2, 1);
    wall.keywords.push(Keyword::Defender);
    let theirs = creature(1, 2);
    let attacking = creature(4, 1);
    let mut land = Card::new(EntityId::new(6), "Forest".to_string(), EntityId::new(1));
    land.types.push(CardType::Land);
    let battlefield = vec![tapped, sick, hasty, old, wall, theirs, attacking, land];
    let mut combat = CombatState::new();
    combat.declare_attacker(EntityId::new(4), EntityId::new(2));
    assert_eq!(available_attacker_creatures(&battlefield, EntityId::new(1), &combat, 4), ids(&[7, 9]));
    // Next turn the new creature may attack too.
    assert_eq!(available_attacker_creatures(&battlefield, EntityId::new(1), &combat, 5), ids(&[3, 7, 9]));
    assert_eq!(available_attacker_creatures(&battlefield, EntityId::new(2), &combat, 4), ids(&[1]));
}

#[test]
fn blockers_are_untapped_creatures_not_blocking() {
    let mut tapped = creature(5, 2);
    tapped.tapped = true;
    let battlefield = vec![creature(8, 2), tapped, creature(3, 2), creature(1, 1), creature(6, 2)];
    let mut combat = CombatState::new();
    combat.declare_blocker(EntityId::new(6), ids(&[1]));
    assert_eq!(available_blocker_creatures(&battlefield, EntityId::new(2), &combat), ids(&[3, 8]));
    assert_eq!(available_blocker_creatures(&battlefield, EntityId::new(3), &combat), ids(&[]));
}

#[test]
fn lands_in_hand_in_order() {
    let mut a = Card::new(EntityId::new(4), "Island".to_string(), EntityId::new(1));
    a.types.push(CardType::Land);
    let b = creature(2, 1);
    let mut c = Card::new(EntityId::new(1), "Swamp".to_string(), EntityId::new(1));
    c.types.push(CardType::Land);
    assert_eq!(lands_in_hand(&[a, b, c]), ids(&[4, 1]));
}

#[test]
fn spell_abilities_sorted_by_card() {
    let r = available_spell_abilities(true, &ids(&[8, 2]), &ids(&[5]), &[(EntityId::new(2), 1), (EntityId::new(1), 0)]);
    assert_eq!(
        r,
        vec![
            SpellAbility::ActivateAbility { card_id: EntityId::new(1), ability_index: 0 },
            SpellAbility::PlayLand { card_id: EntityId::new(2) },
            SpellAbility::ActivateAbility { card_id: EntityId::new(2), ability_index: 1 },
            SpellAbility::CastSpell { card_id: EntityId::new(5) },
            SpellAbility::PlayLand { card_id: EntityId::new(8) },
        ]
    );
    let r = available_spell_abilities(false, &ids(&[8, 2]), &ids(&[5]), &[]);
    assert_eq!(r, vec![SpellAbility::CastSpell { card_id: EntityId::new(5) }]);
    assert!(available_spell_abilities(false, &[], &[], &[]).is_empty());
}

fn basic(id: u32, name: &str, owner: u32) -> Card {
    let mut c = Card::new(EntityId::new(id), name.to_string(), EntityId::new(owner));
    c.types.push(CardType::Land);
    c
}

fn spell(id: u32, name: &str, t: CardType, cost: &str) -> Card {
    let mut c = Card::new(EntityId::new(id), name.to_string(), EntityId::new(1));
    c.types.push(t);
    c.mana_cost = ManaCost::from_string(cost);
    c
}

#[test]
fn castable_spells_by_timing_mana_and_targets() {
    let battlefield = vec![basic(1, "Mountain", 1), basic(2, "Island", 1), basic(3, "Island", 1)];
    let mut engine = ManaEngine::new(EntityId::new(1));
    engine.update(&battlefield, 3);
    let bolt = spell(10, "Lightning Bolt", CardType::Instant, "R");
    let bears = spell(11, "Grizzly Bears", CardType::Creature, "1G");
    let shock = spell(12, "Shock", CardType::Sorcery, "R");
    let mut aura = spell(13, "Paralyze", CardType::Enchantment, "U");
    aura.subtypes.push("Aura".to_string());
    let mut counter = spell(14, "Counterspell", CardType::Instant, "UU");
    counter.effects.push(Effect::CounterSpell { target: EntityId::new(0) });
    let hand = vec![bolt, bears, shock, aura, counter, basic(15, "Forest", 1)];

    // Own main phase, empty stack: bolt, shock; no creature for the aura; nothing to counter.
    assert_eq!(castable_spells(&engine, &hand, &battlefield, true, true, true), ids(&[10, 12]));
    // Opponent's turn with a spell on the stack: instants only, and the counterspell now has a target.
    assert_eq!(castable_spells(&engine, &hand, &battlefield, false, false, false), ids(&[10, 14]));
    // With a creature on the battlefield the aura may be cast.
    let mut with_creature = battlefield.clone();
    with_creature.push(creature(20, 2));
    let mut engine2 = ManaEngine::new(EntityId::new(1));
    engine2.update(&with_creature, 3);
    assert_eq!(castable_spells(&engine2, &hand, &with_creature, true, true, true), ids(&[10, 12, 13]));
}
