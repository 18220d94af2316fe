use mtg_forge_rs::card::{Card, CardType, Keyword};
use mtg_forge_rs::combat::CombatState;
use mtg_forge_rs::declarations::{declare_attacker, declare_blocker};
use mtg_forge_rs::error::MtgError;
use mtg_forge_rs::ids::EntityId;

const TURN: u32 = 1;

fn players() -> Vec<EntityId> {
    vec![EntityId::new(0), EntityId::new(1)]
}

fn creature(id: u32, name: &str, controller: EntityId, power: i8, toughness: i8) -> Card {
    let mut c = Card::new(EntityId::new(id), name.to_string(), controller);
    c.types.push(CardType::Creature);
    c.power = Some(power);
    c.toughness = Some(toughness);
    c.controller = controller;
    c
}

fn message(r: Result<(), MtgError>) -> String {
    match r {
        Err(MtgError::InvalidAction(m)) => m,
        other => panic!("expected an invalid action, got {:?}", other),
    }
}

#[test]
fn actions_test_declare_attacker() {
    let p1_id = players()[0];
    let mut combat = CombatState::new();
    let mut creature = creature(3, "Grizzly Bears", p1_id, 2, 2);
    let battlefield = vec![creature.id];

    let result = declare_attacker(&mut combat, &mut creature, p1_id, &battlefield, TURN, &players());
    assert!(result.is_ok(), "Failed to declare attacker: {result:?}");

    // Check creature is attacking
    assert!(combat.is_attacking(EntityId::new(3)));
    assert_eq!(combat.get_defending_player(EntityId::new(3)), Some(players()[1]));

    // Check creature is tapped
    assert!(creature.tapped);
}

#[test]
fn actions_test_declare_blocker() {
    let p1_id = players()[0];
    let p2_id = players()[1];
    let mut combat = CombatState::new();
    let attacker = creature(3, "Goblin", p1_id, 2, 1);
    combat.declare_attacker(attacker.id, p2_id);
    let blocker = creature(4, "Wall", p2_id, 0, 3);
    let battlefield = vec![attacker.id, blocker.id];

    let result = declare_blocker(&mut combat, &blocker, p2_id, &battlefield, vec![attacker.id]);
    assert!(result.is_ok(), "Failed to declare blocker: {result:?}");

    // Check blocker is blocking
    assert!(combat.is_blocking(blocker.id));
    assert!(combat.is_blocked(attacker.id));

    let blockers = combat.get_blockers(attacker.id);
    assert_eq!(blockers.len(), 1);
    assert!(blockers.contains(&blocker.id));
}

#[test]
fn test_summoning_sickness_blocks_attack() {
    let p1_id = players()[0];
    let mut combat = CombatState::new();
    let mut creature = creature(2, "Grizzly Bears", p1_id, 2, 2);
    creature.turn_entered_battlefield = Some(TURN);
    let battlefield = vec![creature.id];

    let result = declare_attacker(&mut combat, &mut creature, p1_id, &battlefield, TURN, &players());
    assert!(message(result).contains("summoning sickness"));
    assert!(!combat.is_attacking(EntityId::new(2)));
    assert!(!creature.tapped);
}

#[test]
fn test_summoning_sickness_allows_attack_next_turn() {
    let p1_id = players()[0];
    let mut combat = CombatState::new();
    let mut creature = creature(2, "Grizzly Bears", p1_id, 2, 2);
    creature.turn_entered_battlefield = Some(TURN - 1);
    let battlefield = vec![creature.id];

    let result = declare_attacker(&mut combat, &mut creature, p1_id, &battlefield, TURN, &players());
    assert!(result.is_ok());
    assert!(combat.is_attacking(EntityId::new(2)));
}

#[test]
fn test_haste_bypasses_summoning_sickness() {
    let p1_id = players()[0];
    let mut combat = CombatState::new();
    let mut creature = creature(2, "Lightning Elemental", p1_id, 4, 1);
    creature.keywords.push(Keyword::Haste);
    creature.turn_entered_battlefield = Some(TURN);
    let battlefield = vec![creature.id];

    let result = declare_attacker(&mut combat, &mut creature, p1_id, &battlefield, TURN, &players());
    assert!(result.is_ok());
    assert!(combat.is_attacking(EntityId::new(2)));
}

#[test]
fn test_vigilance_creature_stays_untapped() {
    let p1_id = players()[0];
    let mut combat = CombatState::new();
    let mut creature = creature(2, "Serra Angel", p1_id, 4, 4);
    creature.keywords.push(Keyword::Vigilance);
    creature.turn_entered_battlefield = Some(TURN - 1);
    let battlefield = vec![creature.id];

    let result = declare_attacker(&mut combat, &mut creature, p1_id, &battlefield, TURN, &players());
    assert!(result.is_ok());
    assert!(combat.is_attacking(EntityId::new(2)));
    assert!(!creature.tapped, "Creature with vigilance should not be tapped after attacking");
}

#[test]
fn test_non_vigilance_creature_gets_tapped() {
    let p1_id = players()[0];
    let mut combat = CombatState::new();
    let mut creature = creature(2, "Grizzly Bears", p1_id, 2, 2);
    creature.turn_entered_battlefield = Some(TURN - 1);
    let battlefield = vec![creature.id];

    let result = declare_attacker(&mut combat, &mut creature, p1_id, &battlefield, TURN, &players());
    assert!(result.is_ok());
    assert!(combat.is_attacking(EntityId::new(2)));
    assert!(creature.tapped, "Creature without vigilance should be tapped after attacking");
}

#[test]
fn attack_refusals_in_order() {
    let p1 = players()[0];
    let p2 = players()[1];
    let mut combat = CombatState::new();
    let mut land = Card::new(EntityId::new(5), "Forest".to_string(), p1);
    land.types.push(CardType::Land);
    assert_eq!(
        message(declare_attacker(&mut combat, &mut land, p1, &[EntityId::new(5)], TURN, &players())),
        "Only creatures can attack"
    );
    let mut theirs = creature(6, "Ogre", p2, 3, 3);
    assert_eq!(
        message(declare_attacker(&mut combat, &mut theirs, p1, &[EntityId::new(6)], TURN, &players())),
        "Can't attack with opponent's creatures"
    );
    let mut elsewhere = creature(7, "Bear", p1, 2, 2);
    assert_eq!(
        message(declare_attacker(&mut combat, &mut elsewhere, p1, &[], TURN, &players())),
        "Creature must be on battlefield to attack"
    );
    let mut tapped = creature(8, "Bear", p1, 2, 2);
    tapped.tapped = true;
    assert_eq!(
        message(declare_attacker(&mut combat, &mut tapped, p1, &[EntityId::new(8)], TURN, &players())),
        "Creature is tapped and can't attack"
    );
    let mut alone = creature(9, "Bear", p1, 2, 2);
    assert_eq!(
        message(declare_attacker(&mut combat, &mut alone, p1, &[EntityId::new(9)], TURN, &[p1])),
        "No opponent found"
    );
    assert!(combat.get_attackers().is_empty());
}

#[test]
fn block_refusals_in_order() {
    let p1 = players()[0];
    let p2 = players()[1];
    let mut combat = CombatState::new();
    combat.declare_attacker(EntityId::new(3), p2);
    combat.declare_attacker(EntityId::new(4), p2);
    let wall = creature(10, "Wall", p2, 0, 4);
    let bf = vec![EntityId::new(3), EntityId::new(4), EntityId::new(10)];
    let mut land = Card::new(EntityId::new(11), "Island".to_string(), p2);
    land.types.push(CardType::Land);
    assert_eq!(message(declare_blocker(&mut combat, &land, p2, &bf, vec![EntityId::new(3)])), "Only creatures can block");
    assert_eq!(
        message(declare_blocker(&mut combat, &wall, p1, &bf, vec![EntityId::new(3)])),
        "Can't block with opponent's creatures"
    );
    assert_eq!(
        message(declare_blocker(&mut combat, &wall, p2, &[], vec![EntityId::new(3)])),
        "Creature must be on battlefield to block"
    );
    let mut tapped = creature(10, "Wall", p2, 0, 4);
    tapped.tapped = true;
    assert_eq!(
        message(declare_blocker(&mut combat, &tapped, p2, &bf, vec![EntityId::new(3)])),
        "Creature is tapped and can't block"
    );
    assert_eq!(
        message(declare_blocker(&mut combat, &wall, p2, &bf, vec![EntityId::new(3), EntityId::new(12)])),
        "Card 12 is not attacking"
    );
    assert_eq!(
        message(declare_blocker(&mut combat, &wall, p2, &bf, vec![EntityId::new(3), EntityId::new(4)])),
        "Creature can only block one attacker"
    );
    assert!(!combat.is_blocking(EntityId::new(10)));
}
