use mtg_forge_rs::card::SpellAbility;
use mtg_forge_rs::ids::EntityId;
use mtg_forge_rs::mana::ManaCost;
use mtg_forge_rs::random_controller::RandomController;
use rand::Rng;

#[test]
fn test_random_controller_creation() {
    let player_id = EntityId::new(1);
    let controller = RandomController::new(player_id);
    assert_eq!(controller.player_id(), player_id);
}

#[test]
fn random_controller_test_seeded_controller() {
    let player_id = EntityId::new(1);
    let controller = RandomController::with_seed(player_id, 42);
    assert_eq!(controller.player_id(), player_id);
}

#[test]
fn random_controller_test_choose_spell_ability_empty() {
    let mut controller = RandomController::with_seed(EntityId::new(1), 42);
    assert_eq!(controller.choose_spell_ability_to_play(&[], false), None);
}

#[test]
fn random_controller_test_choose_spell_ability() {
    let mut controller = RandomController::with_seed(EntityId::new(1), 42);
    let abilities = vec![
        SpellAbility::PlayLand { card_id: EntityId::new(10) },
        SpellAbility::CastSpell { card_id: EntityId::new(11) },
    ];
    for _ in 0..10 {
        let passes = controller.rng.gen_bool(0.3);
        let choice = controller.choose_spell_ability_to_play(&abilities, passes);
        match choice {
            Some(a) => {
                assert!(!passes);
                assert!(abilities.contains(&a));
            }
            None => assert!(passes),
        }
    }
}

#[test]
fn random_controller_test_choose_targets() {
    let mut controller = RandomController::with_seed(EntityId::new(1), 42);
    let valid_targets = vec![EntityId::new(20), EntityId::new(21), EntityId::new(22)];
    let targets = controller.choose_targets(&valid_targets);
    assert_eq!(targets.len(), 1);
    assert!(valid_targets.contains(&targets[0]));
    assert_eq!(controller.choose_targets(&[EntityId::new(5)]), vec![EntityId::new(5)]);
    assert!(controller.choose_targets(&[]).is_empty());
}

#[test]
fn random_controller_test_choose_mana_sources() {
    let mut controller = RandomController::with_seed(EntityId::new(1), 42);
    let cost = ManaCost::from_string("2R");
    let available = vec![EntityId::new(10), EntityId::new(11), EntityId::new(12), EntityId::new(13)];
    let sources = controller.choose_mana_sources_to_pay(&cost, &available);
    assert_eq!(sources.len(), 3);
    for s in &sources {
        assert!(available.contains(s));
    }
    let mut sorted = sources.clone();
    sorted.sort();
    sorted.dedup();
    assert_eq!(sorted.len(), 3);
}

#[test]
fn random_controller_test_choose_attackers() {
    let mut controller = RandomController::with_seed(EntityId::new(1), 42);
    let creatures = vec![EntityId::new(30), EntityId::new(31), EntityId::new(32)];
    let coins: Vec<bool> = (0..creatures.len()).map(|_| controller.rng.gen_bool(0.5)).collect();
    let attackers = controller.choose_attackers(&creatures, &coins);
    let expected: Vec<EntityId> = creatures
        .iter()
        .zip(coins.iter())
        .filter(|(_, c)| **c)
        .map(|(id, _)| *id)
        .collect();
    assert_eq!(attackers, expected);
}

#[test]
fn random_controller_test_choose_cards_to_discard() {
    let mut controller = RandomController::with_seed(EntityId::new(1), 42);
    let hand = vec![EntityId::new(60), EntityId::new(61), EntityId::new(62), EntityId::new(63)];
    let discards = controller.choose_cards_to_discard(&hand, 2);
    assert_eq!(discards.len(), 2);
    for d in &discards {
        assert!(hand.contains(d));
    }
    assert_ne!(discards[0], discards[1]);
    assert_eq!(controller.choose_cards_to_discard(&hand, 10).len(), 4);
}

#[test]
fn random_controller_blocks_and_orders() {
    let mut controller = RandomController::with_seed(EntityId::new(1), 7);
    let attackers = vec![EntityId::new(50), EntityId::new(51)];
    assert_eq!(controller.choose_block_for(EntityId::new(40), &attackers, false), None);
    assert_eq!(controller.choose_block_for(EntityId::new(40), &[], true), None);
    let (b, a) = controller.choose_block_for(EntityId::new(40), &attackers, true).unwrap();
    assert_eq!(b, EntityId::new(40));
    assert!(attackers.contains(&a));
    let blockers = vec![EntityId::new(1), EntityId::new(2), EntityId::new(3)];
    let mut order = controller.choose_damage_assignment_order(EntityId::new(50), &blockers);
    order.sort();
    assert_eq!(order, blockers);
}

#[test]
fn random_controller_is_repeatable_with_a_seed() {
    let hand = vec![EntityId::new(1), EntityId::new(2), EntityId::new(3), EntityId::new(4), EntityId::new(5)];
    let mut a = RandomController::with_seed(EntityId::new(1), 99);
    let mut b = RandomController::with_seed(EntityId::new(1), 99);
    assert_eq!(a.choose_cards_to_discard(&hand, 3), b.choose_cards_to_discard(&hand, 3));
}
