use mtg_forge_rs::ids::EntityId;
use mtg_forge_rs::random_controller_v2::RandomControllerV2;
use rand::rngs::StdRng;
use rand::seq::SliceRandom;
use rand::{Rng, SeedableRng};

#[test]
fn test_random_controller_v2_creation() {
    let player_id = EntityId::new(1);
    let controller = RandomControllerV2::new(player_id);
    assert_eq!(controller.player_id(), player_id);
}

#[test]
fn test_seeded_controller_v2() {
    let player_id = EntityId::new(1);
    let _rng = StdRng::seed_from_u64(42);
    let controller = RandomControllerV2::new(player_id);
    assert_eq!(controller.player_id(), player_id);
}

#[test]
fn test_choose_land_to_play_empty() {
    let player_id = EntityId::new(1);
    let mut controller = RandomControllerV2::new(player_id);

    // With no lands, should return None
    let land = controller.choose_land_to_play(&[], 0);
    assert_eq!(land, None);
}

#[test]
fn random_controller_v2_test_choose_land_to_play() {
    let player_id = EntityId::new(1);
    let mut controller = RandomControllerV2::new(player_id);
    let mut rng = StdRng::seed_from_u64(42);

    let lands = vec![EntityId::new(10), EntityId::new(11), EntityId::new(12)];
    let index = rng.gen_range(0..lands.len());
    let chosen = controller.choose_land_to_play(&lands, index);

    // Should choose one of the available lands
    assert!(chosen.is_some());
    assert!(lands.contains(&chosen.unwrap()));
    assert_eq!(chosen, Some(lands[index]));
}

#[test]
fn test_seeded_determinism_v2() {
    let player_id = EntityId::new(1);
    let mut controller1 = RandomControllerV2::new(player_id);
    let mut controller2 = RandomControllerV2::new(player_id);
    let mut rng1 = StdRng::seed_from_u64(42);
    let mut rng2 = StdRng::seed_from_u64(42);

    let lands = vec![EntityId::new(10), EntityId::new(11), EntityId::new(12)];

    // Same seed should produce same choices
    let choice1 = controller1.choose_land_to_play(&lands, rng1.gen_range(0..lands.len()));
    let choice2 = controller2.choose_land_to_play(&lands, rng2.gen_range(0..lands.len()));

    assert_eq!(choice1, choice2);
}

#[test]
fn random_controller_v2_test_choose_attackers() {
    let player_id = EntityId::new(1);
    let mut controller = RandomControllerV2::new(player_id);
    let mut rng = StdRng::seed_from_u64(42);

    let creatures = vec![EntityId::new(20), EntityId::new(21), EntityId::new(22)];
    let coins: Vec<bool> = creatures.iter().map(|_| rng.gen_bool(0.5)).collect();
    let attackers = controller.choose_attackers(&creatures, &coins);

    // All attackers should be from the available creatures
    for attacker in attackers.iter() {
        assert!(creatures.contains(attacker));
    }
}

#[test]
fn random_controller_v2_test_choose_cards_to_discard() {
    let player_id = EntityId::new(1);
    let mut controller = RandomControllerV2::new(player_id);
    let mut rng = StdRng::seed_from_u64(42);

    let hand = vec![EntityId::new(30), EntityId::new(31), EntityId::new(32), EntityId::new(33)];
    let mut shuffled = hand.clone();
    shuffled.shuffle(&mut rng);

    let discards = controller.choose_cards_to_discard(&shuffled, 2);

    // Should discard exactly 2 cards
    assert_eq!(discards.len(), 2);

    // All discarded cards should be from hand
    for card in discards.iter() {
        assert!(hand.contains(card));
    }
}

#[test]
fn v2_choices_follow_the_draws() {
    let id = EntityId::new;
    let mut c = RandomControllerV2::new(id(1));
    assert_eq!(c.choose_spell_to_cast(&[id(4), id(5)], 1), Some((id(5), vec![])));
    assert_eq!(c.choose_spell_to_cast(&[], 0), None);
    assert_eq!(c.choose_card_to_tap_for_mana(&[id(6), id(7)], 0), Some(id(6)));
    assert_eq!(c.choose_attackers(&[id(1), id(2), id(3)], &[true, false, true]), vec![id(1), id(3)]);
    assert_eq!(
        c.choose_blockers(&[id(8), id(9), id(10)], &[id(1), id(3)], &[true, false, true], &[1, 0, 0]),
        vec![(id(8), id(3)), (id(10), id(1))]
    );
    assert!(c.choose_blockers(&[id(8)], &[], &[true], &[5]).is_empty());
    assert_eq!(c.choose_cards_to_discard(&[id(3), id(1)], 5), vec![id(3), id(1)]);
}
