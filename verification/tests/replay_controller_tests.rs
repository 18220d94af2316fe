use mtg_forge_rs::card::SpellAbility;
use mtg_forge_rs::ids::EntityId;
use mtg_forge_rs::replay_controller::{ReplayChoice, ReplayController};

#[test]
fn test_replay_controller_exhausts_choices() {
    let player_id = EntityId::new(1);

    let replay_choices = vec![
        ReplayChoice::SpellAbility(Some(SpellAbility::PlayLand { card_id: EntityId::new(10) })),
        ReplayChoice::SpellAbility(None), // Pass priority
    ];

    let mut replay = ReplayController::new(player_id, replay_choices);

    // First call should return the replayed choice
    assert!(replay.has_replay_choice());
    let choice1 = replay.replay_spell_ability().unwrap();
    assert!(choice1.is_some());

    // Second call should return the second replayed choice
    assert!(replay.has_replay_choice());
    let choice2 = replay.replay_spell_ability().unwrap();
    assert!(choice2.is_none()); // Second choice was None (pass priority)

    // After exhausting replay choices, the wrapped controller decides
    assert!(!replay.has_replay_choice());
    assert!(replay.replay_spell_ability().is_none());
}

#[test]
fn test_replay_controller_delegates_after_exhaustion() {
    let player_id = EntityId::new(1);

    // Empty replay choices - should immediately delegate
    let replay_choices = vec![];

    let replay = ReplayController::new(player_id, replay_choices);
    assert!(!replay.has_replay_choice());
}

#[test]
fn replay_hands_out_each_kind_in_order() {
    let id = EntityId::new;
    let choices = vec![
        ReplayChoice::Targets(vec![id(3)]),
        ReplayChoice::ManaSources(vec![id(4), id(5)]),
        ReplayChoice::Attackers(vec![id(6)]),
        ReplayChoice::Blockers(vec![(id(7), id(6))]),
        ReplayChoice::DamageOrder(vec![id(8), id(9)]),
        ReplayChoice::Discard(vec![id(2)]),
    ];
    let mut r = ReplayController::new(id(1), choices);
    assert_eq!(r.player_id(), id(1));
    assert_eq!(r.replay_targets(), Some(vec![id(3)]));
    assert_eq!(r.replay_mana_sources(), Some(vec![id(4), id(5)]));
    assert_eq!(r.replay_attackers(), Some(vec![id(6)]));
    assert_eq!(r.replay_blockers(), Some(vec![(id(7), id(6))]));
    assert_eq!(r.replay_damage_order(), Some(vec![id(8), id(9)]));
    assert_eq!(r.replay_discard(), Some(vec![id(2)]));
    assert!(!r.has_replay_choice());
    assert_eq!(r.replay_targets(), None);
}

#[test]
fn replay_of_another_kind_leaves_the_choice_pending() {
    let id = EntityId::new;
    let mut r = ReplayController::new(id(1), vec![ReplayChoice::Attackers(vec![id(6)])]);
    assert_eq!(r.replay_targets(), None);
    assert_eq!(r.replay_spell_ability(), None);
    assert!(r.has_replay_choice());
    assert_eq!(r.replay_attackers(), Some(vec![id(6)]));
    assert!(!r.has_replay_choice());
}
