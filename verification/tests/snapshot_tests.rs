use mtg_forge_rs::card::SpellAbility;
use mtg_forge_rs::ids::EntityId;
use mtg_forge_rs::replay_controller::{ReplayChoice, ReplayController};
use mtg_forge_rs::game_state::GameState;
use mtg_forge_rs::snapshot::{extract_replay_choices, extract_replay_choices_for_player, ChoicePoint, GameSnapshot};

#[test]
fn test_snapshot_choice_tracking() {
    // Test the choice tracking logic without a full GameState
    let choices = [
        ChoicePoint { player_id: EntityId::new(0), choice_id: 1, choice: None },
        ChoicePoint { player_id: EntityId::new(0), choice_id: 2, choice: None },
    ];

    assert_eq!(choices.len(), 2);
    assert!(!choices.is_empty());
    assert!(extract_replay_choices(&choices).is_empty());
}

fn log() -> Vec<ChoicePoint> {
    let p1 = EntityId::new(1);
    let p2 = EntityId::new(2);
    vec![
        ChoicePoint {
            player_id: p1,
            choice_id: 1,
            choice: Some(ReplayChoice::SpellAbility(Some(SpellAbility::PlayLand { card_id: EntityId::new(10) }))),
        },
        ChoicePoint { player_id: p2, choice_id: 2, choice: Some(ReplayChoice::SpellAbility(None)) },
        ChoicePoint { player_id: p1, choice_id: 3, choice: None },
        ChoicePoint { player_id: p1, choice_id: 4, choice: Some(ReplayChoice::Attackers(vec![EntityId::new(11)])) },
    ]
}

#[test]
fn extracts_every_recorded_choice_in_order() {
    let all = extract_replay_choices(&log());
    assert_eq!(all.len(), 3);
    let mut r = ReplayController::new(EntityId::new(1), all);
    assert_eq!(r.replay_spell_ability(), Some(Some(SpellAbility::PlayLand { card_id: EntityId::new(10) })));
    assert_eq!(r.replay_spell_ability(), Some(None));
    assert_eq!(r.replay_attackers(), Some(vec![EntityId::new(11)]));
    assert!(!r.has_replay_choice());
}

#[test]
fn extracts_one_players_choices() {
    let mine = extract_replay_choices_for_player(&log(), EntityId::new(1));
    assert_eq!(mine.len(), 2);
    let mut r = ReplayController::new(EntityId::new(1), mine);
    assert_eq!(r.replay_spell_ability(), Some(Some(SpellAbility::PlayLand { card_id: EntityId::new(10) })));
    assert_eq!(r.replay_attackers(), Some(vec![EntityId::new(11)]));
    let theirs = extract_replay_choices_for_player(&log(), EntityId::new(2));
    assert_eq!(theirs.len(), 1);
    assert!(extract_replay_choices_for_player(&log(), EntityId::new(3)).is_empty());
}

#[test]
fn snapshot_holds_game_and_choices() {
    let snap = GameSnapshot::new(GameState::new_two_player(20), 3, log());
    assert_eq!(snap.turn_number, 3);
    assert_eq!(snap.choice_count(), 4);
    assert!(snap.has_intra_turn_state());
    assert_eq!(snap.extract_replay_choices().len(), 3);
    assert_eq!(snap.extract_replay_choices_for_player(EntityId::new(2)).len(), 1);
    let empty = GameSnapshot::with_controller_state(GameState::new_two_player(20), 1, vec![], None, None);
    assert!(!empty.has_intra_turn_state());
    assert_eq!(empty.choice_count(), 0);
}
