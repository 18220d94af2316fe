use mtg_forge_rs::card::SpellAbility;
use mtg_forge_rs::controller::PlayerAction;
use mtg_forge_rs::fixed_script_controller::FixedScriptController;
use mtg_forge_rs::ids::EntityId;
use mtg_forge_rs::mana::ManaCost;
use mtg_forge_rs::scripted_controller::ScriptedController;
use mtg_forge_rs::zero_controller::ZeroController;
use mtg_forge_rs::zero_controller_v2::ZeroControllerV2;

#[test]
fn test_script_controller_creation() {
    let player_id = EntityId::new(1);
    let controller = FixedScriptController::new(player_id, vec![0, 1, 2]);
    assert_eq!(controller.player_id(), player_id);
}

#[test]
fn test_next_choice_sequence() {
    let player_id = EntityId::new(1);
    let mut controller = FixedScriptController::new(player_id, vec![1, 2, 3]);

    // Should return script values in order
    assert_eq!(controller.next_choice(), 1);
    assert_eq!(controller.next_choice(), 2);
    assert_eq!(controller.next_choice(), 3);

    // After script is exhausted, should return 0
    assert_eq!(controller.next_choice(), 0);
    assert_eq!(controller.next_choice(), 0);
}

fn two_abilities() -> Vec<SpellAbility> {
    vec![
        SpellAbility::PlayLand {
            card_id: EntityId::new(10),
        },
        SpellAbility::CastSpell {
            card_id: EntityId::new(11),
        },
    ]
}

#[test]
fn fixed_script_controller_test_choose_spell_ability() {
    let player_id = EntityId::new(1);
    let mut controller = FixedScriptController::new(player_id, vec![1, 0]);
    let abilities = two_abilities();

    // First choice: index 1 → abilities[0] (first ability)
    let choice1 = controller.choose_spell_ability_to_play(&abilities);
    assert_eq!(choice1, Some(abilities[0].clone()));

    // Second choice: index 0 → None (pass priority)
    let choice2 = controller.choose_spell_ability_to_play(&abilities);
    assert_eq!(choice2, None);
}

#[test]
fn test_choose_spell_ability_pass() {
    let player_id = EntityId::new(1);
    // Choice index 5 is out of bounds for 2 abilities, should pass
    let mut controller = FixedScriptController::new(player_id, vec![5]);
    let abilities = two_abilities();

    let choice = controller.choose_spell_ability_to_play(&abilities);
    assert_eq!(choice, None);
}

#[test]
fn fixed_script_controller_test_choose_targets() {
    let player_id = EntityId::new(1);
    let mut controller = FixedScriptController::new(player_id, vec![2, 0]);
    let valid_targets = vec![EntityId::new(20), EntityId::new(21), EntityId::new(22)];

    // First choice: index 2 (third target)
    let targets1 = controller.choose_targets(&valid_targets);
    assert_eq!(targets1.len(), 1);
    assert_eq!(targets1[0], valid_targets[2]);

    // Second choice: index 0 (first target)
    let targets2 = controller.choose_targets(&valid_targets);
    assert_eq!(targets2.len(), 1);
    assert_eq!(targets2[0], valid_targets[0]);
}

#[test]
fn fixed_script_controller_test_choose_attackers() {
    let player_id = EntityId::new(1);
    // Choose 2 attackers, then 0 attackers
    let mut controller = FixedScriptController::new(player_id, vec![2, 0]);
    let creatures = vec![EntityId::new(20), EntityId::new(21), EntityId::new(22)];

    let attackers1 = controller.choose_attackers(&creatures);
    assert_eq!(attackers1.len(), 2);
    assert_eq!(attackers1[0], creatures[0]);
    assert_eq!(attackers1[1], creatures[1]);

    let attackers2 = controller.choose_attackers(&creatures);
    assert_eq!(attackers2.len(), 0);
}

#[test]
fn test_exhausted_script_defaults_to_zero() {
    let player_id = EntityId::new(1);
    let mut controller = FixedScriptController::new(player_id, vec![1]); // Only one choice
    let abilities = two_abilities();

    let choice1 = controller.choose_spell_ability_to_play(&abilities);
    assert_eq!(choice1, Some(abilities[0].clone()));

    // Script exhausted, should default to index 0 → pass priority
    let choice2 = controller.choose_spell_ability_to_play(&abilities);
    assert_eq!(choice2, None);

    // Should keep returning None (pass priority)
    let choice3 = controller.choose_spell_ability_to_play(&abilities);
    assert_eq!(choice3, None);
}

#[test]
fn fixed_script_single_target_takes_no_choice() {
    let mut controller = FixedScriptController::new(EntityId::new(1), vec![7]);
    let only = vec![EntityId::new(30)];
    assert_eq!(controller.choose_targets(&only), only);
    assert_eq!(controller.current_index, 0);
    // A large choice is clamped to the last target.
    let many = vec![EntityId::new(31), EntityId::new(32)];
    assert_eq!(controller.choose_targets(&many), vec![EntityId::new(32)]);
    assert_eq!(controller.current_index, 1);
}

#[test]
fn fixed_script_blockers_all_block_first_attacker() {
    let mut controller = FixedScriptController::new(EntityId::new(1), vec![5]);
    let blockers = vec![EntityId::new(40), EntityId::new(41)];
    let attackers = vec![EntityId::new(50), EntityId::new(51)];
    let blocks = controller.choose_blockers(&blockers, &attackers);
    assert_eq!(
        blocks,
        vec![(EntityId::new(40), EntityId::new(50)), (EntityId::new(41), EntityId::new(50))]
    );
    let cost = ManaCost::from_string("1G");
    let sources = vec![EntityId::new(1), EntityId::new(2), EntityId::new(3)];
    assert_eq!(
        controller.choose_mana_sources_to_pay(&cost, &sources),
        vec![EntityId::new(1), EntityId::new(2)]
    );
}

#[test]
fn test_scripted_controller() {
    let player_id = EntityId::new(0);
    let card_id = EntityId::new(10);
    let actions = vec![
        PlayerAction::PlayLand(card_id),
        PlayerAction::TapForMana(card_id),
        PlayerAction::PassPriority,
    ];

    let mut controller = ScriptedController::new(player_id, actions);

    let action1 = controller.choose_action(&[]);
    assert_eq!(action1, Some(PlayerAction::PlayLand(card_id)));

    let action2 = controller.choose_action(&[]);
    assert_eq!(action2, Some(PlayerAction::TapForMana(card_id)));

    let action3 = controller.choose_action(&[]);
    assert_eq!(action3, Some(PlayerAction::PassPriority));

    let action4 = controller.choose_action(&[]);
    assert_eq!(action4, None);
}

#[test]
fn scripted_controller_copies_targets() {
    let targets = vec![EntityId::new(3), EntityId::new(4)];
    let action = PlayerAction::CastSpell {
        card_id: EntityId::new(2),
        targets: targets.clone(),
    };
    let mut controller = ScriptedController::new(EntityId::new(0), vec![action.clone()]);
    assert_eq!(controller.choose_action(&[]), Some(action));
}

#[test]
fn test_zero_controller_creation() {
    let player_id = EntityId::new(1);
    let controller = ZeroController::new(player_id);
    assert_eq!(controller.player_id(), player_id);
}

#[test]
fn zero_controller_test_choose_spell_ability_empty() {
    let mut controller = ZeroController::new(EntityId::new(1));
    let choice = controller.choose_spell_ability_to_play(&[]);
    assert_eq!(choice, None);
}

#[test]
fn test_choose_spell_ability_land() {
    let mut controller = ZeroController::new(EntityId::new(1));
    let abilities = two_abilities();
    let chosen = controller.choose_spell_ability_to_play(&abilities);
    assert_eq!(
        chosen,
        Some(SpellAbility::PlayLand {
            card_id: EntityId::new(10)
        })
    );
}

#[test]
fn zero_controller_test_choose_targets() {
    let mut controller = ZeroController::new(EntityId::new(1));
    let spell_id = EntityId::new(100);
    let valid_targets = vec![EntityId::new(20), EntityId::new(21), EntityId::new(22)];
    let targets = controller.choose_targets(spell_id, &valid_targets);
    assert_eq!(targets.len(), 1);
    assert_eq!(targets[0], EntityId::new(20));
}

#[test]
fn test_choose_targets_empty() {
    let mut controller = ZeroController::new(EntityId::new(1));
    let spell_id = EntityId::new(100);
    let targets = controller.choose_targets(spell_id, &[]);
    assert_eq!(targets.len(), 0);
}

#[test]
fn zero_controller_test_choose_mana_sources() {
    let mut controller = ZeroController::new(EntityId::new(1));
    let cost = ManaCost::from_string("2RR"); // CMC = 4
    let available = vec![
        EntityId::new(10),
        EntityId::new(11),
        EntityId::new(12),
        EntityId::new(13),
        EntityId::new(14),
    ];
    let sources = controller.choose_mana_sources_to_pay(&cost, &available);
    assert_eq!(sources.len(), 4);
    assert_eq!(sources[0], EntityId::new(10));
    assert_eq!(sources[1], EntityId::new(11));
    assert_eq!(sources[2], EntityId::new(12));
    assert_eq!(sources[3], EntityId::new(13));
}

#[test]
fn zero_controller_test_choose_attackers() {
    let mut controller = ZeroController::new(EntityId::new(1));
    let creatures = vec![EntityId::new(30), EntityId::new(31), EntityId::new(32)];
    let attackers = controller.choose_attackers(&creatures);
    assert_eq!(attackers.len(), 3);
    assert_eq!(attackers[0], EntityId::new(30));
    assert_eq!(attackers[1], EntityId::new(31));
    assert_eq!(attackers[2], EntityId::new(32));
}

#[test]
fn zero_controller_test_choose_blockers() {
    let mut controller = ZeroController::new(EntityId::new(1));
    let blockers = vec![EntityId::new(40), EntityId::new(41)];
    let attackers = vec![EntityId::new(50), EntityId::new(51), EntityId::new(52)];
    let blocks = controller.choose_blockers(&blockers, &attackers);
    assert_eq!(blocks.len(), 2);
    assert_eq!(blocks[0], (EntityId::new(40), EntityId::new(50)));
    assert_eq!(blocks[1], (EntityId::new(41), EntityId::new(51)));
}

#[test]
fn zero_controller_test_choose_cards_to_discard() {
    let mut controller = ZeroController::new(EntityId::new(1));
    let hand = vec![
        EntityId::new(60),
        EntityId::new(61),
        EntityId::new(62),
        EntityId::new(63),
    ];
    let discards = controller.choose_cards_to_discard(&hand, 2);
    assert_eq!(discards.len(), 2);
    assert_eq!(discards[0], EntityId::new(60));
    assert_eq!(discards[1], EntityId::new(61));
}

#[test]
fn test_zero_controller_v2_creation() {
    let player_id = EntityId::new(1);
    let controller = ZeroControllerV2::new(player_id);
    assert_eq!(controller.player_id(), player_id);
}

#[test]
fn zero_controller_v2_test_choose_land_to_play() {
    let mut controller = ZeroControllerV2::new(EntityId::new(1));
    let lands = vec![EntityId::new(10), EntityId::new(11), EntityId::new(12)];
    let chosen = controller.choose_land_to_play(&lands);
    assert_eq!(chosen, Some(EntityId::new(10)));
}

#[test]
fn test_choose_land_empty() {
    let mut controller = ZeroControllerV2::new(EntityId::new(1));
    let chosen = controller.choose_land_to_play(&[]);
    assert_eq!(chosen, None);
}

#[test]
fn test_choose_spell_to_cast() {
    let mut controller = ZeroControllerV2::new(EntityId::new(1));
    let spells = vec![EntityId::new(20), EntityId::new(21), EntityId::new(22)];
    let chosen = controller.choose_spell_to_cast(&spells);
    assert!(chosen.is_some());
    let (spell_id, targets) = chosen.unwrap();
    assert_eq!(spell_id, EntityId::new(20));
    assert!(targets.is_empty());
}

#[test]
fn zero_controller_v2_test_choose_attackers() {
    let mut controller = ZeroControllerV2::new(EntityId::new(1));
    let creatures = vec![EntityId::new(30), EntityId::new(31), EntityId::new(32)];
    let attackers = controller.choose_attackers(&creatures);
    assert_eq!(attackers.len(), 3);
    assert_eq!(attackers[0], EntityId::new(30));
    assert_eq!(attackers[1], EntityId::new(31));
    assert_eq!(attackers[2], EntityId::new(32));
}

#[test]
fn zero_controller_v2_test_choose_blockers() {
    let mut controller = ZeroControllerV2::new(EntityId::new(1));
    let blockers = vec![EntityId::new(40), EntityId::new(41)];
    let attackers = vec![EntityId::new(50), EntityId::new(51), EntityId::new(52)];
    let blocks = controller.choose_blockers(&blockers, &attackers);
    assert_eq!(blocks.len(), 2);
    assert_eq!(blocks[0], (EntityId::new(40), EntityId::new(50)));
    assert_eq!(blocks[1], (EntityId::new(41), EntityId::new(51)));
}

#[test]
fn zero_controller_v2_test_choose_cards_to_discard() {
    let mut controller = ZeroControllerV2::new(EntityId::new(1));
    let hand = vec![
        EntityId::new(60),
        EntityId::new(61),
        EntityId::new(62),
        EntityId::new(63),
    ];
    let discards = controller.choose_cards_to_discard(&hand, 2);
    assert_eq!(discards.len(), 2);
    assert_eq!(discards[0], EntityId::new(60));
    assert_eq!(discards[1], EntityId::new(61));
}

#[test]
fn zero_controller_v2_test_tap_for_mana() {
    let mut controller = ZeroControllerV2::new(EntityId::new(1));
    let lands = vec![EntityId::new(70), EntityId::new(71)];
    let choice = controller.choose_card_to_tap_for_mana(&lands);
    assert_eq!(choice, None);
}

#[test]
fn test_wants_to_pass_priority() {
    let mut controller = ZeroControllerV2::new(EntityId::new(1));
    assert!(controller.wants_to_pass_priority());
}

#[test]
fn fixed_script_position_is_current_index() {
    let mut c = FixedScriptController::new(EntityId::new(1), vec![2, 0]);
    assert_eq!(c.current_position(), 0);
    c.next_choice();
    assert_eq!(c.current_position(), 1);
    assert_eq!(c.current_position(), c.current_index);
    c.current_index = 2;
    assert_eq!(c.current_position(), 2);
    assert_eq!(c.next_choice(), 0);
}
