use mtg_forge_rs::card::SpellAbility;
use mtg_forge_rs::ids::EntityId;
use mtg_forge_rs::interactive::{ChoiceInput, InteractiveController};
use mtg_forge_rs::snapshot::SnapshotError;

#[test]
fn interactive_controller_modes() {
    let c = InteractiveController::new(EntityId::new(2));
    assert_eq!(c.player_id(), EntityId::new(2));
    assert!(!c.numeric_choices());
    let n = InteractiveController::with_numeric_choices(EntityId::new(3), true);
    assert!(n.numeric_choices());
}

#[test]
fn interactive_reads_answers() {
    assert_eq!(InteractiveController::interpret_choice(" 2 \n", 3, true, false), ChoiceInput::Choice(2));
    assert_eq!(InteractiveController::interpret_choice("3", 3, true, false), ChoiceInput::Invalid);
    assert_eq!(InteractiveController::interpret_choice("pass", 3, true, false), ChoiceInput::Pass);
    assert_eq!(InteractiveController::interpret_choice("p", 3, false, false), ChoiceInput::Invalid);
    assert_eq!(InteractiveController::interpret_choice("\n", 3, false, false), ChoiceInput::Choice(0));
    assert_eq!(InteractiveController::interpret_choice("  ", 3, true, false), ChoiceInput::Reprompt);
    assert_eq!(InteractiveController::interpret_choice("?", 3, true, true), ChoiceInput::Help);
    assert_eq!(InteractiveController::interpret_choice("?", 3, true, false), ChoiceInput::Invalid);
    assert_eq!(InteractiveController::interpret_choice("v\n", 3, true, true), ChoiceInput::ShowBattlefield);
    assert_eq!(InteractiveController::interpret_choice("g", 3, false, true), ChoiceInput::ShowGraveyard);
    assert_eq!(
        InteractiveController::invalid_choice(4, true),
        "Invalid choice. Enter 0-3 or 'p' to pass."
    );
    assert_eq!(InteractiveController::invalid_choice(1, false), "Invalid choice. Enter 0-0.");
}

#[test]
fn snapshot_error_messages() {
    assert_eq!(
        SnapshotError::Io("disk full".to_string()).message(),
        "I/O error: disk full"
    );
    assert_eq!(
        SnapshotError::InvalidState("turn".to_string()).message(),
        "Invalid snapshot state: turn"
    );
}

fn ids(v: &[u32]) -> Vec<EntityId> {
    v.iter().map(|&n| EntityId::new(n)).collect()
}

#[test]
fn attackers_read_from_indices() {
    let available = ids(&[10, 11, 12]);
    assert_eq!(InteractiveController::attackers_from_line("2 0\n", &available), ids(&[12, 10]));
    assert_eq!(InteractiveController::attackers_from_line("", &available), ids(&[]));
    assert_eq!(InteractiveController::attackers_from_line("  1  1 ", &available), ids(&[11, 11]));
    assert_eq!(InteractiveController::attackers_from_line("3 x -1 +2", &available), ids(&[12]));
}

#[test]
fn damage_order_completes_with_remaining_blockers() {
    let blockers = ids(&[5, 6, 7]);
    assert_eq!(InteractiveController::damage_order_from_line("2\n", &blockers), ids(&[7, 5, 6]));
    assert_eq!(InteractiveController::damage_order_from_line("1 0 2", &blockers), ids(&[6, 5, 7]));
    assert_eq!(InteractiveController::damage_order_from_line("9 bad", &blockers), ids(&[5, 6, 7]));
    // A single blocker is kept whatever was typed.
    assert_eq!(InteractiveController::damage_order_from_line("0 0", &ids(&[5])), ids(&[5]));
    assert_eq!(InteractiveController::complete_order(ids(&[7]), &blockers), ids(&[7, 5, 6]));
}

#[test]
fn discards_capped_then_filled() {
    let hand = ids(&[1, 2, 3, 4]);
    assert_eq!(InteractiveController::discards_from_line("3 2 1", &hand, 2), ids(&[4, 3]));
    assert_eq!(InteractiveController::discards_from_line("2", &hand, 2), ids(&[3, 1]));
    assert_eq!(InteractiveController::discards_from_line("", &hand, 3), ids(&[1, 2, 3]));
    assert_eq!(InteractiveController::discards_from_line("0 0", &hand, 3), ids(&[1, 1, 2]));
    assert_eq!(InteractiveController::fill_discards(ids(&[2]), &hand, 10), ids(&[2, 1, 3, 4]));
}

#[test]
fn add_choice_skips_repeats() {
    let mut sel = ids(&[1]);
    assert!(InteractiveController::add_choice(&mut sel, EntityId::new(2)));
    assert!(!InteractiveController::add_choice(&mut sel, EntityId::new(1)));
    assert_eq!(sel, ids(&[1, 2]));
}

#[test]
fn action_text_lines() {
    let land = SpellAbility::PlayLand { card_id: EntityId::new(1) };
    let spell = SpellAbility::CastSpell { card_id: EntityId::new(2) };
    let ability = SpellAbility::ActivateAbility { card_id: EntityId::new(3), ability_index: 0 };
    assert_eq!(InteractiveController::action_menu_line(1, land, "Forest"), "  [1] Play Forest");
    assert_eq!(InteractiveController::action_menu_line(12, spell, "Shock"), "  [12] Cast Shock");
    assert_eq!(InteractiveController::action_menu_line(0, ability, "Prodigal Sorcerer"), "  [0] Activate Prodigal Sorcerer");
    assert_eq!(InteractiveController::action_report("Alice", land, "Forest"), "  Alice played land: Forest");
    assert_eq!(InteractiveController::action_report("Bob", spell, "Shock"), "  Bob cast spell: Shock");
    assert_eq!(InteractiveController::action_report("Bob", ability, "Tim"), "  Bob activated ability: Tim");
    assert_eq!(InteractiveController::action_acknowledgement(land, "Forest"), "Playing land: Forest");
    assert_eq!(InteractiveController::action_acknowledgement(spell, "Shock"), "Casting spell: Shock");
    assert_eq!(InteractiveController::action_acknowledgement(ability, "Tim"), "Activating ability: Tim");
}

#[test]
fn action_commands_recognised() {
    assert!(InteractiveController::is_action_command("p"));
    assert!(InteractiveController::is_action_command("pass"));
    assert!(InteractiveController::is_action_command("play Forest"));
    assert!(InteractiveController::is_action_command("cast Shock"));
    assert!(InteractiveController::is_action_command("activate Tim"));
    assert!(!InteractiveController::is_action_command("play"));
    assert!(!InteractiveController::is_action_command("0"));
    assert!(!InteractiveController::is_action_command("passes"));
}
