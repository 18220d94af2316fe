use mtg_forge_rs::heuristic::HeuristicController;
use mtg_forge_rs::ids::EntityId;

#[test]
fn test_heuristic_controller_creation() {
    let player_id = EntityId::new(1);
    let controller = HeuristicController::new(player_id);
    assert_eq!(controller.player_id(), player_id);
    assert_eq!(controller.aggression_level(), 3);
}

#[test]
fn heuristic_controller_test_seeded_controller() {
    let player_id = EntityId::new(1);
    let controller = HeuristicController::new(player_id);
    assert_eq!(controller.player_id(), player_id);
}

#[test]
fn test_aggression_setting() {
    let player_id = EntityId::new(1);
    let mut controller = HeuristicController::new(player_id);

    controller.set_aggression(0);
    assert_eq!(controller.aggression_level(), 0);

    controller.set_aggression(6);
    assert_eq!(controller.aggression_level(), 6);

    // Test clamping
    controller.set_aggression(10);
    assert_eq!(controller.aggression_level(), 6);

    controller.set_aggression(-5);
    assert_eq!(controller.aggression_level(), 0);
}
