use mtg_forge_rs::card::{ActivatedAbility, Card, CardType, Cost, Effect};
use mtg_forge_rs::evaluator::{GameStateEvaluator, GameSummary, Score};
use mtg_forge_rs::ids::{CardId, PlayerId};
use mtg_forge_rs::mana::ManaCost;

#[test]
fn test_score_creation() {
    let score = Score::new(100);
    assert_eq!(score.value, 100);
    assert_eq!(score.summon_sick_value, 100);

    let score2 = Score::with_summon_sick(150, 100);
    assert_eq!(score2.value, 150);
    assert_eq!(score2.summon_sick_value, 100);
}

#[test]
fn test_win_loss_scores() {
    assert_eq!(Score::win().value, i32::MAX);
    assert_eq!(Score::loss().value, i32::MIN);
}

#[test]
fn test_mana_base_evaluation() {
    let player_id = PlayerId::new(0);
    let evaluator = GameStateEvaluator::new(player_id);

    // Evaluate mana base (empty battlefield should give 0)
    let battlefield: Vec<Card> = Vec::new();
    let mana_value = evaluator.evaluate_mana_base_simplified(&battlefield, player_id);

    // Empty battlefield should have 0 mana base value
    assert_eq!(mana_value, 0);
}

#[test]
fn test_land_evaluation() {
    let player_id = PlayerId::new(0);

    // Test basic land (Forest: T: Add G)
    let mut forest = Card::new(CardId::new(1), "Forest".to_string(), player_id);
    forest.types.push(CardType::Land);

    let mut green_mana = ManaCost::new();
    green_mana.green = 1;
    let mana_ability = ActivatedAbility::new(
        Cost::Tap,
        vec![Effect::AddMana {
            player: player_id,
            mana: green_mana,
        }],
        "T: Add G".to_string(),
        true, // is_mana_ability
    );
    forest.activated_abilities.push(mana_ability);

    let forest_value = GameStateEvaluator::evaluate_land(&forest);
    // Base 3 + 100 for 1 mana + 3 for 1 color = 106
    assert_eq!(forest_value, 106);

    // Test dual land (Command Tower: T: Add W or U)
    let mut dual_land = Card::new(CardId::new(2), "Command Tower".to_string(), player_id);
    dual_land.types.push(CardType::Land);

    let mut white_mana = ManaCost::new();
    white_mana.white = 1;
    let white_ability = ActivatedAbility::new(
        Cost::Tap,
        vec![Effect::AddMana {
            player: player_id,
            mana: white_mana,
        }],
        "T: Add W".to_string(),
        true,
    );

    let mut blue_mana = ManaCost::new();
    blue_mana.blue = 1;
    let blue_ability = ActivatedAbility::new(
        Cost::Tap,
        vec![Effect::AddMana {
            player: player_id,
            mana: blue_mana,
        }],
        "T: Add U".to_string(),
        true,
    );

    dual_land.activated_abilities.push(white_ability);
    dual_land.activated_abilities.push(blue_ability);

    let dual_value = GameStateEvaluator::evaluate_land(&dual_land);
    // Base 3 + 100 for 1 mana + 6 for 2 colors = 109
    assert_eq!(dual_value, 109);

    // Test utility land with tap ability
    let mut utility_land = Card::new(CardId::new(3), "Utility Land".to_string(), player_id);
    utility_land.types.push(CardType::Land);

    // Add mana ability
    let mut colorless = ManaCost::new();
    colorless.colorless = 1;
    let mana_ab = ActivatedAbility::new(
        Cost::Tap,
        vec![Effect::AddMana {
            player: player_id,
            mana: colorless,
        }],
        "T: Add C".to_string(),
        true,
    );
    utility_land.activated_abilities.push(mana_ab);

    // Add utility ability (tap to draw a card)
    let utility_ab = ActivatedAbility::new(
        Cost::Tap,
        vec![Effect::DrawCards {
            player: player_id,
            count: 1,
        }],
        "T: Draw a card".to_string(),
        false, // not mana ability
    );
    utility_land.activated_abilities.push(utility_ab);

    let utility_value = GameStateEvaluator::evaluate_land(&utility_land);
    // Base 3 + 100 for 1 mana + 3 for 1 color + 50 for utility = 156
    assert_eq!(utility_value, 156);
}

#[test]
fn game_state_score_counts_hands_life_and_board() {
    let me = PlayerId::new(0);
    let them = PlayerId::new(1);
    let evaluator = GameStateEvaluator::new(me);
    let summary = GameSummary {
        my_hand_size: 3,
        opponent_hand_size: 2,
        my_life: 20,
        opponent_life: 15,
        turn_number: 4,
        before_main2: true,
        ai_lost: false,
        opponent_lost: false,
    };
    let mut artifact = Card::new(CardId::new(1), "Relic".to_string(), them);
    artifact.types.push(CardType::Artifact);
    artifact.mana_cost = ManaCost::from_string("2");
    let score = evaluator.evaluate_game_state(&summary, &[artifact], me);
    // 5*3 - 4*2 + 2*20 - 2*15 = 17; the opponent's artifact is worth 50 + 30*2.
    assert_eq!(score.value, 17 - 110);
    assert_eq!(score.summon_sick_value, 17 - 110);
}

#[test]
fn game_state_score_of_finished_games() {
    let me = PlayerId::new(0);
    let evaluator = GameStateEvaluator::new(me);
    let lost = GameSummary {
        my_hand_size: 0,
        opponent_hand_size: 0,
        my_life: 0,
        opponent_life: 20,
        turn_number: 5,
        before_main2: false,
        ai_lost: true,
        opponent_lost: false,
    };
    assert_eq!(evaluator.evaluate_game_state(&lost, &[], me), Score::loss());
    let won = GameSummary { my_life: 20, opponent_life: 0, ai_lost: false, opponent_lost: true, ..lost };
    assert_eq!(evaluator.evaluate_game_state(&won, &[], me), Score::win());
    let playing = GameSummary { my_life: 0, opponent_life: 20, ai_lost: false, opponent_lost: false, ..lost };
    assert_eq!(evaluator.evaluate_game_state(&playing, &[], me).value, -40);
}
