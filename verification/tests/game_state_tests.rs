use mtg_forge_rs::error::MtgError;
use mtg_forge_rs::game_state::{CardStatus, GameAction, GameState, ManaPool, Step, Zone};
use mtg_forge_rs::ids::EntityId;

#[test]
fn test_game_creation() {
    let game = GameState::new_two_player(20);

    assert_eq!(game.players.len(), 2);
    assert_eq!(game.player_zones.len(), 2);
    assert_eq!(game.turn_number, 1);
    assert_eq!(game.current_step, Step::Untap);
}

#[test]
fn test_draw_card() {
    let mut game = GameState::new_two_player(20);
    let p1_id = game.players[0].id;
    let card_id = EntityId::new(3);
    game.player_zones[0].library.push(card_id);

    let drawn = game.draw_card(p1_id);
    assert_eq!(drawn, Some(card_id));
    assert!(game.player_zones[0].hand.contains(&card_id));
    assert!(!game.player_zones[0].library.contains(&card_id));
    assert_eq!(game.draw_card(p1_id), None);
}

#[test]
fn undo_on_empty_log_does_nothing() {
    let mut game = GameState::new_two_player(20);
    assert!(!game.undo());
    assert_eq!(game.players[0].life, 20);
}

#[test]
fn undo_draw_puts_card_back() {
    let mut game = GameState::new_two_player(20);
    let p1 = game.players[0].id;
    game.player_zones[0].library.extend([EntityId::new(5), EntityId::new(6)]);
    assert_eq!(game.draw_card(p1), Some(EntityId::new(6)));
    assert_eq!(game.undo_log.len(), 1);
    assert!(game.undo());
    assert_eq!(game.undo_log.len(), 0);
    assert_eq!(game.player_zones[0].library, vec![EntityId::new(5), EntityId::new(6)]);
    assert!(game.player_zones[0].hand.is_empty());
}

#[test]
fn move_card_and_undo() {
    let mut game = GameState::new_two_player(20);
    let p1 = game.players[0].id;
    let c = EntityId::new(7);
    game.player_zones[0].hand.push(c);
    assert!(game.move_card(c, Zone::Hand, Zone::Battlefield, p1).is_ok());
    assert_eq!(game.battlefield, vec![c]);
    assert!(game.player_zones[0].hand.is_empty());
    match game.move_card(c, Zone::Hand, Zone::Graveyard, p1) {
        Err(MtgError::InvalidAction(m)) => assert_eq!(m, "Card 7 not found in source zone"),
        other => panic!("unexpected {:?}", other),
    }
    assert_eq!(game.undo_log.len(), 1);
    assert!(game.undo());
    assert!(game.battlefield.is_empty());
    assert_eq!(game.player_zones[0].hand, vec![c]);
}

#[test]
fn undo_reverts_each_kind_of_action() {
    let mut game = GameState::new_two_player(20);
    let p1 = game.players[0].id;
    let c = EntityId::new(9);
    game.cards.insert(c, CardStatus { tapped: true, power_bonus: 3, toughness_bonus: 3 });
    game.players[0].life = 17;
    game.players[0].mana_pool.red = 2;
    game.current_step = Step::Main1;
    game.turn_number = 2;
    game.active_player = EntityId::new(1);
    let pool = ManaPool { white: 0, blue: 0, black: 0, red: 1, green: 5, colorless: 0 };
    game.undo_log = vec![
        GameAction::TapCard { card_id: c, tapped: true },
        GameAction::ModifyLife { player_id: p1, delta: -3 },
        GameAction::AddMana { player_id: p1, mana: pool },
        GameAction::EmptyManaPool { player_id: p1, prev: pool },
        GameAction::AdvanceStep { from_step: Step::Draw, to_step: Step::Main1 },
        GameAction::ChangeTurn { from_player: p1, to_player: EntityId::new(1), turn_number: 2 },
        GameAction::PumpCreature { card_id: c, power_delta: 3, toughness_delta: 3 },
        GameAction::ChoicePoint { player_id: p1, choice_id: 1 },
    ];
    assert!(game.undo()); // choice point
    assert!(game.undo()); // pump
    assert_eq!(game.cards.get(c), Some(&CardStatus { tapped: true, power_bonus: 0, toughness_bonus: 0 }));
    assert!(game.undo()); // turn change
    assert_eq!((game.active_player, game.turn_number), (p1, 1));
    assert!(game.undo()); // step
    assert_eq!(game.current_step, Step::Draw);
    assert!(game.undo()); // emptied pool restored
    assert_eq!(game.players[0].mana_pool, pool);
    assert!(game.undo()); // added mana taken back: red 1 -> 0, green 5 -> 0
    assert_eq!(game.players[0].mana_pool, ManaPool { white: 0, blue: 0, black: 0, red: 0, green: 0, colorless: 0 });
    assert!(game.undo()); // life loss of 3 gained back
    assert_eq!(game.players[0].life, 20);
    assert!(game.undo()); // tap undone
    assert_eq!(game.cards.get(c).unwrap().tapped, false);
    assert!(!game.undo());
}

#[test]
fn undo_life_gain_leaves_player_lost_at_zero() {
    let mut game = GameState::new_two_player(2);
    let p1 = game.players[0].id;
    game.players[0].has_lost = true;
    game.undo_log.push(GameAction::ModifyLife { player_id: p1, delta: 5 });
    assert!(game.undo());
    assert_eq!(game.players[0].life, -3);
    assert!(game.players[0].has_lost);
    game.undo_log.push(GameAction::ModifyLife { player_id: p1, delta: -10 });
    assert!(game.undo());
    assert_eq!(game.players[0].life, 7);
    assert!(!game.players[0].has_lost);
}

#[test]
fn damage_and_undo() {
    let mut game = GameState::new_two_player(20);
    let p2 = game.players[1].id;
    assert!(game.deal_damage(p2, 5).is_ok());
    assert_eq!(game.players[1].life, 15);
    assert!(!game.players[1].has_lost);
    assert!(game.deal_damage(p2, 15).is_ok());
    assert_eq!(game.players[1].life, 0);
    assert!(game.players[1].has_lost);
    assert_eq!(game.undo_log.last(), Some(&GameAction::ModifyLife { player_id: p2, delta: -15 }));
    assert!(game.undo());
    assert_eq!(game.players[1].life, 15);
    assert!(!game.players[1].has_lost);
    match game.deal_damage(EntityId::new(9), 1) {
        Err(MtgError::InvalidAction(m)) => assert_eq!(m, "Invalid damage target"),
        other => panic!("unexpected {:?}", other),
    }
}
