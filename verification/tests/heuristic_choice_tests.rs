use mtg_forge_rs::card::{Card, CardType, Keyword, SpellAbility};
use mtg_forge_rs::heuristic::HeuristicController;
use mtg_forge_rs::ids::EntityId;

fn creature(id: u32, owner: u32, power: i8, toughness: i8) -> Card {
    let mut c = Card::new(EntityId::new(id), format!("Creature {}", id), EntityId::new(owner));
    c.types.push(CardType::Creature);
    c.power = Some(power);
    c.toughness = Some(toughness);
    c
}

#[test]
fn heuristic_prefers_spells_then_abilities_then_lands() {
    let mut ai = HeuristicController::new(EntityId::new(1));
    let land = SpellAbility::PlayLand { card_id: EntityId::new(10) };
    let cast = SpellAbility::CastSpell { card_id: EntityId::new(11) };
    let act = SpellAbility::ActivateAbility { card_id: EntityId::new(12), ability_index: 0 };
    assert_eq!(ai.choose_spell_ability_to_play(&[land, act, cast]), Some(cast));
    assert_eq!(ai.choose_spell_ability_to_play(&[land, act]), Some(act));
    assert_eq!(ai.choose_spell_ability_to_play(&[land]), Some(land));
    assert_eq!(ai.choose_spell_ability_to_play(&[]), None);
}

#[test]
fn heuristic_targets_best_creature_of_the_right_side() {
    let mut ai = HeuristicController::new(EntityId::new(1));
    let mine_small = creature(20, 1, 1, 1);
    let mine_big = creature(21, 1, 4, 4);
    let theirs_mid = creature(22, 2, 3, 3);
    let theirs_small = creature(23, 2, 1, 1);
    let ids = vec![EntityId::new(20), EntityId::new(21), EntityId::new(22), EntityId::new(23)];
    let cards = vec![&mine_small, &mine_big, &theirs_mid, &theirs_small];
    let my_spell = creature(30, 1, 0, 0);
    let their_spell = creature(31, 2, 0, 0);
    assert_eq!(ai.choose_targets(Some(&my_spell), &ids, &cards), vec![EntityId::new(21)]);
    assert_eq!(ai.choose_targets(Some(&their_spell), &ids, &cards), vec![EntityId::new(22)]);
    assert_eq!(ai.choose_targets(None, &ids, &cards), vec![EntityId::new(22)]);
    assert_eq!(ai.choose_targets(None, &ids, &[]), vec![EntityId::new(20)]);
    assert_eq!(ai.choose_targets(None, &[], &cards), Vec::<EntityId>::new());
}

#[test]
fn heuristic_attacks_when_nothing_can_block() {
    let mut ai = HeuristicController::new(EntityId::new(1));
    let bear = creature(40, 1, 2, 2);
    let wall = creature(41, 1, 0, 4);
    let attackers = ai.choose_attackers(&[bear.clone(), wall.clone()], &[bear.clone(), wall.clone()]);
    assert_eq!(attackers, vec![EntityId::new(40)]);
}

#[test]
fn heuristic_blocks_most_threatening_first() {
    let mut ai = HeuristicController::new(EntityId::new(1));
    let small_attacker = creature(50, 2, 1, 1);
    let big_attacker = creature(51, 2, 3, 3);
    let blocker = creature(60, 1, 4, 4);
    let blocks = ai.choose_blockers(&[blocker.clone()], &[small_attacker.clone(), big_attacker.clone()]);
    // The single blocker kills and survives both; it goes to the bigger threat.
    assert_eq!(blocks, vec![(EntityId::new(60), EntityId::new(51))]);
    assert_eq!(ai.choose_blockers(&[], &[big_attacker]), Vec::new());
}

#[test]
fn heuristic_discards_lands_first() {
    let mut ai = HeuristicController::new(EntityId::new(1));
    let mut forest = Card::new(EntityId::new(70), "Forest".to_string(), EntityId::new(1));
    forest.types.push(CardType::Land);
    let mut spell = Card::new(EntityId::new(71), "Shock".to_string(), EntityId::new(1));
    spell.types.push(CardType::Instant);
    let mut flyer = creature(72, 1, 3, 3);
    flyer.keywords.push(Keyword::Flying);
    let bear = creature(73, 1, 2, 2);
    let hand = vec![spell, flyer, forest, bear];
    assert_eq!(
        ai.choose_cards_to_discard(&hand, 2),
        vec![EntityId::new(70), EntityId::new(71)]
    );
    assert_eq!(ai.choose_cards_to_discard(&hand, 9).len(), 4);
}
