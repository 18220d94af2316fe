use mtg_forge_rs::card::{Card, CardType, Effect, Keyword, TargetRef};
use mtg_forge_rs::game_text::{effect_log_line, permanent_display_order, permanent_line, player_lines};
use mtg_forge_rs::ids::EntityId;
use mtg_forge_rs::mana::ManaCost;

#[test]
fn effect_lines() {
    let id = EntityId::new;
    let src = "Lightning Bolt";
    assert_eq!(
        effect_log_line(src, id(7), &Effect::DealDamage { target: TargetRef::Player(id(1)), amount: 3 }, "Bob", ""),
        "  Lightning Bolt (7) deals 3 damage to Bob"
    );
    assert_eq!(
        effect_log_line(src, id(7), &Effect::DealDamage { target: TargetRef::Permanent(id(12)), amount: 3 }, "Bear", ""),
        "  Lightning Bolt (7) deals 3 damage to Bear (12)"
    );
    assert_eq!(
        effect_log_line("Giant Growth", id(8), &Effect::PumpCreature { target: id(12), power_bonus: 3, toughness_bonus: -1 }, "Bear", ""),
        "  Giant Growth (8) gives Bear (12) +3/-1 until end of turn"
    );
    assert_eq!(
        effect_log_line("Howling Mine", id(9), &Effect::DrawCards { player: id(0), count: 2 }, "Alice", ""),
        "  Howling Mine (9) causes Alice to draw 2 card(s)"
    );
    assert_eq!(
        effect_log_line("Healing Salve", id(9), &Effect::GainLife { player: id(0), amount: 3 }, "Alice", ""),
        "  Healing Salve (9) causes Alice to gain 3 life"
    );
    assert_eq!(
        effect_log_line("Terror", id(5), &Effect::DestroyPermanent { target: id(12) }, "Bear", ""),
        "  Terror (5) destroys Bear (12)"
    );
    assert_eq!(effect_log_line("X", id(5), &Effect::TapPermanent { target: id(2) }, "Y", ""), "  X (5) taps Y (2)");
    assert_eq!(effect_log_line("X", id(5), &Effect::UntapPermanent { target: id(2) }, "Y", ""), "  X (5) untaps Y (2)");
    assert_eq!(
        effect_log_line("Millstone", id(4), &Effect::Mill { player: id(1), count: 2 }, "Bob", ""),
        "  Millstone (4) causes Bob to mill 2 card(s)"
    );
    assert_eq!(
        effect_log_line("Counterspell", id(4), &Effect::CounterSpell { target: id(3) }, "Shock", ""),
        "  Counterspell (4) counters Shock (3)"
    );
    assert_eq!(
        effect_log_line("Dark Ritual", id(4), &Effect::AddMana { player: id(0), mana: ManaCost::from_string("BBB") }, "Alice", "{B}{B}{B}"),
        "  Dark Ritual (4) adds {B}{B}{B} to Alice's mana pool"
    );
}

#[test]
fn battlefield_lines() {
    let mut bear = Card::new(EntityId::new(12), "Grizzly Bears".to_string(), EntityId::new(0));
    bear.types.push(CardType::Creature);
    bear.power = Some(2);
    bear.toughness = Some(2);
    bear.turn_entered_battlefield = Some(3);
    assert_eq!(permanent_line(&bear, 0, 0, 3), "    Grizzly Bears (12) - 2/2 (summoning sickness)");
    bear.tapped = true;
    assert_eq!(permanent_line(&bear, 3, -1, 4), "    Grizzly Bears (12) - 5/1 (tapped)");
    bear.keywords.push(Keyword::Haste);
    assert_eq!(permanent_line(&bear, 0, 0, 3), "    Grizzly Bears (12) - 2/2 (tapped)");
    let mut land = Card::new(EntityId::new(3), "Forest".to_string(), EntityId::new(0));
    land.types.push(CardType::Land);
    assert_eq!(permanent_line(&land, 0, 0, 3), "    Forest (3)");
    land.tapped = true;
    assert_eq!(permanent_line(&land, 0, 0, 3), "    Forest (3) (tapped)");

    assert_eq!(
        player_lines("Alice", true, -2, 3, 40, 1, 0),
        vec!["Alice (active): ", "  Life: -2", "  Hand: 3 | Library: 40 | Graveyard: 1 | Exile: 0"]
    );
    assert_eq!(player_lines("Bob", false, 20, 0, 0, 0, 0)[0], "Bob: ");

    let mut relic = Card::new(EntityId::new(20), "Relic".to_string(), EntityId::new(0));
    relic.types.push(CardType::Artifact);
    let mut theirs = land.clone();
    theirs.controller = EntityId::new(1);
    let bf = vec![relic, bear, theirs, land];
    assert_eq!(permanent_display_order(&bf, EntityId::new(0)), vec![3, 1, 0]);
    assert_eq!(permanent_display_order(&bf, EntityId::new(1)), vec![2]);
}
