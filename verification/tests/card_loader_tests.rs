use mtg_forge_rs::card::{CardType, Color, Effect, Keyword, TargetRef, TriggerEvent};
use mtg_forge_rs::card_loader::CardLoader;
use mtg_forge_rs::error::MtgError;
use mtg_forge_rs::ids::EntityId;

#[test]
fn test_parse_lightning_bolt() {
    let content = r#"
Name:Lightning Bolt
ManaCost:R
Types:Instant
A:SP$ DealDamage | ValidTgts$ Any | NumDmg$ 3 | SpellDescription$ CARDNAME deals 3 damage to any target.
Oracle:Lightning Bolt deals 3 damage to any target.
"#;

    let def = CardLoader::parse(content).unwrap();
    assert_eq!(def.name.as_str(), "Lightning Bolt");
    assert_eq!(def.mana_cost.red, 1);
    assert_eq!(def.types.len(), 1);
    assert!(def.types.contains(&CardType::Instant));
    assert!(def.colors.contains(&Color::Red));

    // Check that the effect is parsed
    let effects = def.parse_effects();
    assert_eq!(effects.len(), 1, "Lightning Bolt should have 1 effect");

    match &effects[0] {
        Effect::DealDamage { target, amount } => {
            assert_eq!(*amount, 3, "Should deal 3 damage");
            assert!(
                matches!(target, TargetRef::NoTarget),
                "Target should be None initially"
            );
        }
        _ => panic!("Expected DealDamage effect"),
    }
}

#[test]
fn test_parse_creature() {
    let content = r#"
Name:Grizzly Bears
ManaCost:1G
Types:Creature Bear
PT:2/2
Oracle:
"#;

    let def = CardLoader::parse(content).unwrap();
    assert_eq!(def.name.as_str(), "Grizzly Bears");
    assert_eq!(def.mana_cost.generic, 1);
    assert_eq!(def.mana_cost.green, 1);
    assert!(def.types.contains(&CardType::Creature));
    assert!(def.subtypes.contains(&"Bear".to_string()));
    assert_eq!(def.power, Some(2));
    assert_eq!(def.toughness, Some(2));
}

#[test]
fn test_parse_with_abilities() {
    let content = r#"
Name:Lightning Bolt
ManaCost:R
Types:Instant
A:SP$ DealDamage | ValidTgts$ Any | NumDmg$ 3 | SpellDescription$ CARDNAME deals 3 damage to any target.
Oracle:Lightning Bolt deals 3 damage to any target.
"#;

    let def = CardLoader::parse(content).unwrap();
    assert_eq!(def.name.as_str(), "Lightning Bolt");
    assert_eq!(def.raw_abilities.len(), 1);
    assert!(def.raw_abilities[0].starts_with("A:"));
    assert!(def.raw_abilities[0].contains("DealDamage"));
}

#[test]
fn test_parse_draw_spell() {
    let content = r#"
Name:Ancestral Recall
ManaCost:U
Types:Instant
A:SP$ Draw | NumCards$ 3 | ValidTgts$ Player | TgtPrompt$ Select target player | SpellDescription$ Target player draws three cards.
Oracle:Target player draws three cards.
"#;

    let def = CardLoader::parse(content).unwrap();
    assert_eq!(def.name.as_str(), "Ancestral Recall");
    assert_eq!(def.mana_cost.blue, 1);
    assert!(def.types.contains(&CardType::Instant));
    assert!(def.colors.contains(&Color::Blue));

    let effects = def.parse_effects();
    assert_eq!(effects.len(), 1, "Ancestral Recall should have 1 effect");

    match &effects[0] {
        Effect::DrawCards { player: _, count } => {
            assert_eq!(*count, 3, "Should draw 3 cards");
        }
        _ => panic!("Expected DrawCards effect, got {:?}", effects[0]),
    }
}

#[test]
fn test_parse_destroy_spell() {
    let content = r#"
Name:Terror
ManaCost:1 B
Types:Instant
A:SP$ Destroy | ValidTgts$ Creature.nonArtifact+nonBlack | TgtPrompt$ Select target nonartifact, nonblack creature | NoRegen$ True | SpellDescription$ Destroy target nonartifact, nonblack creature. It can't be regenerated.
Oracle:Destroy target nonartifact, nonblack creature. It can't be regenerated.
"#;

    let def = CardLoader::parse(content).unwrap();
    assert_eq!(def.name.as_str(), "Terror");
    assert_eq!(def.mana_cost.generic, 1);
    assert_eq!(def.mana_cost.black, 1);
    assert!(def.types.contains(&CardType::Instant));
    assert!(def.colors.contains(&Color::Black));

    let effects = def.parse_effects();
    assert_eq!(effects.len(), 1, "Terror should have 1 effect");

    match &effects[0] {
        Effect::DestroyPermanent { target: _ } => {}
        _ => panic!("Expected DestroyPermanent effect, got {:?}", effects[0]),
    }
}

#[test]
fn test_parse_gainlife_spell() {
    let content = r#"
Name:Angel's Mercy
ManaCost:2 W W
Types:Instant
A:SP$ GainLife | LifeAmount$ 7 | SpellDescription$ You gain 7 life.
Oracle:You gain 7 life.
"#;

    let def = CardLoader::parse(content).unwrap();
    assert_eq!(def.name.as_str(), "Angel's Mercy");
    assert_eq!(def.mana_cost.generic, 2);
    assert_eq!(def.mana_cost.white, 2);
    assert!(def.types.contains(&CardType::Instant));
    assert!(def.colors.contains(&Color::White));

    let effects = def.parse_effects();
    assert_eq!(effects.len(), 1, "Angel's Mercy should have 1 effect");

    match &effects[0] {
        Effect::GainLife { player: _, amount } => {
            assert_eq!(*amount, 7, "Should gain 7 life");
        }
        _ => panic!("Expected GainLife effect, got {:?}", effects[0]),
    }
}

#[test]
fn card_without_name_is_refused() {
    match CardLoader::parse("ManaCost:R\nTypes:Instant\n") {
        Err(MtgError::InvalidCardFormat(m)) => assert_eq!(m, "Missing card name"),
        _ => panic!("expected an invalid card"),
    }
}

#[test]
fn card_colorless_and_comments() {
    let content = "# an artifact\nName: Sol Ring \nManaCost:1\nTypes:Artifact\nPT:x/1\nK:Flying\n";
    let def = CardLoader::parse(content).unwrap();
    assert_eq!(def.name, "Sol Ring");
    assert_eq!(def.colors, vec![Color::Colorless]);
    assert_eq!(def.power, None);
    assert_eq!(def.toughness, Some(1));
    assert_eq!(def.raw_keywords, vec!["Flying".to_string()]);
}

#[test]
fn card_keywords_effects_and_triggers() {
    let content = "Name:Test Card\nManaCost:2 R G\nTypes:Creature Elf Warrior\nPT:3/3\n\
K:Trample\nK:Madness: 1 R \nK:Kicker:2\nK:Protection from red\nK:Shadow\n\
A:SP$ Pump | ValidTgts$ Creature | NumAtt$ ++2 | NumDef$ +1\n\
A:SP$ Tap | ValidTgts$ Creature\nA:SP$ TapAll | ValidCards$ Creature\n\
A:SP$ Mill | NumCards$ 4\n\
T:Mode$ ChangesZone | Origin$ Any | Destination$ Battlefield | ValidCard$ Card.Self | Execute$ TrigDraw | TriggerDescription$ When CARDNAME enters, draw a card.\n\
T:Mode$ ChangesZone | Destination$ Battlefield | ValidCard$ Card.Self | Execute$ TrigPump | NumAtt$ +2 | NumDef$ -1\n\
T:Mode$ Attacks | ValidCard$ Card.Self | Execute$ TrigDraw\n";
    let def = CardLoader::parse(content).unwrap();
    assert_eq!(def.colors, vec![Color::Red, Color::Green]);
    assert_eq!(def.subtypes, vec!["Elf".to_string(), "Warrior".to_string()]);

    let card = def.instantiate(EntityId::new(7), EntityId::new(1));
    assert_eq!(card.id, EntityId::new(7));
    assert_eq!(card.owner, EntityId::new(1));
    assert_eq!(card.power, Some(3));
    assert_eq!(
        card.keywords,
        vec![
            Keyword::Trample,
            Keyword::Madness("1 R".to_string()),
            Keyword::Other("Kicker:2".to_string()),
            Keyword::ProtectionFromRed,
            Keyword::Other("Shadow".to_string()),
        ]
    );
    let zero = EntityId::new(0);
    assert_eq!(
        card.effects,
        vec![
            Effect::PumpCreature { target: zero, power_bonus: 2, toughness_bonus: 1 },
            Effect::TapPermanent { target: zero },
            Effect::Mill { player: zero, count: 4 },
        ]
    );
    assert_eq!(card.triggers.len(), 2);
    assert_eq!(card.triggers[0].event, TriggerEvent::EntersBattlefield);
    assert_eq!(card.triggers[0].effects, vec![Effect::DrawCards { player: zero, count: 1 }]);
    assert_eq!(card.triggers[0].description, "When CARDNAME enters, draw a card.");
    assert_eq!(
        card.triggers[1].effects,
        vec![Effect::PumpCreature { target: zero, power_bonus: 2, toughness_bonus: -1 }]
    );
    assert_eq!(card.triggers[1].description, "When this enters the battlefield");
}
