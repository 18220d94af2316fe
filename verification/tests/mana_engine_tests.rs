use mtg_forge_rs::card::{spell_requires_stack_target, Card, CardType, Effect};
use mtg_forge_rs::ids::EntityId;
use mtg_forge_rs::mana::{ManaColor, ManaCost, ManaProduction, ManaProductionKind};
use mtg_forge_rs::mana_engine::{
    get_mana_production,
    get_creature_mana_production, get_simple_mana_color, has_mana_ability, ManaCapacity, ManaEngine,
};

#[test]
fn test_mana_capacity_total() {
    let capacity = ManaCapacity {
        white: 2,
        blue: 1,
        black: 0,
        red: 3,
        green: 1,
        colorless: 0,
    };
    assert_eq!(capacity.total(), 7);
}

#[test]
fn test_can_pay_simple_exact() {
    let capacity = ManaCapacity {
        white: 2,
        blue: 1,
        black: 1,
        red: 2,
        green: 1,
        colorless: 0,
    };

    // Exact match
    let cost = ManaCost {
        generic: 0,
        white: 2,
        blue: 1,
        black: 1,
        red: 2,
        green: 1,
        colorless: 0,
        x_count: 0,
    };
    assert!(capacity.can_pay_simple(&cost));
}

#[test]
fn test_can_pay_simple_insufficient_color() {
    let capacity = ManaCapacity {
        white: 1,
        blue: 1,
        black: 1,
        red: 1,
        green: 1,
        colorless: 0,
    };

    // Requires 2 red, but we only have 1
    let cost = ManaCost {
        generic: 0,
        white: 0,
        blue: 0,
        black: 0,
        red: 2,
        green: 0,
        colorless: 0,
        x_count: 0,
    };
    assert!(!capacity.can_pay_simple(&cost));
}

#[test]
fn test_can_pay_simple_with_generic() {
    let capacity = ManaCapacity {
        white: 1,
        blue: 1,
        black: 1,
        red: 2,
        green: 1,
        colorless: 0,
    };

    // Cost: 1R (1 generic + 1 red)
    let cost = ManaCost {
        generic: 1,
        white: 0,
        blue: 0,
        black: 0,
        red: 1,
        green: 0,
        colorless: 0,
        x_count: 0,
    };
    assert!(capacity.can_pay_simple(&cost));
}

#[test]
fn test_simple_mana_color_recognition() {
    assert_eq!(get_simple_mana_color("Plains"), Some('W'));
    assert_eq!(get_simple_mana_color("Island"), Some('U'));
    assert_eq!(get_simple_mana_color("Swamp"), Some('B'));
    assert_eq!(get_simple_mana_color("Mountain"), Some('R'));
    assert_eq!(get_simple_mana_color("Forest"), Some('G'));
    assert_eq!(get_simple_mana_color("Wastes"), Some('C'));
    assert_eq!(get_simple_mana_color("City of Brass"), None);
    assert_eq!(get_simple_mana_color("Taiga"), None);
}

fn land(id: u32, name: &str, owner: EntityId) -> Card {
    let mut card = Card::new(EntityId::new(id), name.to_string(), owner);
    card.types.push(CardType::Land);
    card.controller = owner;
    card
}

#[test]
fn test_mana_engine_update_simple_sources() {
    let p1_id = EntityId::new(0);
    let battlefield = vec![land(10, "Mountain", p1_id), land(11, "Island", p1_id)];

    let mut engine = ManaEngine::new(p1_id);
    engine.update(&battlefield, 1);

    // Should have detected 2 simple sources
    assert_eq!(engine.simple_sources().len(), 2);
    assert_eq!(engine.complex_sources().len(), 0);

    // Should have correct capacity
    assert_eq!(engine.simple_capacity().red, 1);
    assert_eq!(engine.simple_capacity().blue, 1);
    assert_eq!(engine.simple_capacity().total(), 2);
}

#[test]
fn test_mana_engine_can_pay() {
    let p1_id = EntityId::new(0);
    let battlefield = vec![
        land(10, "Mountain", p1_id),
        land(11, "Mountain", p1_id),
        land(12, "Mountain", p1_id),
    ];

    let mut engine = ManaEngine::new(p1_id);
    engine.update(&battlefield, 1);

    // Should be able to pay for 2R (Lightning Bolt)
    let bolt_cost = ManaCost::from_string("2R");
    assert!(engine.can_pay(&bolt_cost));

    // Should not be able to pay for 4R
    let expensive_cost = ManaCost::from_string("4R");
    assert!(!engine.can_pay(&expensive_cost));

    // Should not be able to pay for 1U (requires blue)
    let blue_cost = ManaCost::from_string("1U");
    assert!(!engine.can_pay(&blue_cost));
}

#[test]
fn test_creature_mana_ability_detection() {
    let p1_id = EntityId::new(0);

    // Test Llanowar Elves pattern: "{T}: Add {G}"
    let mut llanowar = Card::new(EntityId::new(1), "Llanowar Elves".to_string(), p1_id);
    llanowar.types.push(CardType::Creature);
    llanowar.text = "{T}: Add {G}.".to_string();
    assert!(has_mana_ability(&llanowar));
    assert_eq!(
        get_creature_mana_production(&llanowar),
        Some(ManaProduction::free(ManaProductionKind::Fixed(ManaColor::Green)))
    );

    // Test Birds of Paradise pattern: "Add one mana of any color"
    let mut birds = Card::new(EntityId::new(2), "Birds of Paradise".to_string(), p1_id);
    birds.types.push(CardType::Creature);
    birds.text = "{T}: Add one mana of any color.".to_string();
    assert!(has_mana_ability(&birds));
    assert_eq!(
        get_creature_mana_production(&birds),
        Some(ManaProduction::free(ManaProductionKind::AnyColor))
    );

    // Test non-mana creature
    let mut bear = Card::new(EntityId::new(3), "Grizzly Bears".to_string(), p1_id);
    bear.types.push(CardType::Creature);
    bear.text = "".to_string();
    assert!(!has_mana_ability(&bear));
}

#[test]
fn test_mana_engine_with_llanowar_elves() {
    let p1_id = EntityId::new(0);
    let turn_number: u32 = 1;
    let forest = land(10, "Forest", p1_id);
    let mut elf = Card::new(EntityId::new(11), "Llanowar Elves".to_string(), p1_id);
    elf.types.push(CardType::Creature);
    elf.controller = p1_id;
    elf.text = "{T}: Add {G}.".to_string();
    elf.turn_entered_battlefield = Some(turn_number - 1); // Not summoning sick
    let battlefield = vec![forest, elf];

    let mut engine = ManaEngine::new(p1_id);
    engine.update(&battlefield, turn_number);

    // Should have 1 simple source (Forest) and 1 complex source (Llanowar Elves)
    assert_eq!(engine.simple_sources().len(), 1);
    assert_eq!(engine.complex_sources().len(), 1);

    // Should be able to pay for GG (2 green mana)
    let gg_cost = ManaCost::from_string("GG");
    assert!(engine.can_pay(&gg_cost));

    // Should be able to pay for 1G (1 generic + 1 green)
    let one_g_cost = ManaCost::from_string("1G");
    assert!(engine.can_pay(&one_g_cost));
}

#[test]
fn test_mana_engine_summoning_sickness() {
    let p1_id = EntityId::new(0);
    let turn_number: u32 = 1;
    let forest = land(10, "Forest", p1_id);
    let elf_id = EntityId::new(11);
    let mut elf = Card::new(elf_id, "Llanowar Elves".to_string(), p1_id);
    elf.types.push(CardType::Creature);
    elf.controller = p1_id;
    elf.text = "{T}: Add {G}.".to_string();
    elf.turn_entered_battlefield = Some(turn_number); // Summoning sick!
    let battlefield = vec![forest, elf];

    let mut engine = ManaEngine::new(p1_id);
    engine.update(&battlefield, turn_number);

    // Should detect the creature as complex source
    assert_eq!(engine.complex_sources().len(), 1);

    // The mana source should have summoning_sickness flag set
    let creature_source = engine
        .mana_sources()
        .iter()
        .find(|s| s.card_id == elf_id)
        .expect("Should find Llanowar Elves");
    assert!(creature_source.has_summoning_sickness);

    // Should only be able to pay for G (from Forest), not GG
    let g_cost = ManaCost::from_string("G");
    assert!(engine.can_pay(&g_cost));

    let gg_cost = ManaCost::from_string("GG");
    assert!(!engine.can_pay(&gg_cost)); // Can't use summoning-sick creature
}

fn land_card(name: &str, subtypes: &[&str], text: &str) -> Card {
    let mut c = Card::new(EntityId::new(40), name.to_string(), EntityId::new(1));
    c.types.push(CardType::Land);
    for s in subtypes {
        c.subtypes.push(s.to_string());
    }
    c.text = text.to_string();
    c
}

#[test]
fn land_mana_production_basic_dual_any() {
    let p = get_mana_production(&land_card("Mountain", &[], "")).unwrap();
    assert_eq!(p.kind, ManaProductionKind::Fixed(ManaColor::Red));
    assert!(p.activation_cost.is_none());
    let p = get_mana_production(&land_card("Plains", &[], "")).unwrap();
    assert_eq!(p.kind, ManaProductionKind::Fixed(ManaColor::White));
    let p = get_mana_production(&land_card("Wastes", &[], "")).unwrap();
    assert_eq!(p.kind, ManaProductionKind::Colorless);
    let p = get_mana_production(&land_card("Taiga", &["Mountain", "Forest"], "")).unwrap();
    assert_eq!(p.kind, ManaProductionKind::Choice(vec![ManaColor::Red, ManaColor::Green]));
    let p = get_mana_production(&land_card("City of Brass", &[], "{T}: Add one mana of Any Color.")).unwrap();
    assert_eq!(p.kind, ManaProductionKind::AnyColor);
    assert!(get_mana_production(&land_card("Strip Mine", &[], "{T}: Add {C}.")).is_none());
    let mut bear = Card::new(EntityId::new(41), "Forest".to_string(), EntityId::new(1));
    bear.types.push(CardType::Creature);
    assert!(get_mana_production(&bear).is_none());
}

#[test]
fn counterspell_needs_a_stack_target() {
    let mut c = Card::new(EntityId::new(50), "Counterspell".to_string(), EntityId::new(1));
    c.types.push(CardType::Instant);
    assert!(!spell_requires_stack_target(&c));
    c.effects.push(Effect::CounterSpell { target: EntityId::new(7) });
    assert!(!spell_requires_stack_target(&c));
    c.effects.push(Effect::CounterSpell { target: EntityId::new(0) });
    assert!(spell_requires_stack_target(&c));
}
