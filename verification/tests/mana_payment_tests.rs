use mtg_forge_rs::ids::CardId;
use mtg_forge_rs::mana::{ManaColor, ManaCost, ManaProduction, ManaProductionKind, ManaSource, PaymentResult};
use mtg_forge_rs::mana_payment::{GreedyManaResolver, ManaPaymentResolver, SimpleManaResolver};

#[test]
fn test_mana_color_conversion() {
    assert_eq!(ManaColor::White.to_char(), 'W');
    assert_eq!(ManaColor::Blue.to_char(), 'U');
    assert_eq!(ManaColor::from_char('R'), Some(ManaColor::Red));
    assert_eq!(ManaColor::from_char('g'), Some(ManaColor::Green));
    assert_eq!(ManaColor::from_char('X'), None);
}

#[test]
fn test_simple_resolver_exact_match() {
    let resolver = SimpleManaResolver::new();

    let sources = vec![
        ManaSource {
            card_id: CardId::new(1),
            production: ManaProduction::free(ManaProductionKind::Fixed(ManaColor::Red)),
            is_tapped: false,
            has_summoning_sickness: false,
        },
        ManaSource {
            card_id: CardId::new(2),
            production: ManaProduction::free(ManaProductionKind::Fixed(ManaColor::Red)),
            is_tapped: false,
            has_summoning_sickness: false,
        },
        ManaSource {
            card_id: CardId::new(3),
            production: ManaProduction::free(ManaProductionKind::Fixed(ManaColor::Red)),
            is_tapped: false,
            has_summoning_sickness: false,
        },
    ];

    // Cost: 2R requires 1 red + 2 generic (can pay with 3 red)
    let cost = ManaCost {
        generic: 2,
        white: 0,
        blue: 0,
        black: 0,
        red: 1,
        green: 0,
        colorless: 0,
        x_count: 0,
    };

    assert!(resolver.can_pay(&cost, &sources));

    let tap_order = resolver.compute_tap_order(&cost, &sources).unwrap();
    assert_eq!(tap_order.len(), 3); // Should tap all 3 mountains
}

#[test]
fn test_simple_resolver_insufficient_color() {
    let resolver = SimpleManaResolver::new();

    let sources = vec![ManaSource {
        card_id: CardId::new(1),
        production: ManaProduction::free(ManaProductionKind::Fixed(ManaColor::Red)),
        is_tapped: false,
        has_summoning_sickness: false,
    }];

    // Cost: 1U requires blue mana
    let cost = ManaCost {
        generic: 1,
        white: 0,
        blue: 1,
        black: 0,
        red: 0,
        green: 0,
        colorless: 0,
        x_count: 0,
    };

    assert!(!resolver.can_pay(&cost, &sources));
    assert!(resolver.compute_tap_order(&cost, &sources).is_none());
}

#[test]
fn test_simple_resolver_rejects_complex_sources() {
    let resolver = SimpleManaResolver::new();

    let sources = vec![
        ManaSource {
            card_id: CardId::new(1),
            production: ManaProduction::free(ManaProductionKind::Fixed(ManaColor::Red)),
            is_tapped: false,
            has_summoning_sickness: false,
        },
        ManaSource {
            card_id: CardId::new(2),
            production: ManaProduction::free(ManaProductionKind::AnyColor),
            is_tapped: false,
            has_summoning_sickness: false,
        },
    ];

    let cost = ManaCost {
        generic: 1,
        white: 0,
        blue: 0,
        black: 0,
        red: 0,
        green: 0,
        colorless: 0,
        x_count: 0,
    };

    // SimpleManaResolver conservatively rejects when complex sources present
    assert!(!resolver.can_pay(&cost, &sources));
}

#[test]
fn test_greedy_resolver_dual_land() {
    let resolver = GreedyManaResolver::new();

    // Taiga (dual land: R or G)
    let sources = vec![
        ManaSource {
            card_id: CardId::new(1),
            production: ManaProduction::free(ManaProductionKind::Choice(vec![ManaColor::Red, ManaColor::Green])),
            is_tapped: false,
            has_summoning_sickness: false,
        },
        ManaSource {
            card_id: CardId::new(2),
            production: ManaProduction::free(ManaProductionKind::Fixed(ManaColor::Red)),
            is_tapped: false,
            has_summoning_sickness: false,
        },
    ];

    // Cost: 1R
    let cost = ManaCost {
        generic: 1,
        white: 0,
        blue: 0,
        black: 0,
        red: 1,
        green: 0,
        colorless: 0,
        x_count: 0,
    };

    assert!(resolver.can_pay(&cost, &sources));

    let tap_order = resolver.compute_tap_order(&cost, &sources).unwrap();
    assert_eq!(tap_order.len(), 2);
    // Should prefer Mountain (card 2) for R, then Taiga for generic
    assert_eq!(tap_order[0], CardId::new(2)); // Mountain for R
    assert_eq!(tap_order[1], CardId::new(1)); // Taiga for generic
}

#[test]
fn test_greedy_resolver_city_of_brass() {
    let resolver = GreedyManaResolver::new();

    // City of Brass (any color)
    let sources = vec![ManaSource {
        card_id: CardId::new(1),
        production: ManaProduction::free(ManaProductionKind::AnyColor),
        is_tapped: false,
        has_summoning_sickness: false,
    }];

    // Cost: 1R
    let cost = ManaCost {
        generic: 0,
        white: 0,
        blue: 0,
        black: 0,
        red: 1,
        green: 0,
        colorless: 0,
        x_count: 0,
    };

    assert!(resolver.can_pay(&cost, &sources));
    let tap_order = resolver.compute_tap_order(&cost, &sources).unwrap();
    assert_eq!(tap_order.len(), 1);
}

#[test]
fn test_greedy_resolver_prefers_specific_sources() {
    let resolver = GreedyManaResolver::new();

    let sources = vec![
        ManaSource {
            card_id: CardId::new(1),
            production: ManaProduction::free(ManaProductionKind::AnyColor), // City of Brass
            is_tapped: false,
            has_summoning_sickness: false,
        },
        ManaSource {
            card_id: CardId::new(2),
            production: ManaProduction::free(ManaProductionKind::Choice(vec![ManaColor::Red, ManaColor::Green])), // Taiga
            is_tapped: false,
            has_summoning_sickness: false,
        },
        ManaSource {
            card_id: CardId::new(3),
            production: ManaProduction::free(ManaProductionKind::Fixed(ManaColor::Red)), // Mountain
            is_tapped: false,
            has_summoning_sickness: false,
        },
    ];

    // Cost: R (just one red)
    let cost = ManaCost {
        generic: 0,
        white: 0,
        blue: 0,
        black: 0,
        red: 1,
        green: 0,
        colorless: 0,
        x_count: 0,
    };

    let tap_order = resolver.compute_tap_order(&cost, &sources).unwrap();
    assert_eq!(tap_order.len(), 1);
    // Should prefer Mountain (most specific) over Taiga or City of Brass
    assert_eq!(tap_order[0], CardId::new(3));
}

#[test]
fn test_greedy_resolver_multicolor_cost() {
    let resolver = GreedyManaResolver::new();

    let sources = vec![
        ManaSource {
            card_id: CardId::new(1),
            production: ManaProduction::free(ManaProductionKind::Fixed(ManaColor::Red)),
            is_tapped: false,
            has_summoning_sickness: false,
        },
        ManaSource {
            card_id: CardId::new(2),
            production: ManaProduction::free(ManaProductionKind::Fixed(ManaColor::Green)),
            is_tapped: false,
            has_summoning_sickness: false,
        },
        ManaSource {
            card_id: CardId::new(3),
            production: ManaProduction::free(ManaProductionKind::Choice(vec![ManaColor::Red, ManaColor::Green])), // Taiga
            is_tapped: false,
            has_summoning_sickness: false,
        },
    ];

    // Cost: 1RG
    let cost = ManaCost {
        generic: 1,
        white: 0,
        blue: 0,
        black: 0,
        red: 1,
        green: 1,
        colorless: 0,
        x_count: 0,
    };

    assert!(resolver.can_pay(&cost, &sources));
    let tap_order = resolver.compute_tap_order(&cost, &sources).unwrap();
    assert_eq!(tap_order.len(), 3);
}

#[test]
fn test_greedy_resolver_insufficient_mana() {
    let resolver = GreedyManaResolver::new();

    let sources = vec![ManaSource {
        card_id: CardId::new(1),
        production: ManaProduction::free(ManaProductionKind::Fixed(ManaColor::Red)),
        is_tapped: false,
        has_summoning_sickness: false,
    }];

    // Cost: 1UU (needs blue)
    let cost = ManaCost {
        generic: 1,
        white: 0,
        blue: 2,
        black: 0,
        red: 0,
        green: 0,
        colorless: 0,
        x_count: 0,
    };

    assert!(!resolver.can_pay(&cost, &sources));
    assert!(resolver.compute_tap_order(&cost, &sources).is_none());
}

// Tests for PaymentResult::Maybe behavior

#[test]
fn test_simple_resolver_returns_maybe_for_complex_sources() {
    let resolver = SimpleManaResolver::new();

    let sources = vec![
        ManaSource {
            card_id: CardId::new(1),
            production: ManaProduction::free(ManaProductionKind::Fixed(ManaColor::Red)),
            is_tapped: false,
            has_summoning_sickness: false,
        },
        ManaSource {
            card_id: CardId::new(2),
            production: ManaProduction::free(ManaProductionKind::AnyColor), // Complex source
            is_tapped: false,
            has_summoning_sickness: false,
        },
    ];

    let cost = ManaCost {
        generic: 1,
        white: 0,
        blue: 0,
        black: 0,
        red: 0,
        green: 0,
        colorless: 0,
        x_count: 0,
    };

    // SimpleManaResolver returns Maybe when it encounters complex sources
    let result = resolver.check_payment(&cost, &sources);
    assert_eq!(result, PaymentResult::Maybe);

    // can_pay treats Maybe as No (pessimistic)
    assert!(!resolver.can_pay(&cost, &sources));
}

#[test]
fn test_payment_result_yes_returns_tap_order() {
    let resolver = SimpleManaResolver::new();

    let sources = vec![ManaSource {
        card_id: CardId::new(1),
        production: ManaProduction::free(ManaProductionKind::Fixed(ManaColor::Red)),
        is_tapped: false,
        has_summoning_sickness: false,
    }];

    let cost = ManaCost {
        generic: 0,
        white: 0,
        blue: 0,
        black: 0,
        red: 1,
        green: 0,
        colorless: 0,
        x_count: 0,
    };

    let result = resolver.check_payment(&cost, &sources);
    match result {
        PaymentResult::Yes(tap_order) => {
            assert_eq!(tap_order.len(), 1);
            assert_eq!(tap_order[0], CardId::new(1));
        }
        _ => panic!("Expected PaymentResult::Yes, got {:?}", result),
    }
}

#[test]
fn test_payment_result_no_for_insufficient_mana() {
    let resolver = SimpleManaResolver::new();

    let sources = vec![ManaSource {
        card_id: CardId::new(1),
        production: ManaProduction::free(ManaProductionKind::Fixed(ManaColor::Red)),
        is_tapped: false,
        has_summoning_sickness: false,
    }];

    // Need 2 red but only have 1
    let cost = ManaCost {
        generic: 0,
        white: 0,
        blue: 0,
        black: 0,
        red: 2,
        green: 0,
        colorless: 0,
        x_count: 0,
    };

    let result = resolver.check_payment(&cost, &sources);
    assert_eq!(result, PaymentResult::No);
}

#[test]
fn test_greedy_resolver_returns_no_when_provably_impossible() {
    let resolver = GreedyManaResolver::new();

    // Have: 1 Mountain, 1 Taiga
    // Want: 2 blue mana
    // Even though Taiga could theoretically produce mana, it can't produce blue
    let sources = vec![
        ManaSource {
            card_id: CardId::new(1),
            production: ManaProduction::free(ManaProductionKind::Fixed(ManaColor::Red)),
            is_tapped: false,
            has_summoning_sickness: false,
        },
        ManaSource {
            card_id: CardId::new(2),
            production: ManaProduction::free(ManaProductionKind::Choice(vec![ManaColor::Red, ManaColor::Green])),
            is_tapped: false,
            has_summoning_sickness: false,
        },
    ];

    let cost = ManaCost {
        generic: 0,
        white: 0,
        blue: 2,
        black: 0,
        red: 0,
        green: 0,
        colorless: 0,
        x_count: 0,
    };

    // Should return No - provably impossible
    let result = resolver.check_payment(&cost, &sources);
    assert_eq!(result, PaymentResult::No);
}

#[test]
fn test_quick_check_returns_maybe_not_yes() {
    let resolver = SimpleManaResolver::new();

    let sources = vec![ManaSource {
        card_id: CardId::new(1),
        production: ManaProduction::free(ManaProductionKind::Fixed(ManaColor::Red)),
        is_tapped: false,
        has_summoning_sickness: false,
    }];

    let cost = ManaCost {
        generic: 0,
        white: 0,
        blue: 0,
        black: 0,
        red: 1,
        green: 0,
        colorless: 0,
        x_count: 0,
    };

    // quick_check never returns Yes, even when payment is possible
    let result = resolver.quick_check(&cost, &sources);
    assert!(matches!(result, PaymentResult::Maybe | PaymentResult::No));
    assert_ne!(result, PaymentResult::Yes(vec![])); // Should not be Yes
}

// Tests for conditional mana sources (sources with activation costs)

#[test]
fn test_mana_production_net_delta() {
    // Free source: Mountain ({T}: Add {R})
    let free_source = ManaProduction::free(ManaProductionKind::Fixed(ManaColor::Red));
    assert_eq!(free_source.net_delta(), 1);

    // Positive delta: Sol Ring ({T}: Add {C}{C}) - produces 2, costs 0 = +2 delta
    // Note: We'll handle Amount$ later, for now each source produces 1
    let free_colorless = ManaProduction::free(ManaProductionKind::Colorless);
    assert_eq!(free_colorless.net_delta(), 1);

    // Zero delta: Mana Prism ({1}, {T}: Add one mana of any color) - produces 1, costs 1 = 0 delta
    let zero_delta = ManaProduction::with_cost(ManaProductionKind::AnyColor, ManaCost::from_string("1"));
    assert_eq!(zero_delta.net_delta(), 0);

    // Negative delta: Celestial Prism ({2}, {T}: Add one mana of any color) - produces 1, costs 2 = -1 delta
    let negative_delta = ManaProduction::with_cost(ManaProductionKind::AnyColor, ManaCost::from_string("2"));
    assert_eq!(negative_delta.net_delta(), -1);
}

#[test]
fn test_greedy_resolver_conditional_source_positive_delta() {
    let resolver = GreedyManaResolver::new();

    // Hypothetical: A source that costs {1} to produce {2} (net +1)
    // For testing, we'll simulate this with multiple sources:
    // 2 Mountains + 1 Mana Prism (pay {1} to get any color)
    let sources = vec![
        ManaSource {
            card_id: CardId::new(1),
            production: ManaProduction::free(ManaProductionKind::Fixed(ManaColor::Red)),
            is_tapped: false,
            has_summoning_sickness: false,
        },
        ManaSource {
            card_id: CardId::new(2),
            production: ManaProduction::free(ManaProductionKind::Fixed(ManaColor::Red)),
            is_tapped: false,
            has_summoning_sickness: false,
        },
        ManaSource {
            card_id: CardId::new(3),
            production: ManaProduction::with_cost(ManaProductionKind::AnyColor, ManaCost::from_string("1")), // Zero delta
            is_tapped: false,
            has_summoning_sickness: false,
        },
    ];

    // With 2 free sources (delta +2) and 1 zero-delta source (delta 0), total delta = +2
    // We should be able to pay for costs up to 2

    // Cost: 1R should be possible (even though we'd need to use the conditional source)
    let cost = ManaCost {
        generic: 1,
        white: 0,
        blue: 0,
        black: 0,
        red: 1,
        green: 0,
        colorless: 0,
        x_count: 0,
    };

    // The bounds check should not reject this (total delta = 2, needed = 2)
    let result = resolver.check_payment(&cost, &sources);
    // Greedy might not find a solution (it doesn't use conditional sources yet),
    // but it shouldn't return No due to bounds
    assert_ne!(result, PaymentResult::No);
}

#[test]
fn test_greedy_resolver_conditional_source_negative_delta() {
    let resolver = GreedyManaResolver::new();

    // Celestial Prism: pay {2} to get any color (net -1 delta)
    let sources = vec![
        ManaSource {
            card_id: CardId::new(1),
            production: ManaProduction::free(ManaProductionKind::Fixed(ManaColor::Red)),
            is_tapped: false,
            has_summoning_sickness: false,
        },
        ManaSource {
            card_id: CardId::new(2),
            production: ManaProduction::with_cost(ManaProductionKind::AnyColor, ManaCost::from_string("2")), // Negative delta (-1)
            is_tapped: false,
            has_summoning_sickness: false,
        },
    ];

    // With 1 free source (delta +1) and 1 negative-delta source (delta -1), total delta = 0
    // We can only pay for costs with total = 0

    // Cost: 1 should be impossible (delta = 0, needed = 1)
    let cost = ManaCost {
        generic: 1,
        white: 0,
        blue: 0,
        black: 0,
        red: 0,
        green: 0,
        colorless: 0,
        x_count: 0,
    };

    let result = resolver.check_payment(&cost, &sources);
    assert_eq!(result, PaymentResult::No); // Should be provably impossible
}

#[test]
fn test_greedy_resolver_color_bounds_ignore_costs() {
    let resolver = GreedyManaResolver::new();

    // Signpost Scarecrow: {2}: Add one mana of any color
    // Even though it costs {2}, for color bounds checking we treat it as free
    let sources = vec![ManaSource {
        card_id: CardId::new(1),
        production: ManaProduction::with_cost(ManaProductionKind::AnyColor, ManaCost::from_string("2")),
        is_tapped: false,
        has_summoning_sickness: false,
    }];

    // Cost: {R} (need 1 red mana)
    let cost = ManaCost {
        generic: 0,
        white: 0,
        blue: 0,
        black: 0,
        red: 1,
        green: 0,
        colorless: 0,
        x_count: 0,
    };

    // The color bounds check should pass (we can produce red, ignoring cost)
    // But the total delta check should fail (delta = -1, needed = 1)
    let result = resolver.check_payment(&cost, &sources);
    assert_eq!(result, PaymentResult::No); // Fails on total delta, not color
}

#[test]
fn test_quick_check_with_conditional_sources() {
    let resolver = GreedyManaResolver::new();

    let sources = vec![
        ManaSource {
            card_id: CardId::new(1),
            production: ManaProduction::free(ManaProductionKind::Fixed(ManaColor::Red)),
            is_tapped: false,
            has_summoning_sickness: false,
        },
        ManaSource {
            card_id: CardId::new(2),
            production: ManaProduction::with_cost(ManaProductionKind::AnyColor, ManaCost::from_string("1")), // Zero delta
            is_tapped: false,
            has_summoning_sickness: false,
        },
    ];

    // Total delta = 1 (one free + one zero-delta)
    let cost = ManaCost {
        generic: 2,
        white: 0,
        blue: 0,
        black: 0,
        red: 0,
        green: 0,
        colorless: 0,
        x_count: 0,
    };

    // quick_check should return No (delta = 1, needed = 2)
    let result = resolver.quick_check(&cost, &sources);
    assert_eq!(result, PaymentResult::No);
}
