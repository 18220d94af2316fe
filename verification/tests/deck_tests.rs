use mtg_forge_rs::deck::DeckLoader;
use mtg_forge_rs::error::MtgError;

#[test]
fn test_parse_simple_deck() {
    let content = r#"
[metadata]
Name=Test Deck

[Main]
20 Mountain
40 Lightning Bolt

[Sideboard]
15 Shock
"#;

    let deck = DeckLoader::parse(content).unwrap();
    assert_eq!(deck.main_deck.len(), 2);
    assert_eq!(deck.total_cards(), 60);

    assert_eq!(deck.main_deck[0].card_name, "Mountain");
    assert_eq!(deck.main_deck[0].count, 20);

    assert_eq!(deck.main_deck[1].card_name, "Lightning Bolt");
    assert_eq!(deck.main_deck[1].count, 40);

    assert_eq!(deck.sideboard.len(), 1);
    assert_eq!(deck.sideboard[0].card_name, "Shock");
    assert_eq!(deck.sideboard[0].count, 15);
}

#[test]
fn deck_set_codes_comments_and_bad_counts() {
    let content = "# my deck\r\n4 Llanowar Elves|M19\r\n300 Forest\r\nfour Island\r\n2  Giant Growth \r\n";
    let deck = DeckLoader::parse(content).unwrap();
    assert_eq!(deck.main_deck.len(), 2);
    assert_eq!(deck.main_deck[0].card_name, "Llanowar Elves");
    assert_eq!(deck.main_deck[0].count, 4);
    assert_eq!(deck.main_deck[1].card_name, "Giant Growth");
    assert_eq!(deck.main_deck[1].count, 2);
    assert_eq!(deck.sideboard.len(), 0);
    assert_eq!(deck.total_cards(), 6);
    assert_eq!(deck.sideboard_size(), 0);
}

#[test]
fn deck_without_main_entries_is_refused() {
    match DeckLoader::parse("[Sideboard]\n3 Shock\n") {
        Err(MtgError::InvalidDeckFormat(m)) => assert_eq!(m, "Empty deck"),
        _ => panic!("expected an invalid deck"),
    }
    assert!(DeckLoader::parse("").is_err());
}
