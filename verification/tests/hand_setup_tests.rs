use mtg_forge_rs::error::MtgError;
use mtg_forge_rs::hand_setup::HandSetup;

#[test]
fn test_parse_hand_setup() {
    // Valid single card
    let setup = HandSetup::parse("Lightning Bolt").unwrap();
    assert_eq!(setup.specific_cards.len(), 1);
    assert_eq!(setup.specific_cards[0], "Lightning Bolt");

    // Valid multiple cards
    let setup = HandSetup::parse("Mountain;Lightning Bolt;Island").unwrap();
    assert_eq!(setup.specific_cards.len(), 3);
    assert_eq!(setup.specific_cards[0], "Mountain");
    assert_eq!(setup.specific_cards[1], "Lightning Bolt");
    assert_eq!(setup.specific_cards[2], "Island");

    // Whitespace handling
    let setup = HandSetup::parse(" Mountain ; Lightning Bolt ").unwrap();
    assert_eq!(setup.specific_cards.len(), 2);
    assert_eq!(setup.specific_cards[0], "Mountain");
    assert_eq!(setup.specific_cards[1], "Lightning Bolt");

    // Maximum 7 cards
    let setup = HandSetup::parse("A;B;C;D;E;F;G").unwrap();
    assert_eq!(setup.specific_cards.len(), 7);
}

#[test]
fn test_parse_hand_setup_errors() {
    // Empty string
    assert!(HandSetup::parse("").is_err());

    // Too many cards
    assert!(HandSetup::parse("A;B;C;D;E;F;G;H").is_err());
}

#[test]
fn hand_setup_error_messages() {
    match HandSetup::parse(" ; ;") {
        Err(MtgError::InvalidAction(m)) => assert_eq!(m, "Hand setup must contain at least one card"),
        _ => panic!("expected an invalid action"),
    }
    match HandSetup::parse("A;B;C;D;E;F;G;H;I;J;K;L") {
        Err(MtgError::InvalidAction(m)) => {
            assert_eq!(m, "Hand setup cannot contain more than 7 cards (got 12)")
        }
        _ => panic!("expected an invalid action"),
    }
}

#[test]
fn hand_setup_skips_empty_names() {
    let setup = HandSetup::parse(";;Forest;\t;Swamp\n").unwrap();
    assert_eq!(setup.specific_cards, vec!["Forest".to_string(), "Swamp".to_string()]);
}

#[test]
fn hand_setup_reads_back_joined_names() {
    let names = vec!["Mountain".to_string(), "Lightning Bolt".to_string(), "Goblin Guide".to_string()];
    let setup = HandSetup::parse(&names.join(";")).unwrap();
    assert_eq!(setup.specific_cards, names);
}
