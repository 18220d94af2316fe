use mtg_forge_rs::card_loader::CardLoader;
use mtg_forge_rs::database::{card_name_to_path, CardDatabase};
use std::path::PathBuf;

fn def(name: &str) -> mtg_forge_rs::card_loader::CardDefinition {
    CardLoader::parse(&format!("Name:{}\nManaCost:R\nTypes:Instant\n", name)).unwrap()
}

#[test]
fn test_empty_database() {
    let db = CardDatabase::new();
    assert_eq!(db.len(), 0);
    assert!(db.is_empty());
}

#[test]
fn test_manual_add() {
    let mut db = CardDatabase::new();
    db.add_card(def("Lightning Bolt"));
    assert_eq!(db.len(), 1);
    assert!(!db.is_empty());
    assert!(db.contains("Lightning Bolt"));
    assert!(db.contains("lightning bolt"));
    assert!(db.contains("LIGHTNING BOLT"));
    assert!(!db.contains("Shock"));
    let card = db.get_card("lightning BOLT").unwrap();
    assert_eq!(card.name, "Lightning Bolt");
}

#[test]
fn database_replaces_same_name() {
    let mut db = CardDatabase::new();
    db.add_card(def("Shock"));
    db.add_card(def("Opt"));
    let mut other = def("SHOCK");
    other.oracle = "second".to_string();
    db.add_card(other);
    assert_eq!(db.len(), 2);
    assert_eq!(db.get_card("shock").unwrap().oracle, "second");
    assert_eq!(db.get_card("opt").unwrap().name, "Opt");
}

#[test]
fn test_card_name_to_path() {
    let cardsfolder = "cardsfolder";

    let path = card_name_to_path(cardsfolder, "Lightning Bolt");
    assert_eq!(PathBuf::from(path), PathBuf::from("cardsfolder/l/lightning_bolt.txt"));

    let path = card_name_to_path(cardsfolder, "Black Lotus");
    assert_eq!(PathBuf::from(path), PathBuf::from("cardsfolder/b/black_lotus.txt"));

    // Test special character handling
    let path = card_name_to_path(cardsfolder, "All Hallow's Eve");
    assert_eq!(PathBuf::from(path), PathBuf::from("cardsfolder/a/all_hallows_eve.txt"));

    let path = card_name_to_path(cardsfolder, "Nevinyrral's Disk");
    assert_eq!(PathBuf::from(path), PathBuf::from("cardsfolder/n/nevinyrrals_disk.txt"));

    let path = card_name_to_path(cardsfolder, "Mishra's Factory");
    assert_eq!(PathBuf::from(path), PathBuf::from("cardsfolder/m/mishras_factory.txt"));
}

#[test]
fn card_path_text_exact() {
    assert_eq!(card_name_to_path("cards", "Lightning Bolt"), "cards/l/lightning_bolt.txt");
    assert_eq!(card_name_to_path("cards/", "Black Lotus"), "cards/b/black_lotus.txt");
    assert_eq!(card_name_to_path("", "Forest"), "f/forest.txt");
    assert_eq!(card_name_to_path("cards", "Jötun Grunt"), "cards/j/jötun_grunt.txt");
}

#[test]
fn card_path_drops_and_replaces_marks() {
    assert_eq!(card_name_to_path("c", "Look at Me, I'm the DCI!"), "c/l/look_at_me_im_the_dci.txt");
    assert_eq!(card_name_to_path("c", "Borrowing 100,000 Arrows"), "c/b/borrowing_100000_arrows.txt");
    assert_eq!(card_name_to_path("c", "Will-o'-the-Wisp"), "c/w/will_o_the_wisp.txt");
    assert_eq!(card_name_to_path("c", "Question?: Yes"), "c/q/question_yes.txt");
}

#[test]
fn card_path_of_empty_stem() {
    assert_eq!(card_name_to_path("cards", ""), "cards/_/.txt");
    assert_eq!(card_name_to_path("cards", "'!?"), "cards/_/.txt");
}
