use mtg_forge_rs::combat::CombatState;
use mtg_forge_rs::ids::{CardId, PlayerId};

#[test]
fn combat_test_declare_attacker() {
    let mut combat = CombatState::new();
    let attacker = CardId::new(1);
    let defender = PlayerId::new(2);

    combat.declare_attacker(attacker, defender);

    assert!(combat.is_attacking(attacker));
    assert_eq!(combat.get_defending_player(attacker), Some(defender));
    assert!(combat.combat_active);
}

#[test]
fn combat_test_declare_blocker() {
    let mut combat = CombatState::new();
    let attacker1 = CardId::new(1);
    let attacker2 = CardId::new(2);
    let blocker = CardId::new(3);
    let defender = PlayerId::new(4);

    combat.declare_attacker(attacker1, defender);
    combat.declare_attacker(attacker2, defender);

    let attackers_blocked = vec![attacker1, attacker2];
    combat.declare_blocker(blocker, attackers_blocked);

    assert!(combat.is_blocking(blocker));
    assert!(combat.is_blocked(attacker1));
    assert!(combat.is_blocked(attacker2));

    let blockers1 = combat.get_blockers(attacker1);
    assert_eq!(blockers1.len(), 1);
    assert!(blockers1.contains(&blocker));
}

#[test]
fn test_clear_combat() {
    let mut combat = CombatState::new();
    let attacker = CardId::new(1);
    let defender = PlayerId::new(2);

    combat.declare_attacker(attacker, defender);
    assert!(combat.combat_active);

    combat.clear();
    assert!(!combat.is_attacking(attacker));
    assert!(!combat.combat_active);
    assert_eq!(combat.attackers.len(), 0);
}

#[test]
fn test_unblocked_attacker() {
    let mut combat = CombatState::new();
    let attacker = CardId::new(1);
    let defender = PlayerId::new(2);

    combat.declare_attacker(attacker, defender);

    assert!(!combat.is_blocked(attacker));
    assert_eq!(combat.get_blockers(attacker).len(), 0);
}

#[test]
fn combat_lists_are_in_id_order() {
    let mut combat = CombatState::new();
    let defender = PlayerId::new(9);
    combat.declare_attacker(CardId::new(7), defender);
    combat.declare_attacker(CardId::new(3), defender);
    combat.declare_attacker(CardId::new(5), defender);
    combat.declare_attacker(CardId::new(3), PlayerId::new(8));
    assert_eq!(combat.get_attackers(), vec![CardId::new(3), CardId::new(5), CardId::new(7)]);
    assert_eq!(combat.get_defending_player(CardId::new(3)), Some(PlayerId::new(8)));
    combat.declare_blocker(CardId::new(20), vec![CardId::new(5)]);
    combat.declare_blocker(CardId::new(10), vec![CardId::new(5), CardId::new(7)]);
    assert_eq!(combat.get_blockers_list(), vec![CardId::new(10), CardId::new(20)]);
    assert_eq!(combat.get_blockers(CardId::new(5)), vec![CardId::new(20), CardId::new(10)]);
    assert!(!combat.is_blocked(CardId::new(3)));
}
