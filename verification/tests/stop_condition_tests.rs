use mtg_forge_rs::ids::EntityId;
use mtg_forge_rs::stop_condition::{StopCondition, StopPlayer};

#[test]
fn test_parse_stop_condition() {
    // Simple format - just a number means "both"
    let cond = StopCondition::parse("5").unwrap();
    assert!(matches!(cond.player, StopPlayer::Both));
    assert_eq!(cond.choice_count, 5);

    // Extended format - with player specification
    let cond = StopCondition::parse("1:p1").unwrap();
    assert!(matches!(cond.player, StopPlayer::P1));
    assert_eq!(cond.choice_count, 1);

    let cond = StopCondition::parse("10:p2").unwrap();
    assert!(matches!(cond.player, StopPlayer::P2));
    assert_eq!(cond.choice_count, 10);
}

#[test]
fn test_parse_invalid_format() {
    assert!(StopCondition::parse("invalid").is_err());
    assert!(StopCondition::parse("5:both").is_err()); // "both" is not supported, use just "5"
    assert!(StopCondition::parse("5:p3").is_err());
    assert!(StopCondition::parse("5:p1:extra").is_err());
}

#[test]
fn test_applies_to() {
    let p1_id = EntityId::new(1);
    let p2_id = EntityId::new(2);

    let cond_p1 = StopCondition::new(StopPlayer::P1, 5);
    assert!(cond_p1.applies_to(p1_id, p1_id));
    assert!(!cond_p1.applies_to(p1_id, p2_id));

    let cond_p2 = StopCondition::new(StopPlayer::P2, 5);
    assert!(!cond_p2.applies_to(p1_id, p1_id));
    assert!(cond_p2.applies_to(p1_id, p2_id));

    let cond_both = StopCondition::new(StopPlayer::Both, 5);
    assert!(cond_both.applies_to(p1_id, p1_id));
    assert!(cond_both.applies_to(p1_id, p2_id));
}

#[test]
fn stop_condition_error_messages() {
    match StopCondition::parse("abc") {
        Err(m) => assert_eq!(m, "invalid choice count 'abc'"),
        Ok(_) => panic!("expected an error"),
    }
    match StopCondition::parse("5:p3") {
        Err(m) => assert_eq!(m, "invalid player 'p3' (expected: p1 or p2)"),
        Ok(_) => panic!("expected an error"),
    }
    match StopCondition::parse("1:p1:x") {
        Err(m) => assert_eq!(m, "invalid format '1:p1:x' (expected: <NUM> or <NUM>:[p1|p2])"),
        Ok(_) => panic!("expected an error"),
    }
    match StopCondition::parse("x:p1") {
        Err(m) => assert_eq!(m, "invalid choice count 'x'"),
        Ok(_) => panic!("expected an error"),
    }
}

#[test]
fn stop_condition_count_forms() {
    // A leading plus sign is accepted, as by `str::parse`.
    assert_eq!(StopCondition::parse("+7").unwrap().choice_count, 7);
    // An empty count, a minus sign or spaces are refused.
    assert!(StopCondition::parse("").is_err());
    assert!(StopCondition::parse(":p1").is_err());
    assert!(StopCondition::parse("-1").is_err());
    assert!(StopCondition::parse(" 3").is_err());
    assert_eq!(StopCondition::parse("0").unwrap().choice_count, 0);
}

#[test]
fn stop_condition_reads_written_counts() {
    for n in [0usize, 7, 42, 1000] {
        assert_eq!(StopCondition::parse(&n.to_string()).unwrap().choice_count, n);
        let p2 = StopCondition::parse(&format!("{}:p2", n)).unwrap();
        assert_eq!(p2.choice_count, n);
        assert!(matches!(p2.player, StopPlayer::P2));
    }
}

#[test]
fn filtered_choice_count_and_stop() {
    let p1 = EntityId::new(1);
    let p2 = EntityId::new(2);
    let choosers = vec![p1, p2, p1, p1, p2];
    let both = StopCondition::parse("3").unwrap();
    let only1 = StopCondition::parse("3:p1").unwrap();
    let only2 = StopCondition::parse("3:p2").unwrap();
    assert_eq!(both.count_filtered_choices(p1, &choosers, 0), 5);
    assert_eq!(only1.count_filtered_choices(p1, &choosers, 0), 3);
    assert_eq!(only2.count_filtered_choices(p1, &choosers, 0), 2);
    assert_eq!(only1.count_filtered_choices(p1, &choosers, 1), 2);
    assert_eq!(only2.count_filtered_choices(p1, &choosers, 7), 0);
    assert!(only1.should_stop(p1, p1, &choosers, 0));
    assert!(!only1.should_stop(p1, p2, &choosers, 0));
    assert!(!only1.should_stop(p1, p1, &choosers, 1));
    assert!(!only2.should_stop(p1, p2, &choosers, 0));
    assert!(both.should_stop(p1, p2, &choosers, 2));
}
