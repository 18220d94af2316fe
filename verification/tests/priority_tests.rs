use mtg_forge_rs::card::{Effect, SpellAbility, TargetRef};
use mtg_forge_rs::ids::EntityId;
use mtg_forge_rs::mana::ManaCost;
use mtg_forge_rs::priority::{
    fix_effect, priority_start, priority_step, PriorityAction, PriorityEvent, MAX_ACTIONS_PER_PRIORITY,
};

#[test]
fn round_of_passes_with_empty_stack() {
    let a = EntityId::new(0);
    let b = EntityId::new(1);
    let (s, act) = priority_start(a, b);
    assert_eq!(act, PriorityAction::Ask(a));
    let (s, act) = priority_step(&s, PriorityEvent::Chose(None));
    assert_eq!(act, PriorityAction::Ask(b));
    let (s, act) = priority_step(&s, PriorityEvent::Chose(None));
    assert_eq!(act, PriorityAction::CheckStack);
    let (_, act) = priority_step(&s, PriorityEvent::StackChecked(true));
    assert_eq!(act, PriorityAction::EndRound);
}

#[test]
fn playing_resets_passes_and_stack_resolves() {
    let a = EntityId::new(0);
    let b = EntityId::new(1);
    let bolt = SpellAbility::CastSpell { card_id: EntityId::new(9) };
    let (s, _) = priority_start(a, b);
    let (s, act) = priority_step(&s, PriorityEvent::Chose(None));
    assert_eq!(act, PriorityAction::Ask(b));
    let (s, act) = priority_step(&s, PriorityEvent::Chose(Some(bolt)));
    assert_eq!(act, PriorityAction::Play(b, bolt));
    assert_eq!(s.consecutive_passes, 0);
    let (s, act) = priority_step(&s, PriorityEvent::Played);
    assert_eq!(act, PriorityAction::Ask(a));
    let (s, _) = priority_step(&s, PriorityEvent::Chose(None));
    let (s, act) = priority_step(&s, PriorityEvent::Chose(None));
    assert_eq!(act, PriorityAction::CheckStack);
    let (s, act) = priority_step(&s, PriorityEvent::StackChecked(false));
    assert_eq!(act, PriorityAction::ResolveTop);
    let (s, act) = priority_step(&s, PriorityEvent::Resolved);
    assert_eq!(act, PriorityAction::Ask(a));
    assert_eq!(s.action_count, 1);
}

#[test]
fn endless_round_is_stopped() {
    let a = EntityId::new(0);
    let b = EntityId::new(1);
    let land = SpellAbility::PlayLand { card_id: EntityId::new(3) };
    let (mut s, _) = priority_start(a, b);
    let mut asks = 1;
    loop {
        let (s1, _) = priority_step(&s, PriorityEvent::Chose(Some(land)));
        let (s2, act) = priority_step(&s1, PriorityEvent::Played);
        s = s2;
        if act == PriorityAction::TooManyActions {
            break;
        }
        asks += 1;
    }
    assert_eq!(asks, MAX_ACTIONS_PER_PRIORITY);
}

#[test]
fn placeholders_filled_in() {
    let me = EntityId::new(4);
    let zero = EntityId::new(0);
    let t = [EntityId::new(8)];
    assert_eq!(
        fix_effect(&Effect::GainLife { player: zero, amount: 3 }, me, &t),
        Effect::GainLife { player: me, amount: 3 }
    );
    assert_eq!(
        fix_effect(&Effect::DrawCards { player: EntityId::new(2), count: 1 }, me, &t),
        Effect::DrawCards { player: EntityId::new(2), count: 1 }
    );
    assert_eq!(fix_effect(&Effect::TapPermanent { target: zero }, me, &t), Effect::TapPermanent { target: t[0] });
    assert_eq!(fix_effect(&Effect::TapPermanent { target: zero }, me, &[]), Effect::TapPermanent { target: zero });
    let mana = ManaCost::from_string("G");
    assert_eq!(fix_effect(&Effect::AddMana { player: zero, mana }, me, &[]), Effect::AddMana { player: me, mana });
    let dmg = Effect::DealDamage { target: TargetRef::NoTarget, amount: 1 };
    assert_eq!(fix_effect(&dmg, me, &t), dmg);
}
