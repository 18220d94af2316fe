//! A round of priority: who is asked next, when the stack resolves, and when
//! the round ends.
//!
//! The active player is asked first. A player who passes hands priority to
//! the other; a player who plays something resets the count of passes and
//! hands priority on too. When both players have passed in a row the stack's
//! top resolves and the active player is asked again; with an empty stack the
//! round ends. A round that asks more than [`MAX_ACTIONS_PER_PRIORITY`] times
//! without both players passing is stopped as a likely endless loop.
//!
//! The decisions are a function from state and event to the next state and
//! the action to take; the caller asks the controllers, plays what they chose,
//! looks at the stack and resolves it.

use vstd::prelude::*;
use crate::card::{Effect, SpellAbility};
use crate::ids::{CardId, PlayerId};

verus! {

/// The most times players are asked within one round between resolutions.
pub const MAX_ACTIONS_PER_PRIORITY: usize = 1000;

/// Where a round of priority stands.
#[derive(Debug, Clone, Copy, PartialEq, Eq, Structural)]
pub struct PriorityState {
    pub active_player: PlayerId,
    pub non_active_player: PlayerId,
    /// Who holds priority.
    pub current_priority: PlayerId,
    /// Passes in a row.
    pub consecutive_passes: usize,
    /// Times a player was asked since the round (or the last resolution) began.
    pub action_count: usize,
}

/// What happened since the last step.
#[derive(Debug, Clone, Copy, PartialEq, Eq, Structural)]
pub enum PriorityEvent {
    /// The player asked chose an action, or none (passing).
    Chose(Option<SpellAbility>),
    /// The chosen action was played.
    Played,
    /// The stack was looked at: empty or not.
    StackChecked(bool),
    /// The stack's top resolved.
    Resolved,
}

/// What to do next.
#[derive(Debug, Clone, Copy, PartialEq, Eq, Structural)]
pub enum PriorityAction {
    /// Ask this player for an action (with no action available, the answer is a pass).
    Ask(PlayerId),
    /// Play this player's chosen action.
    Play(PlayerId, SpellAbility),
    /// Both players passed: look at the stack.
    CheckStack,
    /// Resolve the top of the stack.
    ResolveTop,
    /// The round is over.
    EndRound,
    /// Too many actions without both players passing: stop with an error.
    TooManyActions,
}

/// The other player of the two.
pub open spec fn other(s: PriorityState, p: PlayerId) -> PlayerId {
    if p == s.active_player {
        s.non_active_player
    } else {
        s.active_player
    }
}

/// The next ask: counted, or refused past the limit.
pub open spec fn ask(s: PriorityState) -> (PriorityState, PriorityAction) {
    if s.action_count + 1 > MAX_ACTIONS_PER_PRIORITY {
        (s, PriorityAction::TooManyActions)
    } else {
        (PriorityState { action_count: (s.action_count + 1) as usize, ..s }, PriorityAction::Ask(s.current_priority))
    }
}

/// One step of a round of priority.
pub open spec fn spec_priority_step(s: PriorityState, e: PriorityEvent) -> (PriorityState, PriorityAction) {
    match e {
        PriorityEvent::Chose(None) => {
            let s1 = PriorityState {
                consecutive_passes: (s.consecutive_passes + 1) as usize,
                current_priority: other(s, s.current_priority),
                ..s
            };
            if s1.consecutive_passes >= 2 {
                (s1, PriorityAction::CheckStack)
            } else {
                ask(s1)
            }
        },
        PriorityEvent::Chose(Some(a)) => (
            PriorityState { consecutive_passes: 0, current_priority: other(s, s.current_priority), ..s },
            PriorityAction::Play(s.current_priority, a),
        ),
        PriorityEvent::Played => ask(s),
        PriorityEvent::StackChecked(empty) => if empty {
            (s, PriorityAction::EndRound)
        } else {
            (
                PriorityState {
                    current_priority: s.active_player,
                    consecutive_passes: 0,
                    action_count: 0,
                    ..s
                },
                PriorityAction::ResolveTop,
            )
        },
        PriorityEvent::Resolved => ask(s),
    }
}

/// The start of a round: the active player holds priority and is asked.
pub open spec fn spec_priority_start(active: PlayerId, non_active: PlayerId) -> (PriorityState, PriorityAction) {
    ask(
        PriorityState {
            active_player: active,
            non_active_player: non_active,
            current_priority: active,
            consecutive_passes: 0,
            action_count: 0,
        },
    )
}

/// A state that the steps can reach: passes and asks stay within their
/// bounds. A choice is only ever asked for with fewer than two passes in a
/// row.
pub open spec fn priority_state_ok(s: PriorityState) -> bool {
    s.consecutive_passes <= 2 && s.action_count <= MAX_ACTIONS_PER_PRIORITY
}

fn ask_exec(s: PriorityState) -> (r: (PriorityState, PriorityAction))
    requires
        s.action_count <= MAX_ACTIONS_PER_PRIORITY,
    ensures
        r == ask(s),
{
    if s.action_count >= MAX_ACTIONS_PER_PRIORITY {
        (s, PriorityAction::TooManyActions)
    } else {
        (PriorityState { action_count: s.action_count + 1, ..s }, PriorityAction::Ask(s.current_priority))
    }
}

/// The start of a round of priority.
pub fn priority_start(active: PlayerId, non_active: PlayerId) -> (r: (PriorityState, PriorityAction))
    ensures
        r == spec_priority_start(active, non_active),
        priority_state_ok(r.0),
{
    ask_exec(
        PriorityState {
            active_player: active,
            non_active_player: non_active,
            current_priority: active,
            consecutive_passes: 0,
            action_count: 0,
        },
    )
}

/// One step of a round of priority: the next state and what to do.
pub fn priority_step(state: &PriorityState, event: PriorityEvent) -> (r: (PriorityState, PriorityAction))
    requires
        priority_state_ok(*state),
        event is Chose ==> state.consecutive_passes < 2,
    ensures
        r == spec_priority_step(*state, event),
        priority_state_ok(r.0),
{
    let s = *state;
    let other_player = if s.current_priority == s.active_player {
        s.non_active_player
    } else {
        s.active_player
    };
    match event {
        PriorityEvent::Chose(None) => {
            if s.consecutive_passes + 1 >= 2 {
                (
                    PriorityState {
                        consecutive_passes: s.consecutive_passes + 1,
                        current_priority: other_player,
                        ..s
                    },
                    PriorityAction::CheckStack,
                )
            } else {
                ask_exec(
                    PriorityState { consecutive_passes: s.consecutive_passes + 1, current_priority: other_player, ..s },
                )
            }
        },
        PriorityEvent::Chose(Some(a)) => (
            PriorityState { consecutive_passes: 0, current_priority: other_player, ..s },
            PriorityAction::Play(s.current_priority, a),
        ),
        PriorityEvent::Played => ask_exec(s),
        PriorityEvent::StackChecked(empty) => {
            if empty {
                (s, PriorityAction::EndRound)
            } else {
                (
                    PriorityState { current_priority: s.active_player, consecutive_passes: 0, action_count: 0, ..s },
                    PriorityAction::ResolveTop,
                )
            }
        },
        PriorityEvent::Resolved => ask_exec(s),
    }
}

} // verus!

verus! {

/// An ability's effect with its placeholders filled in: the placeholder
/// player (id 0) of mana, life and draw effects becomes the activating
/// player, and the placeholder target (id 0) of destroy, tap, untap and pump
/// effects becomes the first chosen target, when one was chosen. Other
/// effects are unchanged.
pub open spec fn fixed_effect(e: Effect, player: PlayerId, targets: Seq<CardId>) -> Effect {
    match e {
        Effect::AddMana { player: p, mana } => if p.value == 0 {
            Effect::AddMana { player, mana }
        } else {
            e
        },
        Effect::GainLife { player: p, amount } => if p.value == 0 {
            Effect::GainLife { player, amount }
        } else {
            e
        },
        Effect::DrawCards { player: p, count } => if p.value == 0 {
            Effect::DrawCards { player, count }
        } else {
            e
        },
        Effect::DestroyPermanent { target } => if target.value == 0 && targets.len() > 0 {
            Effect::DestroyPermanent { target: targets[0] }
        } else {
            e
        },
        Effect::TapPermanent { target } => if target.value == 0 && targets.len() > 0 {
            Effect::TapPermanent { target: targets[0] }
        } else {
            e
        },
        Effect::UntapPermanent { target } => if target.value == 0 && targets.len() > 0 {
            Effect::UntapPermanent { target: targets[0] }
        } else {
            e
        },
        Effect::PumpCreature { target, power_bonus, toughness_bonus } => if target.value == 0 && targets.len() > 0 {
            Effect::PumpCreature { target: targets[0], power_bonus, toughness_bonus }
        } else {
            e
        },
        _ => e,
    }
}

/// An activated ability's effect with its placeholder player and target
/// filled in (see [`fixed_effect`]).
pub fn fix_effect(effect: &Effect, player: PlayerId, targets: &[CardId]) -> (r: Effect)
    ensures
        r == fixed_effect(*effect, player, targets@),
{
    let has_target = targets.len() > 0;
    match effect {
        Effect::AddMana { player: p, mana } => Effect::AddMana { player: if p.value == 0 { player } else { *p }, mana: *mana },
        Effect::GainLife { player: p, amount } => Effect::GainLife {
            player: if p.value == 0 { player } else { *p },
            amount: *amount,
        },
        Effect::DrawCards { player: p, count } => Effect::DrawCards {
            player: if p.value == 0 { player } else { *p },
            count: *count,
        },
        Effect::DestroyPermanent { target } => Effect::DestroyPermanent {
            target: if target.value == 0 && has_target { targets[0] } else { *target },
        },
        Effect::TapPermanent { target } => Effect::TapPermanent {
            target: if target.value == 0 && has_target { targets[0] } else { *target },
        },
        Effect::UntapPermanent { target } => Effect::UntapPermanent {
            target: if target.value == 0 && has_target { targets[0] } else { *target },
        },
        Effect::PumpCreature { target, power_bonus, toughness_bonus } => Effect::PumpCreature {
            target: if target.value == 0 && has_target { targets[0] } else { *target },
            power_bonus: *power_bonus,
            toughness_bonus: *toughness_bonus,
        },
        Effect::DealDamage { target, amount } => Effect::DealDamage { target: *target, amount: *amount },
        Effect::Mill { player: p, count } => Effect::Mill { player: *p, count: *count },
        Effect::CounterSpell { target } => Effect::CounterSpell { target: *target },
    }
}

/// Two passes in a row after an action end the round when the stack is
/// empty: the first pass hands priority to the other player, who is asked;
/// the second asks to look at the stack; an empty stack ends the round.
pub proof fn law_two_passes_end_round(s: PriorityState)
    requires
        s.consecutive_passes == 0,
        s.action_count < MAX_ACTIONS_PER_PRIORITY,
        s.active_player != s.non_active_player,
        s.current_priority == s.active_player || s.current_priority == s.non_active_player,
    ensures
        ({
            let (s1, a1) = spec_priority_step(s, PriorityEvent::Chose(None));
            let (s2, a2) = spec_priority_step(s1, PriorityEvent::Chose(None));
            &&& a1 == PriorityAction::Ask(other(s, s.current_priority))
            &&& a2 == PriorityAction::CheckStack
            &&& s2.current_priority == s.current_priority
            &&& spec_priority_step(s2, PriorityEvent::StackChecked(true)).1 == PriorityAction::EndRound
        }),
{
}

/// After the stack's top resolves the active player is asked again, with no
/// passes counted.
pub proof fn law_resolution_restarts_with_active(s: PriorityState)
    ensures
        ({
            let (s1, a1) = spec_priority_step(s, PriorityEvent::StackChecked(false));
            let (s2, a2) = spec_priority_step(s1, PriorityEvent::Resolved);
            &&& a1 == PriorityAction::ResolveTop
            &&& a2 == PriorityAction::Ask(s.active_player)
            &&& s2.consecutive_passes == 0
        }),
{
}

} // verus!
