//! A controller for a human player: what a line typed at a prompt means.
//!
//! Reading the line and printing menus is the caller's part; this module
//! decides what the line asks for.

use vstd::prelude::*;
use crate::ids::{CardId, PlayerId};
use crate::card::SpellAbility;
use crate::text::{chars_of, trim_range, parse_unsigned_in, parse_unsigned, trimmed, str_eq, decimal_string, decimal_text, concat3, concat2, push_str, words, words_in, occurs_at, matches_at};

verus! {

/// Prompts a human player for decisions.
pub struct InteractiveController {
    player_id: PlayerId,
    numeric_choices: bool,
}

/// What a line typed at a choice prompt asks for.
#[derive(Debug, Clone, Copy, PartialEq, Eq, Structural)]
pub enum ChoiceInput {
    /// Show the help text, then prompt again.
    Help,
    /// Show the battlefield, then prompt again.
    ShowBattlefield,
    /// Show the graveyards, then prompt again.
    ShowGraveyard,
    /// Prompt again without a message.
    Reprompt,
    /// Pass (choose nothing).
    Pass,
    /// Choose the option with this index.
    Choice(usize),
    /// Not a valid answer: say so, then prompt again.
    Invalid,
}

/// The reading of a line at a prompt with `num_options` options: with a game
/// view, `?`, `v` and `g` ask for help, the battlefield and the graveyards; an
/// empty line is option 0 when passing is not allowed and asks again when it
/// is; `p` or `pass` pass when allowed; a number below `num_options` chooses
/// that option; anything else is invalid.
pub open spec fn read_choice(line: Seq<char>, num_options: usize, allow_pass: bool, has_view: bool) -> ChoiceInput {
    let t = trimmed(line);
    if has_view && t == "?"@ {
        ChoiceInput::Help
    } else if has_view && t == "v"@ {
        ChoiceInput::ShowBattlefield
    } else if has_view && t == "g"@ {
        ChoiceInput::ShowGraveyard
    } else if t.len() == 0 {
        if !allow_pass {
            ChoiceInput::Choice(0)
        } else {
            ChoiceInput::Reprompt
        }
    } else if allow_pass && (t == "p"@ || t == "pass"@) {
        ChoiceInput::Pass
    } else {
        match parse_unsigned(t, usize::MAX as int) {
            Some(n) => if n < num_options {
                ChoiceInput::Choice(n as usize)
            } else {
                ChoiceInput::Invalid
            },
            None => ChoiceInput::Invalid,
        }
    }
}

/// The message for an invalid answer.
pub open spec fn invalid_choice_message(num_options: nat, allow_pass: bool) -> Seq<char> {
    "Invalid choice. Enter 0-"@ + decimal_text((num_options - 1) as nat) + (if allow_pass {
        " or 'p' to pass."@
    } else {
        "."@
    })
}

impl InteractiveController {
    /// The player this controller decides for.
    pub closed spec fn spec_player(self) -> PlayerId {
        self.player_id
    }

    /// Whether choices are numbered (0 passes, 1 to N pick options).
    pub closed spec fn spec_numeric(self) -> bool {
        self.numeric_choices
    }

    /// A controller with the default choice numbering.
    pub fn new(player_id: PlayerId) -> (r: Self)
        ensures
            r.spec_player() == player_id,
            !r.spec_numeric(),
    {
        InteractiveController { player_id, numeric_choices: false }
    }

    /// A controller with or without numeric choices.
    pub fn with_numeric_choices(player_id: PlayerId, numeric_choices: bool) -> (r: Self)
        ensures
            r.spec_player() == player_id,
            r.spec_numeric() == numeric_choices,
    {
        InteractiveController { player_id, numeric_choices }
    }

    pub fn player_id(&self) -> (r: PlayerId)
        ensures
            r == self.spec_player(),
    {
        self.player_id
    }

    pub fn numeric_choices(&self) -> (r: bool)
        ensures
            r == self.spec_numeric(),
    {
        self.numeric_choices
    }

    /// What a line typed at a prompt asks for.
    pub fn interpret_choice(line: &str, num_options: usize, allow_pass: bool, has_view: bool) -> (r: ChoiceInput)
        ensures
            r == read_choice(line@, num_options, allow_pass, has_view),
    {
        let v = chars_of(line);
        let (a, b) = trim_range(&v, 0, v.len());
        proof {
            assert(v@.subrange(0, v@.len() as int) =~= v@);
        }
        let t = crate::text::substring(line, &v, a, b);
        let ts = t.as_str();
        if has_view && str_eq(ts, "?") {
            return ChoiceInput::Help;
        }
        if has_view && str_eq(ts, "v") {
            return ChoiceInput::ShowBattlefield;
        }
        if has_view && str_eq(ts, "g") {
            return ChoiceInput::ShowGraveyard;
        }
        if a == b {
            return if !allow_pass {
                ChoiceInput::Choice(0)
            } else {
                ChoiceInput::Reprompt
            };
        }
        if allow_pass && (str_eq(ts, "p") || str_eq(ts, "pass")) {
            return ChoiceInput::Pass;
        }
        match parse_unsigned_in(&v, a, b, usize::MAX as u64) {
            Some(n) => if n < num_options as u64 {
                ChoiceInput::Choice(n as usize)
            } else {
                ChoiceInput::Invalid
            },
            None => ChoiceInput::Invalid,
        }
    }

    /// The message shown for an invalid answer.
    pub fn invalid_choice(num_options: usize, allow_pass: bool) -> (r: String)
        requires
            num_options > 0,
        ensures
            r@ == invalid_choice_message(num_options as nat, allow_pass),
    {
        let last = decimal_string(num_options - 1);
        let tail = if allow_pass { " or 'p' to pass." } else { "." };
        concat3("Invalid choice. Enter 0-", last.as_str(), tail)
    }
}

} // verus!

verus! {

/// The options named by the words of a line, in order: a word that reads as a
/// `usize` below the number of options names that option (a word typed twice
/// names it twice); other words are ignored.
pub open spec fn named_options(ws: Seq<Seq<char>>, options: Seq<CardId>) -> Seq<CardId>
    decreases ws.len(),
{
    if ws.len() == 0 {
        Seq::empty()
    } else {
        let rest = named_options(ws.drop_last(), options);
        match parse_unsigned(ws.last(), usize::MAX as int) {
            Some(i) => if i < options.len() {
                rest.push(options[i])
            } else {
                rest
            },
            None => rest,
        }
    }
}

/// As [`named_options`], but an option is taken only while fewer than `cap`
/// have been taken.
pub open spec fn named_options_capped(ws: Seq<Seq<char>>, options: Seq<CardId>, cap: nat) -> Seq<CardId>
    decreases ws.len(),
{
    if ws.len() == 0 {
        Seq::empty()
    } else {
        let rest = named_options_capped(ws.drop_last(), options, cap);
        match parse_unsigned(ws.last(), usize::MAX as int) {
            Some(i) => if i < options.len() && rest.len() < cap {
                rest.push(options[i])
            } else {
                rest
            },
            None => rest,
        }
    }
}

/// `ordered` followed by each card of `all` that it does not hold yet, in the
/// order of `all`.
pub open spec fn completed(ordered: Seq<CardId>, all: Seq<CardId>) -> Seq<CardId>
    decreases all.len(),
{
    if all.len() == 0 {
        ordered
    } else {
        let prev = completed(ordered, all.drop_last());
        if prev.contains(all.last()) {
            prev
        } else {
            prev.push(all.last())
        }
    }
}

/// `chosen` followed by the cards of `hand` that it does not hold yet, in hand
/// order, while it holds fewer than `count`.
pub open spec fn filled(chosen: Seq<CardId>, hand: Seq<CardId>, count: nat) -> Seq<CardId>
    decreases hand.len(),
{
    if hand.len() == 0 {
        chosen
    } else {
        let prev = filled(chosen, hand.drop_last(), count);
        if prev.len() < count && !prev.contains(hand.last()) {
            prev.push(hand.last())
        } else {
            prev
        }
    }
}

/// The characters of a line and the bounds of its words.
fn line_words(line: &str) -> (r: (Vec<char>, Vec<(usize, usize)>))
    ensures
        r.0@ == line@,
        r.1.len() == words(line@).len(),
        forall|k: int|
            0 <= k < r.1.len() ==> (#[trigger] r.1@[k]).0 <= r.1@[k].1 <= r.0.len() && r.0@.subrange(
                r.1@[k].0 as int,
                r.1@[k].1 as int,
            ) == words(line@)[k],
{
    let v = chars_of(line);
    let ws = words_in(&v, 0, v.len());
    proof {
        assert(v@.subrange(0, v@.len() as int) =~= v@);
    }
    (v, ws)
}

/// Whether `list` holds `id`.
fn holds(list: &Vec<CardId>, id: CardId) -> (r: bool)
    ensures
        r == list@.contains(id),
{
    let mut i: usize = 0;
    while i < list.len()
        invariant
            i <= list.len(),
            forall|j: int| 0 <= j < i ==> list@[j] != id,
        decreases list.len() - i,
    {
        if list[i] == id {
            return true;
        }
        i = i + 1;
    }
    false
}

impl InteractiveController {
    /// The options picked by a line of space-separated indices, as the
    /// creatures to attack with are read: every index below the number of
    /// options picks that option, in the order typed; anything else is ignored.
    pub fn attackers_from_line(line: &str, available: &[CardId]) -> (r: Vec<CardId>)
        ensures
            r@ == named_options(words(line@), available@),
    {
        let (v, ws) = line_words(line);
        let ghost w = words(line@);
        let mut r: Vec<CardId> = Vec::new();
        let mut k: usize = 0;
        while k < ws.len()
            invariant
                k <= ws.len(),
                ws.len() == w.len(),
                forall|j: int|
                    0 <= j < ws.len() ==> (#[trigger] ws@[j]).0 <= ws@[j].1 <= v.len() && v@.subrange(
                        ws@[j].0 as int,
                        ws@[j].1 as int,
                    ) == w[j],
                r@ == named_options(w.take(k as int), available@),
            decreases ws.len() - k,
        {
            let (a, b) = ws[k];
            proof {
                assert(w.take(k + 1).drop_last() =~= w.take(k as int));
                assert(w.take(k + 1).last() == w[k as int]);
            }
            match parse_unsigned_in(&v, a, b, usize::MAX as u64) {
                Some(n) => {
                    if n < available.len() as u64 {
                        r.push(available[n as usize]);
                    }
                },
                None => {},
            }
            k = k + 1;
        }
        proof {
            assert(w.take(w.len() as int) =~= w);
        }
        r
    }

    /// `ordered` completed with every card of `all` that it does not hold yet,
    /// in the order of `all`: the damage order once the player has named some
    /// blockers.
    pub fn complete_order(ordered: Vec<CardId>, all: &[CardId]) -> (r: Vec<CardId>)
        ensures
            r@ == completed(ordered@, all@),
    {
        let ghost start = ordered@;
        let mut r = ordered;
        let mut i: usize = 0;
        proof {
            assert(all@.take(0) =~= Seq::<CardId>::empty());
        }
        while i < all.len()
            invariant
                i <= all.len(),
                r@ == completed(start, all@.take(i as int)),
            decreases all.len() - i,
        {
            proof {
                assert(all@.take(i + 1).drop_last() =~= all@.take(i as int));
                assert(all@.take(i + 1).last() == all@[i as int]);
            }
            let b = all[i];
            if !holds(&r, b) {
                r.push(b);
            }
            i = i + 1;
        }
        proof {
            assert(all@.take(all@.len() as int) =~= all@);
        }
        r
    }

    /// The damage assignment order read from a line of space-separated
    /// blocker indices: with one blocker or none, the blockers as they are;
    /// otherwise the blockers named, in the order typed, then the others in
    /// their own order.
    pub fn damage_order_from_line(line: &str, blockers: &[CardId]) -> (r: Vec<CardId>)
        ensures
            blockers.len() <= 1 ==> r@ == blockers@,
            blockers.len() > 1 ==> r@ == completed(named_options(words(line@), blockers@), blockers@),
    {
        if blockers.len() <= 1 {
            let mut r: Vec<CardId> = Vec::new();
            let mut i: usize = 0;
            while i < blockers.len()
                invariant
                    i <= blockers.len(),
                    r@ == blockers@.take(i as int),
                decreases blockers.len() - i,
            {
                r.push(blockers[i]);
                proof {
                    assert(blockers@.take(i + 1) =~= blockers@.take(i as int).push(blockers@[i as int]));
                }
                i = i + 1;
            }
            proof {
                assert(blockers@.take(blockers@.len() as int) =~= blockers@);
            }
            return r;
        }
        let named = Self::attackers_from_line(line, blockers);
        Self::complete_order(named, blockers)
    }

    /// `chosen` filled up to `count` cards with the cards of `hand` it does not
    /// hold yet, in hand order.
    pub fn fill_discards(chosen: Vec<CardId>, hand: &[CardId], count: usize) -> (r: Vec<CardId>)
        ensures
            r@ == filled(chosen@, hand@, count as nat),
    {
        let ghost start = chosen@;
        let mut r = chosen;
        let mut i: usize = 0;
        proof {
            assert(hand@.take(0) =~= Seq::<CardId>::empty());
        }
        while i < hand.len()
            invariant
                i <= hand.len(),
                r@ == filled(start, hand@.take(i as int), count as nat),
            decreases hand.len() - i,
        {
            proof {
                assert(hand@.take(i + 1).drop_last() =~= hand@.take(i as int));
                assert(hand@.take(i + 1).last() == hand@[i as int]);
            }
            let c = hand[i];
            if r.len() < count && !holds(&r, c) {
                r.push(c);
            }
            i = i + 1;
        }
        proof {
            assert(hand@.take(hand@.len() as int) =~= hand@);
        }
        r
    }

    /// The cards to discard read from a line of space-separated hand indices:
    /// the cards named, in the order typed, no more than `count` of them, then
    /// filled up to `count` from the start of the hand.
    pub fn discards_from_line(line: &str, hand: &[CardId], count: usize) -> (r: Vec<CardId>)
        ensures
            r@ == filled(named_options_capped(words(line@), hand@, count as nat), hand@, count as nat),
    {
        let (v, ws) = line_words(line);
        let ghost w = words(line@);
        let mut r: Vec<CardId> = Vec::new();
        let mut k: usize = 0;
        while k < ws.len()
            invariant
                k <= ws.len(),
                ws.len() == w.len(),
                forall|j: int|
                    0 <= j < ws.len() ==> (#[trigger] ws@[j]).0 <= ws@[j].1 <= v.len() && v@.subrange(
                        ws@[j].0 as int,
                        ws@[j].1 as int,
                    ) == w[j],
                r@ == named_options_capped(w.take(k as int), hand@, count as nat),
            decreases ws.len() - k,
        {
            let (a, b) = ws[k];
            proof {
                assert(w.take(k + 1).drop_last() =~= w.take(k as int));
                assert(w.take(k + 1).last() == w[k as int]);
            }
            match parse_unsigned_in(&v, a, b, usize::MAX as u64) {
                Some(n) => {
                    if n < hand.len() as u64 && r.len() < count {
                        r.push(hand[n as usize]);
                    }
                },
                None => {},
            }
            k = k + 1;
        }
        proof {
            assert(w.take(w.len() as int) =~= w);
        }
        Self::fill_discards(r, hand, count)
    }

    /// Adds a picked card to a selection unless it is already there; says
    /// whether it was added.
    pub fn add_choice(selection: &mut Vec<CardId>, id: CardId) -> (added: bool)
        ensures
            added == !old(selection)@.contains(id),
            added ==> final(selection)@ == old(selection)@.push(id),
            !added ==> final(selection)@ == old(selection)@,
    {
        if holds(selection, id) {
            false
        } else {
            selection.push(id);
            true
        }
    }
}

} // verus!

verus! {

/// A completed order keeps what was named first, in front, and holds every
/// card of the full list; it holds nothing else.
pub proof fn law_completed_order_covers_all(ordered: Seq<CardId>, all: Seq<CardId>)
    ensures
        completed(ordered, all).len() >= ordered.len(),
        completed(ordered, all).take(ordered.len() as int) == ordered,
        forall|i: int| 0 <= i < all.len() ==> completed(ordered, all).contains(#[trigger] all[i]),
        forall|x: CardId| completed(ordered, all).contains(x) ==> ordered.contains(x) || all.contains(x),
    decreases all.len(),
{
    if all.len() > 0 {
        let prev = completed(ordered, all.drop_last());
        law_completed_order_covers_all(ordered, all.drop_last());
        assert forall|i: int| 0 <= i < all.len() implies completed(ordered, all).contains(#[trigger] all[i]) by {
            if i < all.len() - 1 {
                assert(all.drop_last()[i] == all[i]);
                assert(prev.contains(all[i]));
                let j = choose|j: int| 0 <= j < prev.len() && prev[j] == all[i];
                if !prev.contains(all.last()) {
                    assert(prev.push(all.last())[j] == all[i]);
                }
            } else {
                if !prev.contains(all.last()) {
                    assert(prev.push(all.last())[prev.len() as int] == all.last());
                }
            }
        }
        assert forall|x: CardId| completed(ordered, all).contains(x) implies ordered.contains(x) || all.contains(x) by {
            let r = completed(ordered, all);
            let j = choose|j: int| 0 <= j < r.len() && r[j] == x;
            if j < prev.len() {
                assert(prev[j] == x);
                assert(prev.contains(x));
                if all.drop_last().contains(x) {
                    let k = choose|k: int| 0 <= k < all.drop_last().len() && all.drop_last()[k] == x;
                    assert(all[k] == x);
                }
            } else {
                assert(x == all.last());
                assert(all[all.len() - 1] == x);
            }
        }
        if !prev.contains(all.last()) {
            assert(prev.push(all.last()).take(ordered.len() as int) =~= prev.take(ordered.len() as int));
        }
    }
}

/// Filling a selection keeps it in front and only adds; it stops at `count`,
/// and stops short of `count` only when every card of the hand is already
/// selected.
pub proof fn law_filled_reaches_count(chosen: Seq<CardId>, hand: Seq<CardId>, count: nat)
    ensures
        filled(chosen, hand, count).take(chosen.len() as int) == chosen,
        filled(chosen, hand, count).len() >= chosen.len(),
        chosen.len() <= count ==> filled(chosen, hand, count).len() <= count,
        filled(chosen, hand, count).len() < count ==> forall|i: int|
            0 <= i < hand.len() ==> filled(chosen, hand, count).contains(#[trigger] hand[i]),
    decreases hand.len(),
{
    if hand.len() > 0 {
        let prev = filled(chosen, hand.drop_last(), count);
        law_filled_reaches_count(chosen, hand.drop_last(), count);
        let r = filled(chosen, hand, count);
        if prev.len() < count && !prev.contains(hand.last()) {
            assert(prev.push(hand.last()).take(chosen.len() as int) =~= prev.take(chosen.len() as int));
        }
        if r.len() < count {
            assert(prev.len() < count);
            assert forall|i: int| 0 <= i < hand.len() implies r.contains(#[trigger] hand[i]) by {
                if i < hand.len() - 1 {
                    assert(hand.drop_last()[i] == hand[i]);
                    assert(prev.contains(hand[i]));
                    let j = choose|j: int| 0 <= j < prev.len() && prev[j] == hand[i];
                    if !prev.contains(hand.last()) {
                        assert(r[j] == hand[i]);
                    }
                } else {
                    if !prev.contains(hand.last()) {
                        assert(r[prev.len() as int] == hand.last());
                    }
                }
            }
        }
    }
}

} // verus!

verus! {

/// The verb a menu entry shows for an action.
pub open spec fn action_verb(a: SpellAbility) -> Seq<char> {
    match a {
        SpellAbility::PlayLand { .. } => "Play"@,
        SpellAbility::CastSpell { .. } => "Cast"@,
        SpellAbility::ActivateAbility { .. } => "Activate"@,
    }
}

/// What a player did, as reported after the action was picked by name or index.
pub open spec fn action_done(a: SpellAbility) -> Seq<char> {
    match a {
        SpellAbility::PlayLand { .. } => "played land: "@,
        SpellAbility::CastSpell { .. } => "cast spell: "@,
        SpellAbility::ActivateAbility { .. } => "activated ability: "@,
    }
}

/// What is under way, as acknowledged after an action was picked by number.
pub open spec fn action_doing(a: SpellAbility) -> Seq<char> {
    match a {
        SpellAbility::PlayLand { .. } => "Playing land: "@,
        SpellAbility::CastSpell { .. } => "Casting spell: "@,
        SpellAbility::ActivateAbility { .. } => "Activating ability: "@,
    }
}

/// A typed line that reads as an action command: `p` or `pass`, or one that
/// starts with `play `, `cast ` or `activate `.
pub open spec fn is_command(t: Seq<char>) -> bool {
    ||| t == "p"@
    ||| t == "pass"@
    ||| occurs_at(t, "play "@, 0)
    ||| occurs_at(t, "cast "@, 0)
    ||| occurs_at(t, "activate "@, 0)
}

impl InteractiveController {
    /// The menu entry for an action: `  [<number>] <verb> <card name>`.
    pub fn action_menu_line(number: usize, ability: SpellAbility, name: &str) -> (r: String)
        ensures
            r@ == "  ["@ + decimal_text(number as nat) + "] "@ + action_verb(ability) + " "@ + name@,
    {
        let verb: &str = match ability {
            SpellAbility::PlayLand { .. } => "Play",
            SpellAbility::CastSpell { .. } => "Cast",
            SpellAbility::ActivateAbility { .. } => "Activate",
        };
        let num = decimal_string(number);
        let mut r = concat3("  [", num.as_str(), "] ");
        push_str(&mut r, verb);
        push_str(&mut r, " ");
        push_str(&mut r, name);
        r
    }

    /// The report of a picked action: `  <player> played land: <card name>`
    /// (or `cast spell:`, `activated ability:`).
    pub fn action_report(player_name: &str, ability: SpellAbility, name: &str) -> (r: String)
        ensures
            r@ == "  "@ + player_name@ + " "@ + action_done(ability) + name@,
    {
        let done: &str = match ability {
            SpellAbility::PlayLand { .. } => "played land: ",
            SpellAbility::CastSpell { .. } => "cast spell: ",
            SpellAbility::ActivateAbility { .. } => "activated ability: ",
        };
        let mut r = concat3("  ", player_name, " ");
        push_str(&mut r, done);
        push_str(&mut r, name);
        r
    }

    /// The acknowledgement of an action picked by number: `Playing land:
    /// <card name>` (or `Casting spell:`, `Activating ability:`).
    pub fn action_acknowledgement(ability: SpellAbility, name: &str) -> (r: String)
        ensures
            r@ == action_doing(ability) + name@,
    {
        let doing: &str = match ability {
            SpellAbility::PlayLand { .. } => "Playing land: ",
            SpellAbility::CastSpell { .. } => "Casting spell: ",
            SpellAbility::ActivateAbility { .. } => "Activating ability: ",
        };
        concat2(doing, name)
    }

    /// Whether a typed line (already trimmed) is an action command rather
    /// than an index.
    pub fn is_action_command(t: &str) -> (r: bool)
        ensures
            r == is_command(t@),
    {
        let v = chars_of(t);
        let play = chars_of("play ");
        let cast = chars_of("cast ");
        let activate = chars_of("activate ");
        str_eq(t, "p") || str_eq(t, "pass") || matches_at(&v, &play, 0) || matches_at(&v, &cast, 0)
            || matches_at(&v, &activate, 0)
    }
}

} // verus!
