//! The lines the game prints: what an effect did, and the state of each
//! player and their permanents.
//!
//! Card ids are written as their numbers. The caller looks up the names of
//! the cards and players an effect or a permanent refers to and prints the
//! lines.

use vstd::prelude::*;
use crate::card::{has_keyword_kind, has_type, Card, CardType, Effect, KeywordKind, TargetRef};
use crate::ids::{CardId, PlayerId};
use crate::legal_actions::at_positions;
use crate::ordering::{is_stable_order, stable_order};
use crate::text::{decimal_string, decimal_text, push_str};

verus! {

/// The decimal text of an integer, with `-` before a negative one.
pub open spec fn signed_text(x: int) -> Seq<char> {
    if x < 0 {
        "-"@ + decimal_text((-x) as nat)
    } else {
        decimal_text(x as nat)
    }
}

/// The decimal text of an integer with its sign always written (`+0`, `+3`, `-1`).
pub open spec fn plus_text(x: int) -> Seq<char> {
    if x < 0 {
        signed_text(x)
    } else {
        "+"@ + decimal_text(x as nat)
    }
}

/// A card id as written in the log: its number.
pub open spec fn id_text(id: CardId) -> Seq<char> {
    decimal_text(id.value as nat)
}

/// What an effect of the source did, as logged: the source's name and id,
/// then the effect, naming `subject` (the player or the card it concerns;
/// for damage without a target, the opponent). `mana_text` is how added
/// mana is written.
pub open spec fn spec_effect_log_line(
    source_name: Seq<char>,
    source_id: CardId,
    effect: Effect,
    subject: Seq<char>,
    mana_text: Seq<char>,
) -> Seq<char> {
    let head = "  "@ + source_name + " ("@ + id_text(source_id) + ") "@;
    head + match effect {
        Effect::DealDamage { target, amount } => "deals "@ + signed_text(amount as int) + " damage to "@ + subject
            + match target {
            TargetRef::Permanent(c) => " ("@ + id_text(c) + ")"@,
            _ => Seq::empty(),
        },
        Effect::DrawCards { count, .. } => "causes "@ + subject + " to draw "@ + decimal_text(count as nat)
            + " card(s)"@,
        Effect::GainLife { amount, .. } => "causes "@ + subject + " to gain "@ + signed_text(amount as int)
            + " life"@,
        Effect::DestroyPermanent { target } => "destroys "@ + subject + " ("@ + id_text(target) + ")"@,
        Effect::TapPermanent { target } => "taps "@ + subject + " ("@ + id_text(target) + ")"@,
        Effect::UntapPermanent { target } => "untaps "@ + subject + " ("@ + id_text(target) + ")"@,
        Effect::PumpCreature { target, power_bonus, toughness_bonus } => "gives "@ + subject + " ("@ + id_text(
            target,
        ) + ") "@ + plus_text(power_bonus as int) + "/"@ + plus_text(toughness_bonus as int)
            + " until end of turn"@,
        Effect::Mill { count, .. } => "causes "@ + subject + " to mill "@ + decimal_text(count as nat) + " card(s)"@,
        Effect::CounterSpell { target } => "counters "@ + subject + " ("@ + id_text(target) + ")"@,
        Effect::AddMana { .. } => "adds "@ + mana_text + " to "@ + subject + "'s mana pool"@,
    }
}

fn signed_string(x: i32) -> (r: String)
    ensures
        r@ == signed_text(x as int),
{
    if x < 0 {
        let magnitude: i64 = -(x as i64);
        let digits = decimal_string(magnitude as usize);
        let mut r = "-".to_owned();
        push_str(&mut r, digits.as_str());
        proof {
            reveal_strlit("-");
        }
        r
    } else {
        decimal_string(x as usize)
    }
}

fn plus_string(x: i32) -> (r: String)
    ensures
        r@ == plus_text(x as int),
{
    if x < 0 {
        signed_string(x)
    } else {
        let digits = decimal_string(x as usize);
        let mut r = "+".to_owned();
        push_str(&mut r, digits.as_str());
        r
    }
}

fn id_string(id: CardId) -> (r: String)
    ensures
        r@ == id_text(id),
{
    decimal_string(id.value as usize)
}

/// The log line for an effect of a source (see [`spec_effect_log_line`]).
#[verifier::rlimit(60)]
pub fn effect_log_line(source_name: &str, source_id: CardId, effect: &Effect, subject: &str, mana_text: &str) -> (r:
    String)
    ensures
        r@ == spec_effect_log_line(source_name@, source_id, *effect, subject@, mana_text@),
{
    let mut r = "  ".to_owned();
    push_str(&mut r, source_name);
    push_str(&mut r, " (");
    let sid = id_string(source_id);
    push_str(&mut r, sid.as_str());
    push_str(&mut r, ") ");
    let ghost head = r@;
    match effect {
        Effect::DealDamage { target, amount } => {
            push_str(&mut r, "deals ");
            let a = signed_string(*amount);
            push_str(&mut r, a.as_str());
            push_str(&mut r, " damage to ");
            push_str(&mut r, subject);
            match target {
                TargetRef::Permanent(c) => {
                    push_str(&mut r, " (");
                    let t = id_string(*c);
                    push_str(&mut r, t.as_str());
                    push_str(&mut r, ")");
                },
                _ => {},
            }
        },
        Effect::DrawCards { count, .. } => {
            push_str(&mut r, "causes ");
            push_str(&mut r, subject);
            push_str(&mut r, " to draw ");
            let n = decimal_string(*count as usize);
            push_str(&mut r, n.as_str());
            push_str(&mut r, " card(s)");
        },
        Effect::GainLife { amount, .. } => {
            push_str(&mut r, "causes ");
            push_str(&mut r, subject);
            push_str(&mut r, " to gain ");
            let a = signed_string(*amount);
            push_str(&mut r, a.as_str());
            push_str(&mut r, " life");
        },
        Effect::DestroyPermanent { target } => {
            push_str(&mut r, "destroys ");
            push_str(&mut r, subject);
            push_str(&mut r, " (");
            let t = id_string(*target);
            push_str(&mut r, t.as_str());
            push_str(&mut r, ")");
        },
        Effect::TapPermanent { target } => {
            push_str(&mut r, "taps ");
            push_str(&mut r, subject);
            push_str(&mut r, " (");
            let t = id_string(*target);
            push_str(&mut r, t.as_str());
            push_str(&mut r, ")");
        },
        Effect::UntapPermanent { target } => {
            push_str(&mut r, "untaps ");
            push_str(&mut r, subject);
            push_str(&mut r, " (");
            let t = id_string(*target);
            push_str(&mut r, t.as_str());
            push_str(&mut r, ")");
        },
        Effect::PumpCreature { target, power_bonus, toughness_bonus } => {
            push_str(&mut r, "gives ");
            push_str(&mut r, subject);
            push_str(&mut r, " (");
            let t = id_string(*target);
            push_str(&mut r, t.as_str());
            push_str(&mut r, ") ");
            let p = plus_string(*power_bonus);
            push_str(&mut r, p.as_str());
            push_str(&mut r, "/");
            let q = plus_string(*toughness_bonus);
            push_str(&mut r, q.as_str());
            push_str(&mut r, " until end of turn");
        },
        Effect::Mill { count, .. } => {
            push_str(&mut r, "causes ");
            push_str(&mut r, subject);
            push_str(&mut r, " to mill ");
            let n = decimal_string(*count as usize);
            push_str(&mut r, n.as_str());
            push_str(&mut r, " card(s)");
        },
        Effect::CounterSpell { target } => {
            push_str(&mut r, "counters ");
            push_str(&mut r, subject);
            push_str(&mut r, " (");
            let t = id_string(*target);
            push_str(&mut r, t.as_str());
            push_str(&mut r, ")");
        },
        Effect::AddMana { .. } => {
            push_str(&mut r, "adds ");
            push_str(&mut r, mana_text);
            push_str(&mut r, " to ");
            push_str(&mut r, subject);
            push_str(&mut r, "'s mana pool");
        },
    }
    proof {
        assert(r@ =~= spec_effect_log_line(source_name@, source_id, *effect, subject@, mana_text@));
    }
    r
}

} // verus!

verus! {

/// A creature shown as summoning sick: it entered the battlefield this turn
/// and has no haste.
pub open spec fn shows_sick(card: Card, turn_number: u32) -> bool {
    has_type(card, CardType::Creature) && match card.turn_entered_battlefield {
        Some(t) => t == turn_number && !has_keyword_kind(card, KeywordKind::Haste),
        None => false,
    }
}

/// A creature's power or toughness as shown: its printed value (0 when it has
/// none) plus the bonus, the bonus taken as an `i8`.
pub open spec fn shown_stat(printed: Option<i8>, bonus: i32) -> int {
    (match printed {
        Some(v) => v as int,
        None => 0,
    }) + (bonus as i8) as int
}

/// The line for a permanent on the battlefield: its name and id; for a
/// creature its power and toughness with their bonuses; ` (tapped)` when
/// tapped; ` (summoning sickness)` for a summoning-sick creature.
pub open spec fn spec_permanent_line(card: Card, power_bonus: i32, toughness_bonus: i32, turn_number: u32) -> Seq<char> {
    let tapped = if card.tapped { " (tapped)"@ } else { Seq::empty() };
    if has_type(card, CardType::Creature) {
        "    "@ + card.name@ + " ("@ + id_text(card.id) + ") - "@ + signed_text(shown_stat(card.power, power_bonus))
            + "/"@ + signed_text(shown_stat(card.toughness, toughness_bonus)) + tapped + if shows_sick(
            card,
            turn_number,
        ) {
            " (summoning sickness)"@
        } else {
            Seq::empty()
        }
    } else {
        "    "@ + card.name@ + " ("@ + id_text(card.id) + ")"@ + tapped
    }
}

/// Whether the shown power and toughness fit an `i8`, as the sums are made.
pub open spec fn permanent_line_fits(card: Card, power_bonus: i32, toughness_bonus: i32) -> bool {
    has_type(card, CardType::Creature) ==> -128 <= shown_stat(card.power, power_bonus) <= 127 && -128 <= shown_stat(
        card.toughness,
        toughness_bonus,
    ) <= 127
}

/// The line for a permanent on the battlefield (see [`spec_permanent_line`]).
pub fn permanent_line(card: &Card, power_bonus: i32, toughness_bonus: i32, turn_number: u32) -> (r: String)
    requires
        permanent_line_fits(*card, power_bonus, toughness_bonus),
    ensures
        r@ == spec_permanent_line(*card, power_bonus, toughness_bonus, turn_number),
{
    let mut r = "    ".to_owned();
    push_str(&mut r, card.name.as_str());
    push_str(&mut r, " (");
    let id = id_string(card.id);
    push_str(&mut r, id.as_str());
    if card.is_creature() {
        let p: i8 = match card.power {
            Some(v) => v,
            None => 0,
        };
        let t: i8 = match card.toughness {
            Some(v) => v,
            None => 0,
        };
        let power = p + (power_bonus as i8);
        let toughness = t + (toughness_bonus as i8);
        push_str(&mut r, ") - ");
        let ps = signed_string(power as i32);
        push_str(&mut r, ps.as_str());
        push_str(&mut r, "/");
        let ts = signed_string(toughness as i32);
        push_str(&mut r, ts.as_str());
        if card.tapped {
            push_str(&mut r, " (tapped)");
        }
        let sick = match card.turn_entered_battlefield {
            Some(t) => t == turn_number && !card.has_keyword_kind(KeywordKind::Haste),
            None => false,
        };
        if sick {
            push_str(&mut r, " (summoning sickness)");
        }
    } else {
        push_str(&mut r, ")");
        if card.tapped {
            push_str(&mut r, " (tapped)");
        }
    }
    proof {
        assert(r@ =~= spec_permanent_line(*card, power_bonus, toughness_bonus, turn_number));
    }
    r
}

/// The heading lines of a player's state: name (marked when active), life,
/// and the sizes of hand, library, graveyard and exile.
pub open spec fn spec_player_lines(
    name: Seq<char>,
    is_active: bool,
    life: i32,
    hand: usize,
    library: usize,
    graveyard: usize,
    exile: usize,
) -> Seq<Seq<char>> {
    seq![
        name + (if is_active { " (active)"@ } else { Seq::empty() }) + ": "@,
        "  Life: "@ + signed_text(life as int),
        "  Hand: "@ + decimal_text(hand as nat) + " | Library: "@ + decimal_text(library as nat) + " | Graveyard: "@
            + decimal_text(graveyard as nat) + " | Exile: "@ + decimal_text(exile as nat),
    ]
}

/// The heading lines of a player's state (see [`spec_player_lines`]).
pub fn player_lines(
    name: &str,
    is_active: bool,
    life: i32,
    hand: usize,
    library: usize,
    graveyard: usize,
    exile: usize,
) -> (r: Vec<String>)
    ensures
        r@.map_values(|s: String| s@) == spec_player_lines(name@, is_active, life, hand, library, graveyard, exile),
{
    let mut first = name.to_owned();
    if is_active {
        push_str(&mut first, " (active)");
    }
    push_str(&mut first, ": ");
    let mut second = "  Life: ".to_owned();
    let l = signed_string(life);
    push_str(&mut second, l.as_str());
    let mut third = "  Hand: ".to_owned();
    let a = decimal_string(hand);
    push_str(&mut third, a.as_str());
    push_str(&mut third, " | Library: ");
    let b = decimal_string(library);
    push_str(&mut third, b.as_str());
    push_str(&mut third, " | Graveyard: ");
    let c = decimal_string(graveyard);
    push_str(&mut third, c.as_str());
    push_str(&mut third, " | Exile: ");
    let d = decimal_string(exile);
    push_str(&mut third, d.as_str());
    let mut r: Vec<String> = Vec::new();
    r.push(first);
    r.push(second);
    r.push(third);
    proof {
        assert(r@.map_values(|s: String| s@) =~= spec_player_lines(
            name@,
            is_active,
            life,
            hand,
            library,
            graveyard,
            exile,
        ));
    }
    r
}

} // verus!

verus! {

/// The order kinds of permanents are shown in: lands, then creatures, then
/// the rest.
pub open spec fn display_kind(c: Card) -> i64 {
    if has_type(c, CardType::Land) {
        0
    } else if has_type(c, CardType::Creature) {
        1
    } else {
        2
    }
}

/// The positions of the cards controlled by `player`, in order.
pub open spec fn controlled_positions(cards: Seq<Card>, player: PlayerId) -> Seq<usize>
    decreases cards.len(),
{
    if cards.len() == 0 {
        Seq::empty()
    } else {
        let prev = controlled_positions(cards.drop_last(), player);
        if cards.last().controller == player {
            prev.push((cards.len() - 1) as usize)
        } else {
            prev
        }
    }
}

/// The display kinds of the cards at some positions.
pub open spec fn kind_keys(cards: Seq<Card>, positions: Seq<usize>) -> Seq<i64> {
    Seq::new(positions.len(), |i: int| display_kind(cards[positions[i] as int]))
}

/// The positions of a player's permanents in the order they are shown:
/// lands, then creatures, then the rest, each kind in battlefield order.
pub fn permanent_display_order(battlefield: &[Card], player: PlayerId) -> (r: Vec<usize>)
    ensures
        exists|order: Seq<usize>|
            is_stable_order(kind_keys(battlefield@, controlled_positions(battlefield@, player)), order) && r@
                == at_positions(controlled_positions(battlefield@, player), order),
{
    let mut positions: Vec<usize> = Vec::new();
    let mut i: usize = 0;
    while i < battlefield.len()
        invariant
            i <= battlefield.len(),
            positions@ == controlled_positions(battlefield@.take(i as int), player),
            forall|k: int| 0 <= k < positions@.len() ==> (#[trigger] positions@[k]) < i,
        decreases battlefield.len() - i,
    {
        proof {
            assert(battlefield@.take(i + 1).drop_last() =~= battlefield@.take(i as int));
        }
        if battlefield[i].controller == player {
            positions.push(i);
        }
        i = i + 1;
    }
    proof {
        assert(battlefield@.take(battlefield@.len() as int) =~= battlefield@);
    }
    let ghost ps = positions@;
    let mut keys: Vec<i64> = Vec::new();
    let mut k: usize = 0;
    while k < positions.len()
        invariant
            k <= positions.len(),
            ps == positions@,
            forall|j: int| 0 <= j < positions@.len() ==> (#[trigger] positions@[j]) < battlefield@.len(),
            keys.len() == k,
            forall|j: int| 0 <= j < k ==> (#[trigger] keys@[j]) == kind_keys(battlefield@, ps)[j],
        decreases positions.len() - k,
    {
        let c = &battlefield[positions[k]];
        let key: i64 = if c.is_land() {
            0
        } else if c.is_creature() {
            1
        } else {
            2
        };
        keys.push(key);
        k = k + 1;
    }
    proof {
        assert(keys@ =~= kind_keys(battlefield@, ps));
    }
    let order = stable_order(&keys);
    let mut r: Vec<usize> = Vec::new();
    let mut j: usize = 0;
    while j < order.len()
        invariant
            j <= order.len(),
            is_stable_order(kind_keys(battlefield@, ps), order@),
            ps.len() == order@.len(),
            ps == positions@,
            r@ == at_positions(ps, order@.take(j as int)),
        decreases order.len() - j,
    {
        r.push(positions[order[j]]);
        proof {
            assert(at_positions(ps, order@.take(j + 1)) =~= at_positions(ps, order@.take(j as int)).push(
                ps[order@[j as int] as int],
            ));
        }
        j = j + 1;
    }
    proof {
        assert(order@.take(order@.len() as int) =~= order@);
    }
    r
}

} // verus!
