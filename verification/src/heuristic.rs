//! Heuristic evaluation of creatures and combat decisions: a creature value
//! built from power, toughness and keywords, and rules for attacking and blocking.

use vstd::prelude::*;
use crate::card::{has_keyword_kind, has_type, Card, CardType, Keyword, KeywordKind};
use crate::ids::PlayerId;
use crate::text::{seq_contains, str_contains};

verus! {

/// Some keyword of the card is an unmodelled keyword whose text contains `pat`.
pub open spec fn has_other_kw(c: Card, pat: Seq<char>) -> bool {
    exists|i: int| 0 <= i < c.keywords@.len() && (#[trigger] c.keywords@[i] matches Keyword::Other(s) && seq_contains(s@, pat))
}

/// Whether some unmodelled keyword of the card contains `pat`.
pub fn other_keyword_contains(card: &Card, pat: &str) -> (r: bool)
    ensures
        r == has_other_kw(*card, pat@),
{
    let mut i: usize = 0;
    while i < card.keywords.len()
        invariant
            i <= card.keywords.len(),
            forall|j: int| 0 <= j < i ==> !(#[trigger] card.keywords@[j] matches Keyword::Other(s) && seq_contains(s@, pat@)),
        decreases card.keywords.len() - i,
    {
        match &card.keywords[i] {
            Keyword::Other(s) => {
                if str_contains(s.as_str(), pat) {
                    return true;
                }
            },
            _ => {},
        }
        i = i + 1;
    }
    false
}

/// Power, zero when undefined.
pub open spec fn pow(c: Card) -> int {
    match c.power {
        Some(p) => p as int,
        None => 0,
    }
}

/// Toughness, zero when undefined.
pub open spec fn tough(c: Card) -> int {
    match c.toughness {
        Some(t) => t as int,
        None => 0,
    }
}

pub open spec fn kw(c: Card, k: KeywordKind) -> bool {
    has_keyword_kind(c, k)
}

/// The card strikes first (first strike or double strike).
pub open spec fn first_striker(c: Card) -> bool {
    kw(c, KeywordKind::FirstStrike) || kw(c, KeywordKind::DoubleStrike)
}

/// The evasion part of a creature's value.
pub open spec fn evasion_value(c: Card) -> int {
    let p = pow(c);
    let unblockable = has_other_kw(c, "can't be blocked"@) || has_other_kw(c, "unblockable"@);
    if !unblockable {
        (if has_other_kw(c, "Fear"@) { p * 6 } else { 0int }) + (if has_other_kw(c, "Intimidate"@) { p * 6 } else { 0int })
            + (if kw(c, KeywordKind::Menace) { p * 4 } else { 0int }) + (if has_other_kw(c, "Skulk"@) { p * 3 } else { 0int })
    } else {
        p * 10
    }
}

/// The combat-keyword part of a creature's value (only for positive power).
pub open spec fn combat_value(c: Card) -> int {
    let p = pow(c);
    let t = tough(c);
    if p > 0 {
        (if kw(c, KeywordKind::DoubleStrike) {
            10 + p * 15
        } else if kw(c, KeywordKind::FirstStrike) {
            10 + p * 5
        } else {
            0
        }) + (if kw(c, KeywordKind::Deathtouch) { 25int } else { 0int }) + (if kw(c, KeywordKind::Lifelink) {
            p * 10
        } else {
            0
        }) + (if p > 1 && kw(c, KeywordKind::Trample) { (p - 1) * 5 } else { 0int }) + (if kw(c, KeywordKind::Vigilance) {
            p * 5 + t * 5
        } else {
            0
        }) + (if has_other_kw(c, "Infect"@) {
            p * 15
        } else if has_other_kw(c, "Wither"@) {
            p * 10
        } else {
            0
        })
    } else {
        0
    }
}

/// The value of a creature: 100 for a card, plus stats, mana value, evasion,
/// combat keywords, defensive keywords, minus defender, plus 10 for a land.
pub open spec fn creature_value(c: Card, consider_pt: bool, consider_cmc: bool) -> int {
    let p = pow(c);
    let t = tough(c);
    100 + (if consider_pt { p * 15 + t * 10 } else { 0int }) + (if consider_cmc { c.mana_cost.spec_cmc() * 5 } else { 0int })
        + (if kw(c, KeywordKind::Flying) { p * 10 } else { 0int }) + evasion_value(c) + combat_value(c) + defense_value(c)
}

/// The blocker may block the attacker: no defender, and a flying attacker
/// needs a flying or reach blocker.
pub open spec fn spec_can_block(attacker: Card, blocker: Card) -> bool {
    !kw(blocker, KeywordKind::Defender) && !(kw(attacker, KeywordKind::Flying) && !(kw(blocker, KeywordKind::Flying)
        || kw(blocker, KeywordKind::Reach)))
}

/// Who may block whom: a creature with defender never blocks; a flying
/// attacker is blocked by any creature with flying or reach and by no other;
/// an attacker without flying is blocked by any creature without defender.
pub proof fn law_blocking_by_evasion(attacker: Card, blocker: Card)
    ensures
        kw(blocker, KeywordKind::Defender) ==> !spec_can_block(attacker, blocker),
        !kw(blocker, KeywordKind::Defender) && (kw(blocker, KeywordKind::Flying) || kw(blocker, KeywordKind::Reach))
            ==> spec_can_block(attacker, blocker),
        !kw(blocker, KeywordKind::Defender) && !kw(attacker, KeywordKind::Flying) ==> spec_can_block(attacker, blocker),
        kw(attacker, KeywordKind::Flying) && !kw(blocker, KeywordKind::Flying) && !kw(blocker, KeywordKind::Reach)
            ==> !spec_can_block(attacker, blocker),
{
}

/// The attacker destroys the blocker: deathtouch against positive toughness,
/// or (unless indestructible) power at least toughness.
pub open spec fn spec_destroys_blocker(attacker: Card, blocker: Card) -> bool {
    if kw(attacker, KeywordKind::Deathtouch) && tough(blocker) > 0 {
        true
    } else if kw(blocker, KeywordKind::Indestructible) {
        false
    } else {
        pow(attacker) >= tough(blocker)
    }
}

/// The blocker destroys the attacker, symmetrically.
pub open spec fn spec_destroys_attacker(attacker: Card, blocker: Card) -> bool {
    if kw(blocker, KeywordKind::Deathtouch) && tough(attacker) > 0 {
        true
    } else if kw(attacker, KeywordKind::Indestructible) {
        false
    } else {
        pow(blocker) >= tough(attacker)
    }
}

/// Whether to block: always when the blocker kills and survives; trade when
/// the attacker is worth at least as much; chump-survive only with a blocker
/// worth under 100; never when the blocker dies without killing.
pub open spec fn spec_should_block(blocker: Card, attacker: Card) -> bool {
    let can_kill = pow(blocker) >= tough(attacker) || kw(blocker, KeywordKind::Deathtouch);
    let survives = if first_striker(blocker) && !first_striker(attacker) {
        pow(blocker) >= tough(attacker) || tough(blocker) > pow(attacker)
    } else {
        tough(blocker) > pow(attacker)
    };
    let bv = creature_value(blocker, true, true);
    let av = creature_value(attacker, true, true);
    if can_kill && survives {
        true
    } else if can_kill && !survives {
        av >= bv
    } else if !can_kill && survives {
        bv < 100
    } else {
        false
    }
}

/// A creature with lifelink or wither.
pub open spec fn dangerous(c: Card) -> bool {
    kw(c, KeywordKind::Lifelink) || has_other_kw(c, "Wither"@)
}

/// The card is an untapped creature of another player that can block the attacker.
pub open spec fn potential_blocker(me: PlayerId, attacker: Card, c: Card) -> bool {
    c.owner != me && has_type(c, CardType::Creature) && !c.tapped && spec_can_block(attacker, c)
}

/// Number of potential blockers among the permanents.
pub open spec fn blocker_count(me: PlayerId, attacker: Card, cards: Seq<Card>) -> nat
    decreases cards.len(),
{
    if cards.len() == 0 {
        0
    } else {
        blocker_count(me, attacker, cards.drop_last()) + if potential_blocker(me, attacker, cards.last()) {
            1nat
        } else {
            0nat
        }
    }
}

/// Combat math for one attacker against the potential blockers.
pub struct CombatFactors {
    pub can_be_killed: bool,
    pub can_be_killed_by_one: bool,
    pub can_kill_all: bool,
    pub can_kill_all_dangerous: bool,
    pub is_worth_less_than_all_killers: bool,
    pub has_combat_effect: bool,
    pub dangerous_blockers_present: bool,
    pub can_be_blocked: bool,
    pub number_of_blockers: usize,
}

/// The combat factors of an attacker against the permanents on the battlefield.
pub open spec fn spec_factors(me: PlayerId, a: Card, cards: Seq<Card>) -> CombatFactors {
    let av = creature_value(a, true, true);
    let killed = exists|i: int| 0 <= i < cards.len() && potential_blocker(me, a, cards[i]) && spec_destroys_attacker(a, #[trigger] cards[i]);
    CombatFactors {
        can_be_killed: killed,
        can_be_killed_by_one: killed,
        can_kill_all: forall|i: int| 0 <= i < cards.len() && potential_blocker(me, a, cards[i]) ==> spec_destroys_blocker(a, #[trigger] cards[i]),
        can_kill_all_dangerous: forall|i: int| 0 <= i < cards.len() && potential_blocker(me, a, cards[i]) && !spec_destroys_blocker(a, #[trigger] cards[i]) ==> !dangerous(cards[i]),
        is_worth_less_than_all_killers: forall|i: int| 0 <= i < cards.len() && potential_blocker(me, a, cards[i]) && spec_destroys_attacker(a, #[trigger] cards[i]) ==> creature_value(cards[i], true, true) > av,
        has_combat_effect: kw(a, KeywordKind::Lifelink) || has_other_kw(a, "Wither"@) || has_other_kw(a, "Afflict"@),
        dangerous_blockers_present: exists|i: int| 0 <= i < cards.len() && potential_blocker(me, a, cards[i]) && dangerous(#[trigger] cards[i]),
        can_be_blocked: blocker_count(me, a, cards) > 0,
        number_of_blockers: blocker_count(me, a, cards) as usize,
    }
}

/// The attack decision for an aggression level, given the combat factors.
pub open spec fn attack_by_aggression(level: i32, power: int, f: CombatFactors) -> bool {
    if level == 6 {
        (f.can_kill_all && f.is_worth_less_than_all_killers) || !f.can_be_blocked
    } else if level == 5 {
        power > 0
    } else if level == 4 {
        f.can_kill_all || (f.dangerous_blockers_present && f.can_kill_all_dangerous && !f.can_be_killed_by_one)
            || !f.can_be_blocked || f.number_of_blockers == 0
    } else if level == 3 {
        (f.can_kill_all && f.is_worth_less_than_all_killers) || (((f.dangerous_blockers_present
            && f.can_kill_all_dangerous) || f.has_combat_effect) && !f.can_be_killed_by_one) || !f.can_be_blocked
    } else if level == 2 {
        !f.can_be_blocked || ((f.can_kill_all || f.has_combat_effect) && !f.can_be_killed_by_one && ((
        f.dangerous_blockers_present && f.can_kill_all_dangerous) || !f.can_be_killed))
    } else if level == 1 {
        !f.can_be_blocked || (f.number_of_blockers == 1 && f.can_kill_all && !f.can_be_killed_by_one)
    } else {
        (f.can_kill_all && f.is_worth_less_than_all_killers) || !f.can_be_blocked
    }
}

/// Whether a creature attacks: never with power at most 0; always when nothing
/// can block it; otherwise as its aggression level says.
pub open spec fn spec_should_attack(level: i32, me: PlayerId, a: Card, cards: Seq<Card>) -> bool {
    if pow(a) <= 0 {
        false
    } else if blocker_count(me, a, cards) == 0 {
        true
    } else {
        attack_by_aggression(level, pow(a), spec_factors(me, a, cards))
    }
}

/// The defensive-keyword part of a creature's value, minus defender, plus the land bonus.
pub open spec fn defense_value(c: Card) -> int {
    (if kw(c, KeywordKind::Reach) && !kw(c, KeywordKind::Flying) { 5int } else { 0int }) + (if kw(
        c,
        KeywordKind::Indestructible,
    ) {
        70int
    } else {
        0int
    }) + (if kw(c, KeywordKind::Hexproof) { 35int } else { 0int }) + (if kw(c, KeywordKind::Shroud) {
        30int
    } else {
        0int
    }) - (if kw(c, KeywordKind::Defender) { pow(c) * 9 + 40 } else { 0int }) + (if has_type(c, CardType::Land) {
        10int
    } else {
        0int
    })
}

/// Power of a card, zero when undefined.
pub fn power_of(card: &Card) -> (r: i32)
    ensures
        r == pow(*card),
        -128 <= r <= 127,
{
    match card.power {
        Some(p) => p as i32,
        None => 0,
    }
}

/// Toughness of a card, zero when undefined.
pub fn toughness_of(card: &Card) -> (r: i32)
    ensures
        r == tough(*card),
        -128 <= r <= 127,
{
    match card.toughness {
        Some(t) => t as i32,
        None => 0,
    }
}

fn evasion_part(card: &Card) -> (r: i32)
    ensures
        r == evasion_value(*card),
        -3000 <= r <= 3000,
{
    let power = power_of(card);
    let mut value: i32 = 0;
    let is_unblockable = other_keyword_contains(card, "can't be blocked") || other_keyword_contains(
        card,
        "unblockable",
    );
    if !is_unblockable {
        let has_fear = other_keyword_contains(card, "Fear");
        let has_intimidate = other_keyword_contains(card, "Intimidate");
        let has_skulk = other_keyword_contains(card, "Skulk");
        if has_fear {
            value = value + power * 6;
        }
        if has_intimidate {
            value = value + power * 6;
        }
        if card.has_menace() {
            value = value + power * 4;
        }
        if has_skulk {
            value = value + power * 3;
        }
    } else {
        value = value + power * 10;
    }
    value
}

#[verifier::rlimit(60)]
fn combat_part(card: &Card) -> (r: i32)
    ensures
        r == combat_value(*card),
        -1000 <= r <= 9000,
{
    let power = power_of(card);
    let toughness = toughness_of(card);
    if power <= 0 {
        return 0;
    }
    let strike: i32 = if card.has_double_strike() {
        10 + (power * 15)
    } else if card.has_first_strike() {
        10 + (power * 5)
    } else {
        0
    };
    let touch: i32 = if card.has_deathtouch() { 25 } else { 0 };
    let link: i32 = if card.has_lifelink() { power * 10 } else { 0 };
    let trample: i32 = if power > 1 && card.has_trample() { (power - 1) * 5 } else { 0 };
    let vigilance: i32 = if card.has_keyword_kind(KeywordKind::Vigilance) {
        (power * 5) + (toughness * 5)
    } else {
        0
    };
    let has_infect = other_keyword_contains(card, "Infect");
    let has_wither = other_keyword_contains(card, "Wither");
    let poison: i32 = if has_infect {
        power * 15
    } else if has_wither {
        power * 10
    } else {
        0
    };
    strike + touch + link + trample + vigilance + poison
}

fn defense_part(card: &Card) -> (r: i32)
    ensures
        r == defense_value(*card),
        -1300 <= r <= 1300,
{
    let power = power_of(card);
    let mut value: i32 = 0;
    if card.has_reach() && !card.has_flying() {
        value = value + 5;
    }
    if card.has_indestructible() {
        value = value + 70;
    }
    if card.has_hexproof() {
        value = value + 35;
    }
    if card.has_shroud() {
        value = value + 30;
    }
    if card.has_defender() {
        value = value - (power * 9 + 40);
    }
    if card.is_land() {
        value = value + 10;
    }
    value
}

/// A heuristic AI controller: creature evaluation and combat decisions.
pub struct HeuristicController {
    player_id: PlayerId,
    /// Aggression for combat decisions, from 0 (defensive) to 6 (all-in).
    aggression_level: i32,
}

impl HeuristicController {
    pub closed spec fn spec_player(&self) -> PlayerId {
        self.player_id
    }

    pub closed spec fn spec_aggression(&self) -> i32 {
        self.aggression_level
    }

    /// A controller with balanced aggression (3).
    pub fn new(player_id: PlayerId) -> (r: Self)
        ensures
            r.spec_player() == player_id,
            r.spec_aggression() == 3,
    {
        HeuristicController { player_id, aggression_level: 3 }
    }

    /// Same as `new`; the seed is ignored (randomness belongs to the game state).
    pub fn with_seed(player_id: PlayerId, _seed: u64) -> (r: Self)
        ensures
            r.spec_player() == player_id,
            r.spec_aggression() == 3,
    {
        HeuristicController { player_id, aggression_level: 3 }
    }

    /// The player this controller decides for.
    pub fn player_id(&self) -> (r: PlayerId)
        ensures
            r == self.spec_player(),
    {
        self.player_id
    }

    /// The current aggression level.
    pub fn aggression_level(&self) -> (r: i32)
        ensures
            r == self.spec_aggression(),
    {
        self.aggression_level
    }

    /// Sets the aggression level, clamped to 0..=6.
    pub fn set_aggression(&mut self, level: i32)
        ensures
            final(self).spec_player() == old(self).spec_player(),
            final(self).spec_aggression() == if level < 0 {
                0
            } else if level > 6 {
                6
            } else {
                level
            },
    {
        self.aggression_level = if level < 0 {
            0
        } else if level > 6 {
            6
        } else {
            level
        };
    }

    /// The value of a creature, counting stats and mana value.
    pub fn evaluate_creature(&self, card: &Card) -> (r: i32)
        ensures
            r == creature_value(*card, true, true),
    {
        self.evaluate_creature_impl(card, true, true)
    }

    /// The value of a creature, optionally counting power/toughness and mana value.
    pub fn evaluate_creature_impl(&self, card: &Card, consider_pt: bool, consider_cmc: bool) -> (r: i32)
        ensures
            r == creature_value(*card, consider_pt, consider_cmc),
    {
        let power = power_of(card);
        let toughness = toughness_of(card);
        let stats: i32 = if consider_pt { power * 15 + toughness * 10 } else { 0 };
        let mana: i32 = if consider_cmc { card.mana_cost.cmc() as i32 * 5 } else { 0 };
        let flying: i32 = if card.has_flying() { power * 10 } else { 0 };
        let evasion = evasion_part(card);
        let combat = combat_part(card);
        let defense = defense_part(card);
        100 + stats + mana + flying + evasion + combat + defense
    }

    /// Whether the blocker may block the attacker.
    pub fn can_block(&self, attacker: &Card, blocker: &Card) -> (r: bool)
        ensures
            r == spec_can_block(*attacker, *blocker),
    {
        if blocker.has_defender() {
            return false;
        }
        if attacker.has_flying() && !(blocker.has_flying() || blocker.has_reach()) {
            return false;
        }
        true
    }

    /// Whether the attacker destroys the blocker in combat.
    pub fn can_destroy_blocker(&self, attacker: &Card, blocker: &Card) -> (r: bool)
        ensures
            r == spec_destroys_blocker(*attacker, *blocker),
    {
        let attacker_power: i32 = match attacker.power {
            Some(p) => p as i32,
            None => 0,
        };
        let blocker_toughness: i32 = match blocker.toughness {
            Some(t) => t as i32,
            None => 0,
        };
        if attacker.has_deathtouch() && blocker_toughness > 0 {
            return true;
        }
        if blocker.has_indestructible() {
            return false;
        }
        let attacker_first_strike = attacker.has_first_strike() || attacker.has_double_strike();
        let blocker_first_strike = blocker.has_first_strike() || blocker.has_double_strike();
        if attacker_first_strike && !blocker_first_strike {
            return attacker_power >= blocker_toughness;
        }
        attacker_power >= blocker_toughness
    }

    /// Whether the blocker destroys the attacker in combat.
    pub fn can_destroy_attacker(&self, attacker: &Card, blocker: &Card) -> (r: bool)
        ensures
            r == spec_destroys_attacker(*attacker, *blocker),
    {
        let blocker_power: i32 = match blocker.power {
            Some(p) => p as i32,
            None => 0,
        };
        let attacker_toughness: i32 = match attacker.toughness {
            Some(t) => t as i32,
            None => 0,
        };
        if blocker.has_deathtouch() && attacker_toughness > 0 {
            return true;
        }
        if attacker.has_indestructible() {
            return false;
        }
        let attacker_first_strike = attacker.has_first_strike() || attacker.has_double_strike();
        let blocker_first_strike = blocker.has_first_strike() || blocker.has_double_strike();
        if blocker_first_strike && !attacker_first_strike {
            return blocker_power >= attacker_toughness;
        }
        blocker_power >= attacker_toughness
    }

    /// Whether to block the attacker with the blocker.
    pub fn should_block(&self, blocker: &Card, attacker: &Card) -> (r: bool)
        ensures
            r == spec_should_block(*blocker, *attacker),
    {
        let blocker_power: i32 = match blocker.power {
            Some(p) => p as i32,
            None => 0,
        };
        let blocker_toughness: i32 = match blocker.toughness {
            Some(t) => t as i32,
            None => 0,
        };
        let attacker_power: i32 = match attacker.power {
            Some(p) => p as i32,
            None => 0,
        };
        let attacker_toughness: i32 = match attacker.toughness {
            Some(t) => t as i32,
            None => 0,
        };
        let blocker_has_first_strike = blocker.has_first_strike() || blocker.has_double_strike();
        let attacker_has_first_strike = attacker.has_first_strike() || attacker.has_double_strike();
        let blocker_has_deathtouch = blocker.has_deathtouch();
        let can_kill_attacker = blocker_power >= attacker_toughness || blocker_has_deathtouch;
        let will_survive = if blocker_has_first_strike && !attacker_has_first_strike {
            blocker_power >= attacker_toughness || blocker_toughness > attacker_power
        } else {
            blocker_toughness > attacker_power
        };
        let blocker_value = self.evaluate_creature(blocker);
        let attacker_value = self.evaluate_creature(attacker);
        if can_kill_attacker && will_survive {
            return true;
        }
        if can_kill_attacker && !will_survive {
            return attacker_value >= blocker_value;
        }
        if !can_kill_attacker && will_survive {
            return blocker_value < 100;
        }
        false
    }
}


proof fn lemma_blocker_count_bound(me: PlayerId, a: Card, cards: Seq<Card>)
    ensures
        blocker_count(me, a, cards) <= cards.len(),
    decreases cards.len(),
{
    if cards.len() > 0 {
        lemma_blocker_count_bound(me, a, cards.drop_last());
    }
}

/// The index the best creature is taken from: a maximum value, the last one on ties.
pub open spec fn is_best_index(values: Seq<int>, k: int) -> bool {
    &&& 0 <= k < values.len()
    &&& forall|j: int| 0 <= j < values.len() ==> #[trigger] values[j] <= values[k]
    &&& forall|j: int| k < j < values.len() ==> #[trigger] values[j] < values[k]
}

/// The index the worst creature is taken from: a minimum value, the first one on ties.
pub open spec fn is_worst_index(values: Seq<int>, k: int) -> bool {
    &&& 0 <= k < values.len()
    &&& forall|j: int| 0 <= j < values.len() ==> values[k] <= #[trigger] values[j]
    &&& forall|j: int| 0 <= j < k ==> values[k] < #[trigger] values[j]
}

/// The creature values of a list of cards.
pub open spec fn values_of(creatures: Seq<&Card>) -> Seq<int> {
    creatures.map_values(|c: &Card| creature_value(*c, true, true))
}

impl HeuristicController {
    /// Combat math for an attacker against the permanents on the battlefield.
    pub fn calculate_combat_factors(&self, attacker: &Card, battlefield: &[Card]) -> (f: CombatFactors)
        ensures
            f == spec_factors(self.spec_player(), *attacker, battlefield@),
    {
        let ghost cards = battlefield@;
        let ghost me = self.spec_player();
        let attacker_value = self.evaluate_creature(attacker);
        let has_combat_effect = attacker.has_lifelink() || other_keyword_contains(attacker, "Wither")
            || other_keyword_contains(attacker, "Afflict");
        let mut number_of_blockers: usize = 0;
        let mut dangerous_blockers_present = false;
        let mut can_be_killed = false;
        let mut can_kill_all = true;
        let mut can_kill_all_dangerous = true;
        let mut is_worth_less_than_all_killers = true;
        let mut i: usize = 0;
        proof {
            assert(cards.take(0) =~= Seq::<Card>::empty());
        }
        while i < battlefield.len()
            invariant
                cards == battlefield@,
                me == self.spec_player(),
                i <= battlefield.len(),
                attacker_value == creature_value(*attacker, true, true),
                number_of_blockers == blocker_count(me, *attacker, cards.take(i as int)),
                number_of_blockers <= i,
                can_be_killed == exists|j: int| 0 <= j < i && potential_blocker(me, *attacker, cards[j]) && spec_destroys_attacker(*attacker, #[trigger] cards[j]),
                can_kill_all == forall|j: int| 0 <= j < i && potential_blocker(me, *attacker, cards[j]) ==> spec_destroys_blocker(*attacker, #[trigger] cards[j]),
                can_kill_all_dangerous == forall|j: int| 0 <= j < i && potential_blocker(me, *attacker, cards[j]) && !spec_destroys_blocker(*attacker, #[trigger] cards[j]) ==> !dangerous(cards[j]),
                is_worth_less_than_all_killers == forall|j: int| 0 <= j < i && potential_blocker(me, *attacker, cards[j]) && spec_destroys_attacker(*attacker, #[trigger] cards[j]) ==> creature_value(cards[j], true, true) > attacker_value,
                dangerous_blockers_present == exists|j: int| 0 <= j < i && potential_blocker(me, *attacker, cards[j]) && dangerous(#[trigger] cards[j]),
            decreases battlefield.len() - i,
        {
            proof {
                assert(cards.take(i + 1).drop_last() =~= cards.take(i as int));
            }
            let c = &battlefield[i];
            let potential = c.owner != self.player_id && c.is_creature() && !c.tapped && self.can_block(attacker, c);
            if potential {
                number_of_blockers = number_of_blockers + 1;
                let is_dangerous = c.has_lifelink() || other_keyword_contains(c, "Wither");
                if is_dangerous {
                    dangerous_blockers_present = true;
                }
                let blocker_value = self.evaluate_creature(c);
                if self.can_destroy_attacker(attacker, c) {
                    can_be_killed = true;
                    if blocker_value <= attacker_value {
                        is_worth_less_than_all_killers = false;
                    }
                }
                if !self.can_destroy_blocker(attacker, c) {
                    can_kill_all = false;
                    if is_dangerous {
                        can_kill_all_dangerous = false;
                    }
                }
            }
            i = i + 1;
        }
        proof {
            assert(cards.take(cards.len() as int) =~= cards);
        }
        CombatFactors {
            can_be_killed,
            can_be_killed_by_one: can_be_killed,
            can_kill_all,
            can_kill_all_dangerous,
            is_worth_less_than_all_killers,
            has_combat_effect,
            dangerous_blockers_present,
            can_be_blocked: number_of_blockers > 0,
            number_of_blockers,
        }
    }

    /// Whether the attacker should attack, given the permanents on the battlefield.
    pub fn should_attack(&self, attacker: &Card, battlefield: &[Card]) -> (r: bool)
        ensures
            r == spec_should_attack(self.spec_aggression(), self.spec_player(), *attacker, battlefield@),
    {
        let power = power_of(attacker);
        if power <= 0 {
            return false;
        }
        let factors = self.calculate_combat_factors(attacker, battlefield);
        if !factors.can_be_blocked && power > 0 {
            return true;
        }
        let level = self.aggression_level;
        if level == 6 {
            (factors.can_kill_all && factors.is_worth_less_than_all_killers) || !factors.can_be_blocked
        } else if level == 5 {
            power > 0
        } else if level == 4 {
            factors.can_kill_all || (factors.dangerous_blockers_present && factors.can_kill_all_dangerous
                && !factors.can_be_killed_by_one) || !factors.can_be_blocked || factors.number_of_blockers == 0
        } else if level == 3 {
            (factors.can_kill_all && factors.is_worth_less_than_all_killers) || (((
            factors.dangerous_blockers_present && factors.can_kill_all_dangerous) || factors.has_combat_effect)
                && !factors.can_be_killed_by_one) || !factors.can_be_blocked
        } else if level == 2 {
            !factors.can_be_blocked || ((factors.can_kill_all || factors.has_combat_effect)
                && !factors.can_be_killed_by_one && ((factors.dangerous_blockers_present
                && factors.can_kill_all_dangerous) || !factors.can_be_killed))
        } else if level == 1 {
            !factors.can_be_blocked || (factors.number_of_blockers == 1 && factors.can_kill_all
                && !factors.can_be_killed_by_one)
        } else {
            (factors.can_kill_all && factors.is_worth_less_than_all_killers) || !factors.can_be_blocked
        }
    }

    /// The most valuable creature of a list (the last one among equals).
    pub fn get_best_creature<'a>(&self, creatures: &[&'a Card]) -> (r: Option<&'a Card>)
        ensures
            match r {
                None => creatures@.len() == 0,
                Some(c) => exists|k: int| is_best_index(values_of(creatures@), k) && c == creatures@[k],
            },
    {
        if creatures.len() == 0 {
            return None;
        }
        let ghost vals = values_of(creatures@);
        let mut best: usize = 0;
        let mut best_value = self.evaluate_creature(creatures[0]);
        let mut i: usize = 1;
        while i < creatures.len()
            invariant
                vals == values_of(creatures@),
                1 <= i <= creatures.len(),
                best < i,
                best_value == vals[best as int],
                forall|j: int| 0 <= j < i ==> #[trigger] vals[j] <= vals[best as int],
                forall|j: int| best < j < i ==> #[trigger] vals[j] < vals[best as int],
            decreases creatures.len() - i,
        {
            let v = self.evaluate_creature(creatures[i]);
            if v >= best_value {
                best = i;
                best_value = v;
            }
            i = i + 1;
        }
        Some(creatures[best])
    }

    /// The least valuable creature of a list (the first one among equals).
    pub fn get_worst_creature<'a>(&self, creatures: &[&'a Card]) -> (r: Option<&'a Card>)
        ensures
            match r {
                None => creatures@.len() == 0,
                Some(c) => exists|k: int| is_worst_index(values_of(creatures@), k) && c == creatures@[k],
            },
    {
        if creatures.len() == 0 {
            return None;
        }
        let ghost vals = values_of(creatures@);
        let mut worst: usize = 0;
        let mut worst_value = self.evaluate_creature(creatures[0]);
        let mut i: usize = 1;
        while i < creatures.len()
            invariant
                vals == values_of(creatures@),
                1 <= i <= creatures.len(),
                worst < i,
                worst_value == vals[worst as int],
                forall|j: int| 0 <= j < i ==> vals[worst as int] <= #[trigger] vals[j],
                forall|j: int| 0 <= j < worst ==> vals[worst as int] < #[trigger] vals[j],
            decreases creatures.len() - i,
        {
            let v = self.evaluate_creature(creatures[i]);
            if v < worst_value {
                worst = i;
                worst_value = v;
            }
            i = i + 1;
        }
        Some(creatures[worst])
    }
}

} // verus!
