//! Board evaluation: scores for game states, lands and other permanents,
//! seen from one player.

use vstd::prelude::*;
use crate::card::{has_type, ActivatedAbility, Card, CardType, Cost, CostPart, Effect};
use crate::heuristic::{creature_value, HeuristicController};
use crate::ids::PlayerId;
use crate::mana::ManaCost;

verus! {

/// The value of a game state from the AI's point of view.
#[derive(Debug, Clone, Copy, PartialEq, Eq, Structural)]
pub struct Score {
    /// Overall board value (positive favors the AI).
    pub value: i32,
    /// The value not counting creatures that are summoning sick before main phase 2.
    pub summon_sick_value: i32,
}

impl Score {
    /// A score with the same value for both measures.
    pub fn new(value: i32) -> (r: Self)
        ensures
            r.value == value,
            r.summon_sick_value == value,
    {
        Score { value, summon_sick_value: value }
    }

    /// A score with a separate summoning-sick value.
    pub fn with_summon_sick(value: i32, summon_sick_value: i32) -> (r: Self)
        ensures
            r.value == value,
            r.summon_sick_value == summon_sick_value,
    {
        Score { value, summon_sick_value }
    }

    /// The score of a won game: the largest value for both measures.
    pub fn win() -> (r: Self)
        ensures
            r.value == i32::MAX,
            r.summon_sick_value == i32::MAX,
    {
        Score { value: i32::MAX, summon_sick_value: i32::MAX }
    }

    /// The score of a lost game: the smallest value for both measures.
    pub fn loss() -> (r: Self)
        ensures
            r.value == i32::MIN,
            r.summon_sick_value == i32::MIN,
    {
        Score { value: i32::MIN, summon_sick_value: i32::MIN }
    }
}

// ---------------------------------------------------------------------------
// Lands
// ---------------------------------------------------------------------------

/// Total converted cost of the mana added by a list of effects.
pub open spec fn generated(effects: Seq<Effect>) -> int
    decreases effects.len(),
{
    if effects.len() == 0 {
        0
    } else {
        generated(effects.drop_last()) + match effects.last() {
            Effect::AddMana { mana, .. } => mana.spec_cmc(),
            _ => 0,
        }
    }
}

/// The amount of one kind of mana in a cost: 0..=4 the colors W, U, B, R, G, 5 colorless.
pub open spec fn mana_amount(m: ManaCost, which: int) -> int {
    if which == 0 {
        m.white as int
    } else if which == 1 {
        m.blue as int
    } else if which == 2 {
        m.black as int
    } else if which == 3 {
        m.red as int
    } else if which == 4 {
        m.green as int
    } else {
        m.colorless as int
    }
}

/// Some effect adds mana of the given kind.
pub open spec fn effects_produce(effects: Seq<Effect>, which: int) -> bool {
    exists|i: int| 0 <= i < effects.len() && (#[trigger] effects[i] matches Effect::AddMana { mana, .. } && mana_amount(mana, which) > 0)
}

/// Converted mana cost of the mana parts of a composite cost.
pub open spec fn parts_cmc(parts: Seq<CostPart>) -> int
    decreases parts.len(),
{
    if parts.len() == 0 {
        0
    } else {
        parts_cmc(parts.drop_last()) + match parts.last() {
            CostPart::Mana(c) => c.spec_cmc(),
            CostPart::TapAndMana(c) => c.spec_cmc(),
            _ => 0,
        }
    }
}

/// Converted mana cost of an activation cost.
pub open spec fn cost_cmc(c: Cost) -> int {
    match c {
        Cost::Mana(m) => m.spec_cmc(),
        Cost::TapAndMana(m) => m.spec_cmc(),
        Cost::Composite(parts) => parts_cmc(parts@),
        _ => 0,
    }
}

/// Net mana of a mana ability: mana generated minus the activation cost.
pub open spec fn net_mana(a: ActivatedAbility) -> int {
    generated(a.effects@) - cost_cmc(a.cost)
}

/// The best net mana among the mana abilities (at least 0).
pub open spec fn max_net(abs: Seq<ActivatedAbility>) -> int
    decreases abs.len(),
{
    if abs.len() == 0 {
        0
    } else {
        let prev = max_net(abs.drop_last());
        let a = abs.last();
        if a.is_mana_ability && net_mana(a) > prev { net_mana(a) } else { prev }
    }
}

/// Some mana ability adds mana of the given kind.
pub open spec fn land_produces(abs: Seq<ActivatedAbility>, which: int) -> bool {
    exists|i: int| 0 <= i < abs.len() && (#[trigger] abs[i]).is_mana_ability && effects_produce(abs[i].effects@, which)
}

/// Number of kinds of mana (W, U, B, R, G, C) the mana abilities add.
pub open spec fn colors_count(abs: Seq<ActivatedAbility>) -> int {
    (if land_produces(abs, 0) { 1int } else { 0int }) + (if land_produces(abs, 1) { 1int } else { 0int }) + (if land_produces(abs, 2) {
        1int
    } else {
        0int
    }) + (if land_produces(abs, 3) { 1int } else { 0int }) + (if land_produces(abs, 4) { 1int } else { 0int }) + (if land_produces(
        abs,
        5,
    ) {
        1int
    } else {
        0int
    })
}

/// The cost involves tapping.
pub open spec fn has_tap_cost(c: Cost) -> bool {
    match c {
        Cost::Tap => true,
        Cost::TapAndMana(_) => true,
        Cost::Composite(parts) => exists|i: int| #![trigger parts@[i]] 0 <= i < parts@.len() && (parts@[i] is Tap || parts@[i] is TapAndMana),
        _ => false,
    }
}

/// The cost involves a sacrifice.
pub open spec fn has_sac_cost(c: Cost) -> bool {
    match c {
        Cost::Sacrifice { .. } => true,
        Cost::SacrificePattern { .. } => true,
        Cost::Composite(parts) => exists|i: int| #![trigger parts@[i]] 0 <= i < parts@.len() && (parts@[i] is Sacrifice || parts@[i] is SacrificePattern),
        _ => false,
    }
}

/// Value of a non-mana ability of a land: 25 without a tap cost (a manland),
/// 10 with a sacrifice cost, 50 for a repeatable tap ability.
pub open spec fn utility_value(a: ActivatedAbility) -> int {
    if !has_tap_cost(a.cost) {
        25
    } else if has_sac_cost(a.cost) {
        10
    } else {
        50
    }
}

/// Sum of the values of the non-mana abilities.
pub open spec fn utility_sum(abs: Seq<ActivatedAbility>) -> int
    decreases abs.len(),
{
    if abs.len() == 0 {
        0
    } else {
        utility_sum(abs.drop_last()) + if abs.last().is_mana_ability { 0 } else { utility_value(abs.last()) }
    }
}

/// The value of a land: 3, plus 100 per net mana of its best mana ability,
/// plus 3 per kind of mana produced, plus the value of its other abilities.
pub open spec fn land_value(card: Card) -> int {
    let abs = card.activated_abilities@;
    3 + 100 * max_net(abs) + 3 * colors_count(abs) + utility_sum(abs)
}

/// Evaluating the land does not overflow `i32`.
pub open spec fn land_value_fits(card: Card) -> bool {
    let abs = card.activated_abilities@;
    &&& forall|i: int| 0 <= i < abs.len() && (#[trigger] abs[i]).is_mana_ability ==> generated(abs[i].effects@) <= 2147483647 && cost_cmc(abs[i].cost) <= 2147483647
    &&& land_value(card) <= 2147483647
}

proof fn lemma_generated_nonneg(effects: Seq<Effect>)
    ensures
        generated(effects) >= 0,
    decreases effects.len(),
{
    if effects.len() > 0 {
        lemma_generated_nonneg(effects.drop_last());
    }
}

proof fn lemma_generated_prefix(effects: Seq<Effect>, i: int)
    requires
        0 <= i <= effects.len(),
    ensures
        generated(effects.take(i)) <= generated(effects),
    decreases effects.len() - i,
{
    if i < effects.len() {
        assert(effects.take(i + 1).drop_last() =~= effects.take(i));
        lemma_generated_prefix(effects, i + 1);
    } else {
        assert(effects.take(i) =~= effects);
    }
}

proof fn lemma_parts_nonneg(parts: Seq<CostPart>)
    ensures
        parts_cmc(parts) >= 0,
    decreases parts.len(),
{
    if parts.len() > 0 {
        lemma_parts_nonneg(parts.drop_last());
    }
}

proof fn lemma_utility_nonneg(abs: Seq<ActivatedAbility>)
    ensures
        utility_sum(abs) >= 0,
    decreases abs.len(),
{
    if abs.len() > 0 {
        lemma_utility_nonneg(abs.drop_last());
    }
}

proof fn lemma_parts_prefix(parts: Seq<CostPart>, i: int)
    requires
        0 <= i <= parts.len(),
    ensures
        0 <= parts_cmc(parts.take(i)) <= parts_cmc(parts),
    decreases parts.len() - i,
{
    if i < parts.len() {
        assert(parts.take(i + 1).drop_last() =~= parts.take(i));
        lemma_parts_prefix(parts, i + 1);
    } else {
        assert(parts.take(i) =~= parts);
    }
    lemma_parts_nonneg(parts.take(i));
}

/// Mana generated by a list of effects.
fn generated_exec(effects: &Vec<Effect>) -> (r: i32)
    requires
        generated(effects@) <= 2147483647,
    ensures
        r == generated(effects@),
{
    let mut total: i32 = 0;
    let mut i: usize = 0;
    proof {
        assert(effects@.take(0) =~= Seq::<Effect>::empty());
    }
    while i < effects.len()
        invariant
            i <= effects.len(),
            generated(effects@) <= 2147483647,
            total == generated(effects@.take(i as int)),
        decreases effects.len() - i,
    {
        proof {
            assert(effects@.take(i + 1).drop_last() =~= effects@.take(i as int));
            lemma_generated_prefix(effects@, i + 1);
            lemma_generated_nonneg(effects@.take(i as int));
        }
        match &effects[i] {
            Effect::AddMana { mana, .. } => {
                total = total + mana.cmc() as i32;
            },
            _ => {},
        }
        i = i + 1;
    }
    proof {
        assert(effects@.take(effects@.len() as int) =~= effects@);
    }
    total
}

/// Whether some effect adds mana of the given kind.
fn effects_produce_exec(effects: &Vec<Effect>, which: u8) -> (r: bool)
    ensures
        r == effects_produce(effects@, which as int),
{
    let mut i: usize = 0;
    while i < effects.len()
        invariant
            i <= effects.len(),
            forall|j: int| 0 <= j < i ==> !(#[trigger] effects@[j] matches Effect::AddMana { mana, .. } && mana_amount(mana, which as int) > 0),
        decreases effects.len() - i,
    {
        match &effects[i] {
            Effect::AddMana { mana, .. } => {
                let amount = if which == 0 {
                    mana.white
                } else if which == 1 {
                    mana.blue
                } else if which == 2 {
                    mana.black
                } else if which == 3 {
                    mana.red
                } else if which == 4 {
                    mana.green
                } else {
                    mana.colorless
                };
                if amount > 0 {
                    return true;
                }
            },
            _ => {},
        }
        i = i + 1;
    }
    false
}

/// Converted mana cost of an activation cost.
fn cost_cmc_exec(cost: &Cost) -> (r: i32)
    requires
        cost_cmc(*cost) <= 2147483647,
    ensures
        r == cost_cmc(*cost),
{
    match cost {
        Cost::Mana(c) => c.cmc() as i32,
        Cost::TapAndMana(c) => c.cmc() as i32,
        Cost::Composite(parts) => {
            let mut total: i32 = 0;
            let mut i: usize = 0;
            proof {
                assert(parts@.take(0) =~= Seq::<CostPart>::empty());
            }
            while i < parts.len()
                invariant
                    i <= parts.len(),
                    parts_cmc(parts@) <= 2147483647,
                    total == parts_cmc(parts@.take(i as int)),
                decreases parts.len() - i,
            {
                proof {
                    assert(parts@.take(i + 1).drop_last() =~= parts@.take(i as int));
                    lemma_parts_prefix(parts@, i + 1);
                    lemma_parts_prefix(parts@, i as int);
                }
                match &parts[i] {
                    CostPart::Mana(c) => {
                        total = total + c.cmc() as i32;
                    },
                    CostPart::TapAndMana(c) => {
                        total = total + c.cmc() as i32;
                    },
                    _ => {},
                }
                i = i + 1;
            }
            proof {
                assert(parts@.take(parts@.len() as int) =~= parts@);
            }
            total
        },
        _ => 0,
    }
}

fn parts_have_tap(parts: &Vec<CostPart>) -> (r: bool)
    ensures
        r == exists|i: int| #![trigger parts@[i]] 0 <= i < parts@.len() && (parts@[i] is Tap || parts@[i] is TapAndMana),
{
    let mut i: usize = 0;
    while i < parts.len()
        invariant
            i <= parts.len(),
            forall|j: int| #![trigger parts@[j]] 0 <= j < i ==> !(parts@[j] is Tap || parts@[j] is TapAndMana),
        decreases parts.len() - i,
    {
        match &parts[i] {
            CostPart::Tap => {
                return true;
            },
            CostPart::TapAndMana(_) => {
                return true;
            },
            _ => {},
        }
        i = i + 1;
    }
    false
}

fn parts_have_sac(parts: &Vec<CostPart>) -> (r: bool)
    ensures
        r == exists|i: int| #![trigger parts@[i]] 0 <= i < parts@.len() && (parts@[i] is Sacrifice || parts@[i] is SacrificePattern),
{
    let mut i: usize = 0;
    while i < parts.len()
        invariant
            i <= parts.len(),
            forall|j: int| #![trigger parts@[j]] 0 <= j < i ==> !(parts@[j] is Sacrifice || parts@[j] is SacrificePattern),
        decreases parts.len() - i,
    {
        match &parts[i] {
            CostPart::Sacrifice { .. } => {
                return true;
            },
            CostPart::SacrificePattern { .. } => {
                return true;
            },
            _ => {},
        }
        i = i + 1;
    }
    false
}

fn has_tap_cost_exec(cost: &Cost) -> (r: bool)
    ensures
        r == has_tap_cost(*cost),
{
    match cost {
        Cost::Tap => true,
        Cost::TapAndMana(_) => true,
        Cost::Composite(parts) => parts_have_tap(parts),
        _ => false,
    }
}

fn has_sac_cost_exec(cost: &Cost) -> (r: bool)
    ensures
        r == has_sac_cost(*cost),
{
    match cost {
        Cost::Sacrifice { .. } => true,
        Cost::SacrificePattern { .. } => true,
        Cost::Composite(parts) => parts_have_sac(parts),
        _ => false,
    }
}

proof fn lemma_max_net_nonneg(abs: Seq<ActivatedAbility>)
    ensures
        max_net(abs) >= 0,
    decreases abs.len(),
{
    if abs.len() > 0 {
        lemma_max_net_nonneg(abs.drop_last());
    }
}

proof fn lemma_max_net_prefix(abs: Seq<ActivatedAbility>, i: int)
    requires
        0 <= i <= abs.len(),
    ensures
        max_net(abs.take(i)) <= max_net(abs),
    decreases abs.len() - i,
{
    if i < abs.len() {
        assert(abs.take(i + 1).drop_last() =~= abs.take(i));
        lemma_max_net_prefix(abs, i + 1);
    } else {
        assert(abs.take(i) =~= abs);
    }
}

proof fn lemma_utility_prefix(abs: Seq<ActivatedAbility>, i: int)
    requires
        0 <= i <= abs.len(),
    ensures
        0 <= utility_sum(abs.take(i)) <= utility_sum(abs),
    decreases abs.len() - i,
{
    if i < abs.len() {
        assert(abs.take(i + 1).drop_last() =~= abs.take(i));
        lemma_utility_prefix(abs, i + 1);
    } else {
        assert(abs.take(i) =~= abs);
    }
    lemma_utility_nonneg(abs.take(i));
}

/// An ability that makes no mana leaves the mana side of a land unchanged.
proof fn lemma_mana_side_ignores(abs: Seq<ActivatedAbility>, a: ActivatedAbility)
    requires
        !a.is_mana_ability,
    ensures
        max_net(abs.push(a)) == max_net(abs),
        colors_count(abs.push(a)) == colors_count(abs),
        utility_sum(abs.push(a)) == utility_sum(abs) + utility_value(a),
{
    let ext = abs.push(a);
    assert(ext.drop_last() =~= abs);
    assert forall|w: int| land_produces(ext, w) == land_produces(abs, w) by {
        if land_produces(ext, w) {
            let i = choose|i: int| 0 <= i < ext.len() && (#[trigger] ext[i]).is_mana_ability && effects_produce(ext[i].effects@, w);
            assert(i < abs.len());
            assert(ext[i] == abs[i]);
        }
        if land_produces(abs, w) {
            let i = choose|i: int| 0 <= i < abs.len() && (#[trigger] abs[i]).is_mana_ability && effects_produce(abs[i].effects@, w);
            assert(ext[i] == abs[i]);
        }
    }
}

/// A one-shot ability is worth less than a repeatable one: beside the same
/// abilities, a non-mana ability that taps and sacrifices the land adds
/// exactly 10 to its value, one that only taps it adds exactly 50, and one
/// that does not tap it (such as a manland's animation) adds exactly 25.
pub proof fn law_sacrifice_ability_worth_less(
    base: Card,
    with_sac: Card,
    with_tap: Card,
    with_untapped: Card,
    sac: ActivatedAbility,
    tap: ActivatedAbility,
    untapped: ActivatedAbility,
)
    requires
        with_sac.activated_abilities@ == base.activated_abilities@.push(sac),
        with_tap.activated_abilities@ == base.activated_abilities@.push(tap),
        with_untapped.activated_abilities@ == base.activated_abilities@.push(untapped),
        !sac.is_mana_ability,
        !tap.is_mana_ability,
        !untapped.is_mana_ability,
        has_tap_cost(sac.cost),
        has_sac_cost(sac.cost),
        has_tap_cost(tap.cost),
        !has_sac_cost(tap.cost),
        !has_tap_cost(untapped.cost),
    ensures
        land_value(with_sac) == land_value(base) + 10,
        land_value(with_tap) == land_value(base) + 50,
        land_value(with_untapped) == land_value(base) + 25,
        land_value(with_sac) < land_value(with_tap),
{
    lemma_mana_side_ignores(base.activated_abilities@, sac);
    lemma_mana_side_ignores(base.activated_abilities@, tap);
    lemma_mana_side_ignores(base.activated_abilities@, untapped);
}

/// Whether some mana ability adds mana of the given kind.
fn land_produces_exec(abs: &Vec<ActivatedAbility>, which: u8) -> (r: bool)
    ensures
        r == land_produces(abs@, which as int),
{
    let mut i: usize = 0;
    while i < abs.len()
        invariant
            i <= abs.len(),
            forall|j: int| 0 <= j < i ==> !((#[trigger] abs@[j]).is_mana_ability && effects_produce(abs@[j].effects@, which as int)),
        decreases abs.len() - i,
    {
        if abs[i].is_mana_ability && effects_produce_exec(&abs[i].effects, which) {
            return true;
        }
        i = i + 1;
    }
    false
}

/// Evaluates permanents for the AI.
pub struct GameStateEvaluator {
    creature_eval: HeuristicController,
}

impl GameStateEvaluator {
    /// The player the evaluator scores for.
    pub closed spec fn spec_player(&self) -> PlayerId {
        self.creature_eval.spec_player()
    }

    /// An evaluator for a player.
    pub fn new(player_id: PlayerId) -> (r: Self)
        ensures
            r.spec_player() == player_id,
    {
        GameStateEvaluator { creature_eval: HeuristicController::new(player_id) }
    }

    /// The value of a land.
    pub fn evaluate_land(card: &Card) -> (r: i32)
        requires
            land_value_fits(*card),
        ensures
            r == land_value(*card),
    {
        let ghost abs = card.activated_abilities@;
        let mut max_produced: i32 = 0;
        let mut i: usize = 0;
        proof {
            assert(abs.take(0) =~= Seq::<ActivatedAbility>::empty());
            lemma_max_net_nonneg(abs);
            lemma_utility_prefix(abs, 0);
        }
        while i < card.activated_abilities.len()
            invariant
                abs == card.activated_abilities@,
                land_value_fits(*card),
                i <= abs.len(),
                max_produced == max_net(abs.take(i as int)),
                0 <= max_net(abs),
                utility_sum(abs) >= 0,
            decreases abs.len() - i,
        {
            proof {
                assert(abs.take(i + 1).drop_last() =~= abs.take(i as int));
                lemma_max_net_prefix(abs, i + 1);
                lemma_max_net_nonneg(abs.take(i as int));
                assert(abs[i as int].is_mana_ability ==> generated(abs[i as int].effects@) <= 2147483647);
            }
            let ability = &card.activated_abilities[i];
            if ability.is_mana_ability {
                let mana_generated = generated_exec(&ability.effects);
                let mana_cost = cost_cmc_exec(&ability.cost);
                proof {
                    lemma_generated_nonneg(ability.effects@);
                }
                let net_produced = mana_generated - mana_cost;
                if net_produced > max_produced {
                    max_produced = net_produced;
                }
            }
            i = i + 1;
        }
        proof {
            assert(abs.take(abs.len() as int) =~= abs);
        }
        let mut colors: i32 = 0;
        if land_produces_exec(&card.activated_abilities, 0) {
            colors = colors + 1;
        }
        if land_produces_exec(&card.activated_abilities, 1) {
            colors = colors + 1;
        }
        if land_produces_exec(&card.activated_abilities, 2) {
            colors = colors + 1;
        }
        if land_produces_exec(&card.activated_abilities, 3) {
            colors = colors + 1;
        }
        if land_produces_exec(&card.activated_abilities, 4) {
            colors = colors + 1;
        }
        if land_produces_exec(&card.activated_abilities, 5) {
            colors = colors + 1;
        }
        let mut value: i32 = 3 + 100 * max_produced + colors * 3;
        let mut k: usize = 0;
        proof {
            assert(abs.take(0) =~= Seq::<ActivatedAbility>::empty());
        }
        while k < card.activated_abilities.len()
            invariant
                abs == card.activated_abilities@,
                land_value_fits(*card),
                k <= abs.len(),
                value == 3 + 100 * max_net(abs) + 3 * colors_count(abs) + utility_sum(abs.take(k as int)),
                max_net(abs) >= 0,
            decreases abs.len() - k,
        {
            proof {
                assert(abs.take(k + 1).drop_last() =~= abs.take(k as int));
                lemma_utility_prefix(abs, k + 1);
            }
            let ability = &card.activated_abilities[k];
            if !ability.is_mana_ability {
                if !has_tap_cost_exec(&ability.cost) {
                    value = value + 25;
                } else if has_sac_cost_exec(&ability.cost) {
                    value = value + 10;
                } else {
                    value = value + 50;
                }
            }
            k = k + 1;
        }
        proof {
            assert(abs.take(abs.len() as int) =~= abs);
        }
        value
    }
}


// ---------------------------------------------------------------------------
// Other permanents and the mana base
// ---------------------------------------------------------------------------

/// The value of a permanent: creatures by the creature evaluator, lands by
/// `land_value`, enchantments 0, anything else 50 plus 30 per mana value.
pub open spec fn card_value(card: Card) -> int {
    if has_type(card, CardType::Creature) {
        creature_value(card, true, true)
    } else if has_type(card, CardType::Land) {
        land_value(card)
    } else if has_type(card, CardType::Enchantment) {
        0
    } else {
        50 + 30 * card.mana_cost.spec_cmc()
    }
}

/// Evaluating the permanent does not overflow.
pub open spec fn card_value_fits(card: Card) -> bool {
    !has_type(card, CardType::Creature) && has_type(card, CardType::Land) ==> land_value_fits(card)
}

/// Mana sources counted by an ability's effects: each mana effect counts its
/// converted cost, at least 1.
pub open spec fn effect_sources(effects: Seq<Effect>) -> int
    decreases effects.len(),
{
    if effects.len() == 0 {
        0
    } else {
        effect_sources(effects.drop_last()) + match effects.last() {
            Effect::AddMana { mana, .. } => if mana.spec_cmc() > 1 { mana.spec_cmc() } else { 1 },
            _ => 0,
        }
    }
}

/// Mana sources counted by a permanent's mana abilities.
pub open spec fn ability_sources(abs: Seq<ActivatedAbility>) -> int
    decreases abs.len(),
{
    if abs.len() == 0 {
        0
    } else {
        ability_sources(abs.drop_last()) + if abs.last().is_mana_ability { effect_sources(abs.last().effects@) } else { 0 }
    }
}

/// Mana sources counted over the player's permanents.
pub open spec fn base_sources(cards: Seq<Card>, me: PlayerId) -> int
    decreases cards.len(),
{
    if cards.len() == 0 {
        0
    } else {
        base_sources(cards.drop_last(), me) + if cards.last().owner == me { ability_sources(cards.last().activated_abilities@) } else { 0 }
    }
}

/// Some permanent of the player has a mana ability adding mana of this color.
pub open spec fn base_color(cards: Seq<Card>, me: PlayerId, which: int) -> bool {
    exists|i: int| 0 <= i < cards.len() && (#[trigger] cards[i]).owner == me && land_produces(cards[i].activated_abilities@, which)
}

/// Number of colors (W, U, B, R, G) the player's mana abilities add.
pub open spec fn base_colors(cards: Seq<Card>, me: PlayerId) -> int {
    (if base_color(cards, me, 0) { 1int } else { 0int }) + (if base_color(cards, me, 1) { 1int } else { 0int }) + (if base_color(
        cards,
        me,
        2,
    ) {
        1int
    } else {
        0int
    }) + (if base_color(cards, me, 3) { 1int } else { 0int }) + (if base_color(cards, me, 4) { 1int } else { 0int })
}

/// Value of a number of mana sources: 100 each up to 6, 50 each up to 10, 5 beyond.
pub open spec fn sources_value(t: int) -> int {
    if t <= 6 {
        t * 100
    } else if t <= 10 {
        600 + (t - 6) * 50
    } else {
        800 + (t - 10) * 5
    }
}

/// The simplified mana base value: the sources value plus 50 per color.
pub open spec fn mana_base_value(cards: Seq<Card>, me: PlayerId) -> int {
    sources_value(base_sources(cards, me)) + 50 * base_colors(cards, me)
}

/// Computing the mana base value does not overflow.
pub open spec fn mana_base_fits(cards: Seq<Card>, me: PlayerId) -> bool {
    base_sources(cards, me) <= 2147483647 && mana_base_value(cards, me) <= 2147483647
}

proof fn lemma_effect_sources_nonneg(e: Seq<Effect>)
    ensures
        effect_sources(e) >= 0,
    decreases e.len(),
{
    if e.len() > 0 {
        lemma_effect_sources_nonneg(e.drop_last());
    }
}

proof fn lemma_ability_sources_nonneg(a: Seq<ActivatedAbility>)
    ensures
        ability_sources(a) >= 0,
    decreases a.len(),
{
    if a.len() > 0 {
        lemma_ability_sources_nonneg(a.drop_last());
        lemma_effect_sources_nonneg(a.last().effects@);
    }
}

proof fn lemma_base_sources_prefix(cards: Seq<Card>, me: PlayerId, i: int)
    requires
        0 <= i <= cards.len(),
    ensures
        0 <= base_sources(cards.take(i), me) <= base_sources(cards, me),
    decreases cards.len() - i,
{
    if i < cards.len() {
        assert(cards.take(i + 1).drop_last() =~= cards.take(i));
        lemma_base_sources_prefix(cards, me, i + 1);
        lemma_ability_sources_nonneg(cards[i].activated_abilities@);
    } else {
        assert(cards.take(i) =~= cards);
    }
    lemma_base_nonneg(cards.take(i), me);
}

proof fn lemma_base_nonneg(cards: Seq<Card>, me: PlayerId)
    ensures
        base_sources(cards, me) >= 0,
    decreases cards.len(),
{
    if cards.len() > 0 {
        lemma_base_nonneg(cards.drop_last(), me);
        lemma_ability_sources_nonneg(cards.last().activated_abilities@);
    }
}

proof fn lemma_ability_sources_prefix(a: Seq<ActivatedAbility>, i: int)
    requires
        0 <= i <= a.len(),
    ensures
        0 <= ability_sources(a.take(i)) <= ability_sources(a),
    decreases a.len() - i,
{
    if i < a.len() {
        assert(a.take(i + 1).drop_last() =~= a.take(i));
        lemma_ability_sources_prefix(a, i + 1);
        lemma_effect_sources_nonneg(a[i].effects@);
    } else {
        assert(a.take(i) =~= a);
    }
    lemma_ability_sources_nonneg(a.take(i));
}

proof fn lemma_effect_sources_prefix(e: Seq<Effect>, i: int)
    requires
        0 <= i <= e.len(),
    ensures
        0 <= effect_sources(e.take(i)) <= effect_sources(e),
    decreases e.len() - i,
{
    if i < e.len() {
        assert(e.take(i + 1).drop_last() =~= e.take(i));
        lemma_effect_sources_prefix(e, i + 1);
    } else {
        assert(e.take(i) =~= e);
    }
    lemma_effect_sources_nonneg(e.take(i));
}

fn effect_sources_exec(effects: &Vec<Effect>) -> (r: i32)
    requires
        effect_sources(effects@) <= 2147483647,
    ensures
        r == effect_sources(effects@),
{
    let mut total: i32 = 0;
    let mut i: usize = 0;
    proof {
        assert(effects@.take(0) =~= Seq::<Effect>::empty());
    }
    while i < effects.len()
        invariant
            i <= effects.len(),
            effect_sources(effects@) <= 2147483647,
            total == effect_sources(effects@.take(i as int)),
        decreases effects.len() - i,
    {
        proof {
            assert(effects@.take(i + 1).drop_last() =~= effects@.take(i as int));
            lemma_effect_sources_prefix(effects@, i + 1);
        }
        match &effects[i] {
            Effect::AddMana { mana, .. } => {
                let amount = mana.cmc() as i32;
                total = total + if amount > 1 { amount } else { 1 };
            },
            _ => {},
        }
        i = i + 1;
    }
    proof {
        assert(effects@.take(effects@.len() as int) =~= effects@);
    }
    total
}

fn ability_sources_exec(abs: &Vec<ActivatedAbility>) -> (r: i32)
    requires
        ability_sources(abs@) <= 2147483647,
    ensures
        r == ability_sources(abs@),
{
    let mut total: i32 = 0;
    let mut i: usize = 0;
    proof {
        assert(abs@.take(0) =~= Seq::<ActivatedAbility>::empty());
    }
    while i < abs.len()
        invariant
            i <= abs.len(),
            ability_sources(abs@) <= 2147483647,
            total == ability_sources(abs@.take(i as int)),
        decreases abs.len() - i,
    {
        proof {
            assert(abs@.take(i + 1).drop_last() =~= abs@.take(i as int));
            lemma_ability_sources_prefix(abs@, i + 1);
            lemma_ability_sources_nonneg(abs@.take(i as int));
            lemma_effect_sources_nonneg(abs@[i as int].effects@);
            assert(abs@.take(i + 1).last() == abs@[i as int]);
        }
        if abs[i].is_mana_ability {
            let n = effect_sources_exec(&abs[i].effects);
            total = total + n;
        }
        i = i + 1;
    }
    proof {
        assert(abs@.take(abs@.len() as int) =~= abs@);
    }
    total
}

fn base_color_exec(cards: &[Card], me: PlayerId, which: u8) -> (r: bool)
    ensures
        r == base_color(cards@, me, which as int),
{
    let mut i: usize = 0;
    while i < cards.len()
        invariant
            i <= cards.len(),
            forall|j: int| 0 <= j < i ==> !((#[trigger] cards@[j]).owner == me && land_produces(cards@[j].activated_abilities@, which as int)),
        decreases cards.len() - i,
    {
        if cards[i].owner == me && land_produces_exec(&cards[i].activated_abilities, which) {
            return true;
        }
        i = i + 1;
    }
    false
}

impl GameStateEvaluator {
    /// The value of a permanent on the battlefield.
    pub fn evaluate_card(&self, card: &Card) -> (r: i32)
        requires
            card_value_fits(*card),
        ensures
            r == card_value(*card),
    {
        if card.is_creature() {
            self.creature_eval.evaluate_creature(card)
        } else if card.is_land() {
            Self::evaluate_land(card)
        } else if card.is_enchantment() {
            0
        } else {
            let cmc = card.mana_cost.cmc() as i32;
            50 + 30 * cmc
        }
    }

    /// Simplified mana base value of the player's permanents.
    pub fn evaluate_mana_base_simplified(&self, battlefield: &[Card], ai_player: PlayerId) -> (r: i32)
        requires
            mana_base_fits(battlefield@, ai_player),
        ensures
            r == mana_base_value(battlefield@, ai_player),
    {
        let ghost cards = battlefield@;
        let mut total: i32 = 0;
        let mut i: usize = 0;
        proof {
            assert(cards.take(0) =~= Seq::<Card>::empty());
        }
        while i < battlefield.len()
            invariant
                cards == battlefield@,
                i <= cards.len(),
                mana_base_fits(cards, ai_player),
                total == base_sources(cards.take(i as int), ai_player),
            decreases cards.len() - i,
        {
            proof {
                assert(cards.take(i + 1).drop_last() =~= cards.take(i as int));
                lemma_base_sources_prefix(cards, ai_player, i + 1);
                lemma_base_sources_prefix(cards, ai_player, i as int);
                lemma_ability_sources_nonneg(cards[i as int].activated_abilities@);
                assert(cards.take(i + 1).last() == cards[i as int]);
            }
            if battlefield[i].owner == ai_player {
                let n = ability_sources_exec(&battlefield[i].activated_abilities);
                total = total + n;
            }
            i = i + 1;
        }
        proof {
            assert(cards.take(cards.len() as int) =~= cards);
            lemma_base_nonneg(cards, ai_player);
        }
        let mut value: i32 = if total <= 6 {
            total * 100
        } else if total <= 10 {
            600 + (total - 6) * 50
        } else {
            800 + (total - 10) * 5
        };
        let mut colors: i32 = 0;
        if base_color_exec(battlefield, ai_player, 0) {
            colors = colors + 1;
        }
        if base_color_exec(battlefield, ai_player, 1) {
            colors = colors + 1;
        }
        if base_color_exec(battlefield, ai_player, 2) {
            colors = colors + 1;
        }
        if base_color_exec(battlefield, ai_player, 3) {
            colors = colors + 1;
        }
        if base_color_exec(battlefield, ai_player, 4) {
            colors = colors + 1;
        }
        value = value + colors * 50;
        value
    }
}

} // verus!

verus! {

/// What the game-state evaluation reads of a game besides the battlefield.
#[derive(Debug, Clone, Copy)]
pub struct GameSummary {
    /// Cards in the AI player's hand.
    pub my_hand_size: i32,
    /// Cards in the opponent's hand.
    pub opponent_hand_size: i32,
    /// Life of the player the view belongs to.
    pub my_life: i32,
    /// Life of the opponent.
    pub opponent_life: i32,
    /// The current turn.
    pub turn_number: u32,
    /// The current step comes before the second main phase.
    pub before_main2: bool,
    /// The AI player has lost the game.
    pub ai_lost: bool,
    /// The AI player's opponent has lost the game.
    pub opponent_lost: bool,
}

/// The score before the permanents: hand sizes, life totals and mana base.
pub open spec fn base_score(s: GameSummary, cards: Seq<Card>, me: PlayerId) -> int {
    5 * s.my_hand_size - 4 * s.opponent_hand_size + 2 * s.my_life - 2 * s.opponent_life + mana_base_value(cards, me)
}

/// The value of a permanent when summoning-sick creatures count for nothing:
/// the AI's creature that entered this turn, before the second main phase.
pub open spec fn sick_card_value(c: Card, s: GameSummary, me: PlayerId) -> int {
    if s.before_main2 && has_type(c, CardType::Creature) && c.owner == me && c.turn_entered_battlefield
        == Some(s.turn_number) {
        0
    } else {
        card_value(c)
    }
}

/// The permanents' contribution: the AI's count for, the others against.
pub open spec fn board_value(cards: Seq<Card>, me: PlayerId) -> int
    decreases cards.len(),
{
    if cards.len() == 0 {
        0
    } else {
        board_value(cards.drop_last(), me) + if cards.last().owner == me {
            card_value(cards.last())
        } else {
            -card_value(cards.last())
        }
    }
}

/// The permanents' contribution when summoning-sick creatures count for nothing.
pub open spec fn sick_board_value(cards: Seq<Card>, s: GameSummary, me: PlayerId) -> int
    decreases cards.len(),
{
    if cards.len() == 0 {
        0
    } else {
        sick_board_value(cards.drop_last(), s, me) + if cards.last().owner == me {
            sick_card_value(cards.last(), s, me)
        } else {
            -sick_card_value(cards.last(), s, me)
        }
    }
}

/// Every step of the evaluation stays within `i32`.
pub open spec fn game_score_fits(s: GameSummary, cards: Seq<Card>, me: PlayerId) -> bool {
    &&& mana_base_fits(cards, me)
    &&& -0x8000_0000 <= 5 * s.my_hand_size - 4 * s.opponent_hand_size <= 0x7fff_ffff
    &&& -0x8000_0000 <= 5 * s.my_hand_size - 4 * s.opponent_hand_size + 2 * s.my_life <= 0x7fff_ffff
    &&& -0x8000_0000 <= 5 * s.my_hand_size - 4 * s.opponent_hand_size + 2 * s.my_life - 2 * s.opponent_life
        <= 0x7fff_ffff
    &&& -0x8000_0000 <= s.my_hand_size * 5 <= 0x7fff_ffff
    &&& -0x8000_0000 <= s.opponent_hand_size * 4 <= 0x7fff_ffff
    &&& -0x8000_0000 <= s.my_life * 2 <= 0x7fff_ffff
    &&& -0x8000_0000 <= s.opponent_life * 2 <= 0x7fff_ffff
    &&& forall|i: int| 0 <= i < cards.len() ==> card_value_fits(#[trigger] cards[i])
    &&& forall|k: int|
        0 <= k <= cards.len() ==> -0x8000_0000 <= base_score(s, cards, me) + #[trigger] board_value(cards.take(k), me)
            <= 0x7fff_ffff
    &&& forall|k: int|
        0 <= k <= cards.len() ==> -0x8000_0000 <= base_score(s, cards, me) + #[trigger] sick_board_value(
            cards.take(k),
            s,
            me,
        ) <= 0x7fff_ffff
}

impl GameStateEvaluator {
    /// The score of a game for the AI player: the loss score when the AI has
    /// lost, the win score when its opponent has lost, and otherwise the
    /// board score of [`Self::evaluate_game_state_impl`].
    pub fn evaluate_game_state(&self, summary: &GameSummary, battlefield: &[Card], ai_player: PlayerId) -> (r: Score)
        requires
            !summary.ai_lost && !summary.opponent_lost ==> game_score_fits(*summary, battlefield@, ai_player),
        ensures
            summary.ai_lost ==> r.value == i32::MIN && r.summon_sick_value == i32::MIN,
            !summary.ai_lost && summary.opponent_lost ==> r.value == i32::MAX && r.summon_sick_value == i32::MAX,
            !summary.ai_lost && !summary.opponent_lost ==> r.value == base_score(*summary, battlefield@, ai_player)
                + board_value(battlefield@, ai_player) && r.summon_sick_value == base_score(
                *summary,
                battlefield@,
                ai_player,
            ) + sick_board_value(battlefield@, *summary, ai_player),
    {
        if summary.ai_lost {
            Score::loss()
        } else if summary.opponent_lost {
            Score::win()
        } else {
            self.evaluate_game_state_impl(summary, battlefield, ai_player)
        }
    }

    /// The board score of a game for the AI player: 5 per card in the AI's
    /// hand, -4 per card in the opponent's, 2 per own life point, -2 per
    /// opponent life point, the mana base value, then each permanent's value,
    /// for the AI's permanents and against the others'. The second measure
    /// counts the AI's summoning-sick creatures as 0 before the second main
    /// phase.
    pub fn evaluate_game_state_impl(&self, summary: &GameSummary, battlefield: &[Card], ai_player: PlayerId) -> (r: Score)
        requires
            game_score_fits(*summary, battlefield@, ai_player),
        ensures
            r.value == base_score(*summary, battlefield@, ai_player) + board_value(battlefield@, ai_player),
            r.summon_sick_value == base_score(*summary, battlefield@, ai_player) + sick_board_value(
                battlefield@,
                *summary,
                ai_player,
            ),
    {
        let ghost cards = battlefield@;
        let mut score: i32 = 5 * summary.my_hand_size - 4 * summary.opponent_hand_size;
        score = score + 2 * summary.my_life;
        score = score - 2 * summary.opponent_life;
        let mana_base_value = self.evaluate_mana_base_simplified(battlefield, ai_player);
        proof {
            assert(cards.take(0) =~= Seq::<Card>::empty());
            assert(board_value(cards.take(0), ai_player) == 0);
            assert(sick_board_value(cards.take(0), *summary, ai_player) == 0);
        }
        score = score + mana_base_value;
        let mut summon_sick_score = score;
        let mut i: usize = 0;
        while i < battlefield.len()
            invariant
                cards == battlefield@,
                i <= cards.len(),
                game_score_fits(*summary, cards, ai_player),
                score == base_score(*summary, cards, ai_player) + board_value(cards.take(i as int), ai_player),
                summon_sick_score == base_score(*summary, cards, ai_player) + sick_board_value(
                    cards.take(i as int),
                    *summary,
                    ai_player,
                ),
            decreases cards.len() - i,
        {
            let card = &battlefield[i];
            proof {
                assert(cards.take(i + 1).drop_last() =~= cards.take(i as int));
                assert(cards.take(i + 1).last() == cards[i as int]);
                assert(card_value_fits(cards[i as int]));
                assert(-0x8000_0000 <= base_score(*summary, cards, ai_player) + board_value(cards.take(i + 1), ai_player)
                    <= 0x7fff_ffff);
                assert(-0x8000_0000 <= base_score(*summary, cards, ai_player) + sick_board_value(
                    cards.take(i + 1),
                    *summary,
                    ai_player,
                ) <= 0x7fff_ffff);
            }
            let value = self.evaluate_card(card);
            let mut summon_sick_value = value;
            if summary.before_main2 && card.is_creature() && card.owner == ai_player {
                match card.turn_entered_battlefield {
                    Some(turn_entered) => {
                        if turn_entered == summary.turn_number {
                            summon_sick_value = 0;
                        }
                    },
                    None => {},
                }
            }
            if card.owner == ai_player {
                score = score + value;
                summon_sick_score = summon_sick_score + summon_sick_value;
            } else {
                score = score - value;
                summon_sick_score = summon_sick_score - summon_sick_value;
            }
            i = i + 1;
        }
        proof {
            assert(cards.take(cards.len() as int) =~= cards);
        }
        Score::with_summon_sick(score, summon_sick_score)
    }
}

} // verus!
