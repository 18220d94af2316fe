//! The heuristic controller's answers to the game's questions: which ability
//! to play, which targets, attackers and blockers, and what to discard.

use vstd::prelude::*;
use crate::card::{has_type, Card, CardType, KeywordKind, SpellAbility};
use crate::controller::{first_ids, min_usize};
use crate::heuristic::{
    creature_value, kw, pow, tough, spec_should_attack, spec_should_block, is_best_index, values_of,
    HeuristicController, evasion_value, combat_value, defense_value,
};
use crate::ids::{CardId, PlayerId};
use crate::mana::ManaCost;
use crate::ordering::{is_stable_order, stable_order};

verus! {

/// The value of a creature lies well within `i32`.
pub proof fn lemma_creature_value_bounds(c: Card, consider_pt: bool, consider_cmc: bool)
    ensures
        -100_000 <= creature_value(c, consider_pt, consider_cmc) <= 100_000,
{
    assert(-128 <= pow(c) <= 127);
    assert(-128 <= tough(c) <= 127);
    assert(0 <= c.mana_cost.spec_cmc() <= 255);
    assert(-10_000 <= evasion_value(c) <= 10_000);
    assert(-20_000 <= combat_value(c) <= 20_000);
    assert(-10_000 <= defense_value(c) <= 10_000);
}

/// Which kind of ability: casting a spell, activating an ability, playing a land.
pub open spec fn ability_kind(a: SpellAbility) -> int {
    match a {
        SpellAbility::CastSpell { .. } => 0,
        SpellAbility::ActivateAbility { .. } => 1,
        SpellAbility::PlayLand { .. } => 2,
    }
}

/// The first ability of a kind.
pub open spec fn first_of_kind(s: Seq<SpellAbility>, kind: int) -> Option<SpellAbility>
    decreases s.len(),
{
    if s.len() == 0 {
        None
    } else if ability_kind(s[0]) == kind {
        Some(s[0])
    } else {
        first_of_kind(s.drop_first(), kind)
    }
}

/// The ability the heuristic plays: the first spell to cast; else the first
/// ability to activate; else the first land to play; else none (pass).
pub open spec fn best_ability(s: Seq<SpellAbility>) -> Option<SpellAbility> {
    match first_of_kind(s, 0) {
        Some(a) => Some(a),
        None => match first_of_kind(s, 1) {
            Some(a) => Some(a),
            None => first_of_kind(s, 2),
        },
    }
}

fn kind_of(a: &SpellAbility) -> (r: u8)
    ensures
        r == ability_kind(*a),
{
    match a {
        SpellAbility::CastSpell { .. } => 0,
        SpellAbility::ActivateAbility { .. } => 1,
        SpellAbility::PlayLand { .. } => 2,
    }
}

fn find_first_of_kind(available: &[SpellAbility], kind: u8) -> (r: Option<SpellAbility>)
    ensures
        r == first_of_kind(available@, kind as int),
{
    let mut i: usize = 0;
    assert(available@.skip(0) =~= available@);
    while i < available.len()
        invariant
            i <= available.len(),
            first_of_kind(available@, kind as int) == first_of_kind(available@.skip(i as int), kind as int),
        decreases available.len() - i,
    {
        let ghost rest = available@.skip(i as int);
        proof {
            assert(rest[0] == available@[i as int]);
            assert(rest.drop_first() =~= available@.skip(i + 1));
        }
        if kind_of(&available[i]) == kind {
            return Some(available[i]);
        }
        i = i + 1;
    }
    proof {
        assert(available@.skip(i as int).len() == 0);
    }
    None
}

/// Target candidates of the right side: the controller's own cards for its
/// own spell, the other players' cards otherwise.
pub open spec fn side_filter(cards: Seq<&Card>, me: PlayerId, ours: bool) -> Seq<&Card>
    decreases cards.len(),
{
    if cards.len() == 0 {
        Seq::empty()
    } else if (cards.last().owner == me) == ours {
        side_filter(cards.drop_last(), me, ours).push(cards.last())
    } else {
        side_filter(cards.drop_last(), me, ours)
    }
}

/// The ids of the creatures that attack, in order.
pub open spec fn attack_ids(level: i32, me: PlayerId, creatures: Seq<Card>, battlefield: Seq<Card>) -> Seq<CardId>
    decreases creatures.len(),
{
    if creatures.len() == 0 {
        Seq::empty()
    } else if spec_should_attack(level, me, creatures.last(), battlefield) {
        attack_ids(level, me, creatures.drop_last(), battlefield).push(creatures.last().id)
    } else {
        attack_ids(level, me, creatures.drop_last(), battlefield)
    }
}

/// How good a block is: kill and survive 1000; trade 500 minus the blocker's
/// value; survive without killing 100; both die -1000.
pub open spec fn block_score(blocker: Card, attacker: Card) -> int {
    let can_kill = pow(blocker) >= tough(attacker) || kw(blocker, KeywordKind::Deathtouch);
    let will_survive = tough(blocker) > pow(attacker);
    if can_kill && will_survive {
        1000
    } else if can_kill {
        500 - creature_value(blocker, true, true)
    } else if will_survive {
        100
    } else {
        -1000
    }
}

/// The blocker with this id already blocks.
pub open spec fn already_blocking(blocks: Seq<(CardId, CardId)>, id: CardId) -> bool {
    exists|k: int| 0 <= k < blocks.len() && (#[trigger] blocks[k]).0 == id
}

/// A blocker still free that should block the attacker.
pub open spec fn block_candidate(blocks: Seq<(CardId, CardId)>, attacker: Card, blocker: Card) -> bool {
    !already_blocking(blocks, blocker.id) && spec_should_block(blocker, attacker)
}

/// Blocker `j` is the one chosen for the attacker: a candidate with the best
/// score, the first one among equals.
pub open spec fn is_chosen_blocker(blocks: Seq<(CardId, CardId)>, attacker: Card, blockers: Seq<Card>, j: int) -> bool {
    &&& 0 <= j < blockers.len()
    &&& block_candidate(blocks, attacker, blockers[j])
    &&& forall|k: int|
        0 <= k < blockers.len() && block_candidate(blocks, attacker, #[trigger] blockers[k]) ==> block_score(
            blockers[k],
            attacker,
        ) <= block_score(blockers[j], attacker)
    &&& forall|k: int|
        0 <= k < j && block_candidate(blocks, attacker, #[trigger] blockers[k]) ==> block_score(blockers[k], attacker)
            < block_score(blockers[j], attacker)
}

/// The blocks after assigning a blocker to one more attacker, if one is chosen.
pub open spec fn block_step(blocks: Seq<(CardId, CardId)>, attacker: Card, blockers: Seq<Card>) -> Seq<(CardId, CardId)> {
    if exists|j: int| is_chosen_blocker(blocks, attacker, blockers, j) {
        let j = choose|j: int| is_chosen_blocker(blocks, attacker, blockers, j);
        blocks.push((blockers[j].id, attacker.id))
    } else {
        blocks
    }
}

/// The blocks after handling the attackers in the given order.
pub open spec fn block_plan(attackers: Seq<Card>, order: Seq<usize>, blockers: Seq<Card>) -> Seq<(CardId, CardId)>
    decreases order.len(),
{
    if order.len() == 0 {
        Seq::empty()
    } else {
        block_step(block_plan(attackers, order.drop_last(), blockers), attackers[order.last() as int], blockers)
    }
}

/// The sort keys of the attackers: most valuable first.
pub open spec fn threat_keys(attackers: Seq<Card>) -> Seq<i64> {
    Seq::new(attackers.len(), |i: int| (-creature_value(attackers[i], true, true)) as i64)
}

/// What a card is worth keeping: a land 0, a creature its value, anything else 100.
pub open spec fn keep_value(c: Card) -> int {
    if has_type(c, CardType::Land) {
        0
    } else if has_type(c, CardType::Creature) {
        creature_value(c, true, true)
    } else {
        100
    }
}

/// The sort keys of a hand: least worth keeping first.
pub open spec fn discard_keys(hand: Seq<Card>) -> Seq<i64> {
    Seq::new(hand.len(), |i: int| keep_value(hand[i]) as i64)
}

/// The target cards on the side a spell aims at: the controller's own cards
/// for its own spell, the other players' cards otherwise.
pub open spec fn target_side<'a>(cards: Seq<&'a Card>, spell_card: Option<&Card>, me: PlayerId) -> Seq<&'a Card> {
    let ours = match spell_card {
        Some(c) => c.owner == me,
        None => false,
    };
    side_filter(cards, me, ours)
}

/// The ids of the cards at the given positions.
pub open spec fn ids_at(cards: Seq<Card>, order: Seq<usize>) -> Seq<CardId> {
    Seq::new(order.len(), |i: int| cards[order[i] as int].id)
}

} // verus!

verus! {

fn already_blocks(blocks: &Vec<(CardId, CardId)>, id: CardId) -> (r: bool)
    ensures
        r == already_blocking(blocks@, id),
{
    let mut k: usize = 0;
    while k < blocks.len()
        invariant
            k <= blocks.len(),
            forall|m: int| 0 <= m < k ==> (#[trigger] blocks@[m]).0 != id,
        decreases blocks.len() - k,
    {
        if blocks[k].0 == id {
            return true;
        }
        k = k + 1;
    }
    false
}

impl HeuristicController {
    fn block_score_of(&self, blocker: &Card, attacker: &Card) -> (r: i32)
        ensures
            r == block_score(*blocker, *attacker),
            r > i32::MIN,
    {
        let blocker_power: i32 = match blocker.power {
            Some(p) => p as i32,
            None => 0,
        };
        let blocker_toughness: i32 = match blocker.toughness {
            Some(t) => t as i32,
            None => 0,
        };
        let attacker_power: i32 = match attacker.power {
            Some(p) => p as i32,
            None => 0,
        };
        let attacker_toughness: i32 = match attacker.toughness {
            Some(t) => t as i32,
            None => 0,
        };
        let can_kill = blocker_power >= attacker_toughness || blocker.has_deathtouch();
        let will_survive = blocker_toughness > attacker_power;
        if can_kill && will_survive {
            1000
        } else if can_kill {
            proof {
                lemma_creature_value_bounds(*blocker, true, true);
            }
            500 - self.evaluate_creature(blocker)
        } else if will_survive {
            100
        } else {
            -1000
        }
    }

    /// The ability to play: the first spell to cast, else the first ability to
    /// activate, else the first land to play, else none (pass priority).
    pub fn choose_best_spell(&mut self, available: &[SpellAbility]) -> (r: Option<SpellAbility>)
        ensures
            *final(self) == *old(self),
            r == best_ability(available@),
    {
        match find_first_of_kind(available, 0) {
            Some(a) => Some(a),
            None => match find_first_of_kind(available, 1) {
                Some(a) => Some(a),
                None => find_first_of_kind(available, 2),
            },
        }
    }

    /// The ability to play when holding priority (none when nothing is available).
    pub fn choose_spell_ability_to_play(&mut self, available: &[SpellAbility]) -> (r: Option<SpellAbility>)
        ensures
            *final(self) == *old(self),
            r == best_ability(available@),
    {
        if available.len() == 0 {
            return None;
        }
        self.choose_best_spell(available)
    }

    /// A target for a spell: for the controller's own spell its best creature
    /// among the targets, for another player's spell the best creature of the
    /// other players; the first valid target when there is no such creature.
    /// `spell_card` is the spell's card and `target_cards` the cards of the
    /// valid targets that could be looked up.
    pub fn choose_targets(&mut self, spell_card: Option<&Card>, valid_targets: &[CardId], target_cards: &[&Card]) -> (r: Vec<CardId>)
        ensures
            *final(self) == *old(self),
            valid_targets@.len() == 0 ==> r@.len() == 0,
            valid_targets@.len() > 0 && target_side(target_cards@, spell_card, old(self).spec_player()).len() == 0
                ==> r@ == seq![valid_targets@[0]],
            valid_targets@.len() > 0 && target_side(target_cards@, spell_card, old(self).spec_player()).len() > 0
                ==> exists|k: int|
                #[trigger] is_best_index(values_of(target_side(target_cards@, spell_card, old(self).spec_player())), k)
                    && r@ == seq![target_side(target_cards@, spell_card, old(self).spec_player())[k].id],
    {
        if valid_targets.len() == 0 {
            return Vec::new();
        }
        let ghost me = self.spec_player();
        let me_id = self.player_id();
        let ours = match spell_card {
            Some(c) => c.owner == me_id,
            None => false,
        };
        let mut fallback: Vec<CardId> = Vec::new();
        fallback.push(valid_targets[0]);
        proof {
            assert(fallback@ =~= seq![valid_targets@[0]]);
        }
        if target_cards.len() == 0 {
            return fallback;
        }
        let mut filtered: Vec<&Card> = Vec::new();
        let mut i: usize = 0;
        proof {
            assert(target_cards@.take(0) =~= Seq::<&Card>::empty());
        }
        while i < target_cards.len()
            invariant
                i <= target_cards.len(),
                me == me_id,
                filtered@ == side_filter(target_cards@.take(i as int), me, ours),
            decreases target_cards.len() - i,
        {
            proof {
                assert(target_cards@.take(i + 1).drop_last() =~= target_cards@.take(i as int));
            }
            if (target_cards[i].owner == me_id) == ours {
                filtered.push(target_cards[i]);
            }
            i = i + 1;
        }
        proof {
            assert(target_cards@.take(target_cards@.len() as int) =~= target_cards@);
            assert(filtered@ == side_filter(target_cards@, me, ours));
        }
        let candidates: &[&Card] = filtered.as_slice();
        assert(candidates@ == filtered@);
        match self.get_best_creature(candidates) {
            Some(t) => {
                let mut targets: Vec<CardId> = Vec::new();
                targets.push(t.id);
                proof {
                    let k = choose|k: int| is_best_index(values_of(candidates@), k) && t == candidates@[k];
                    assert(targets@ =~= seq![filtered@[k].id]);
                }
                targets
            },
            None => {
                assert(filtered@.len() == 0);
                fallback
            },
        }
    }

    /// The first sources, as many as the cost's converted mana cost.
    pub fn choose_mana_sources_to_pay(&mut self, cost: &ManaCost, available_sources: &[CardId]) -> (r: Vec<
        CardId,
    >)
        ensures
            *final(self) == *old(self),
            r@ == available_sources@.take(min_usize(cost.spec_cmc(), available_sources@.len() as int)),
    {
        first_ids(available_sources, cost.cmc() as usize)
    }

    /// The creatures that should attack, in the order given.
    pub fn choose_attackers(&mut self, available_creatures: &[Card], battlefield: &[Card]) -> (r: Vec<CardId>)
        ensures
            *final(self) == *old(self),
            r@ == attack_ids(old(self).spec_aggression(), old(self).spec_player(), available_creatures@, battlefield@),
    {
        let mut attackers: Vec<CardId> = Vec::new();
        let mut i: usize = 0;
        proof {
            assert(available_creatures@.take(0) =~= Seq::<Card>::empty());
        }
        while i < available_creatures.len()
            invariant
                i <= available_creatures.len(),
                attackers@ == attack_ids(
                    self.spec_aggression(),
                    self.spec_player(),
                    available_creatures@.take(i as int),
                    battlefield@,
                ),
            decreases available_creatures.len() - i,
        {
            proof {
                assert(available_creatures@.take(i + 1).drop_last() =~= available_creatures@.take(i as int));
            }
            if self.should_attack(&available_creatures[i], battlefield) {
                attackers.push(available_creatures[i].id);
            }
            i = i + 1;
        }
        proof {
            assert(available_creatures@.take(available_creatures@.len() as int) =~= available_creatures@);
        }
        attackers
    }

    /// Blocks: the attackers are taken from the most valuable down (a stable
    /// sort), and each gets the free blocker that should block it with the
    /// best block score, the first one among equals, if there is one.
    pub fn choose_blockers(&mut self, available_blockers: &[Card], attackers: &[Card]) -> (r: Vec<(CardId, CardId)>)
        ensures
            *final(self) == *old(self),
            attackers@.len() == 0 || available_blockers@.len() == 0 ==> r@.len() == 0,
            attackers@.len() > 0 && available_blockers@.len() > 0 ==> exists|order: Seq<usize>|
                is_stable_order(threat_keys(attackers@), order) && r@ == block_plan(attackers@, order, available_blockers@),
    {
        if attackers.len() == 0 || available_blockers.len() == 0 {
            return Vec::new();
        }
        let mut keys: Vec<i64> = Vec::new();
        let mut i: usize = 0;
        while i < attackers.len()
            invariant
                i <= attackers.len(),
                keys.len() == i,
                forall|k: int| 0 <= k < i ==> (#[trigger] keys@[k]) == threat_keys(attackers@)[k],
            decreases attackers.len() - i,
        {
            let v = self.evaluate_creature(&attackers[i]);
            proof {
                lemma_creature_value_bounds(attackers@[i as int], true, true);
            }
            keys.push(-(v as i64));
            i = i + 1;
        }
        proof {
            assert(keys@ =~= threat_keys(attackers@));
        }
        let order = stable_order(&keys);
        let ghost blockers = available_blockers@;
        let mut blocks: Vec<(CardId, CardId)> = Vec::new();
        let mut t: usize = 0;
        proof {
            assert(order@.take(0) =~= Seq::<usize>::empty());
        }
        while t < order.len()
            invariant
                t <= order.len(),
                order.len() == attackers.len(),
                blockers == available_blockers@,
                forall|m: int| 0 <= m < order.len() ==> (#[trigger] order@[m]) < attackers.len(),
                blocks@ == block_plan(attackers@, order@.take(t as int), blockers),
            decreases order.len() - t,
        {
            let a = &attackers[order[t]];
            let best = self.choose_blocker_for(&blocks, a, available_blockers);
            let ghost prev = blocks@;
            proof {
                assert(order@.take(t + 1).drop_last() =~= order@.take(t as int));
                assert(order@.take(t + 1).last() == order@[t as int]);
            }
            match best {
                Some(b) => {
                    proof {
                        let c = choose|c: int| is_chosen_blocker(prev, *a, blockers, c);
                        assert(is_chosen_blocker(prev, *a, blockers, c));
                        if c < b {
                            assert(block_score(blockers[c], *a) < block_score(blockers[b as int], *a));
                        }
                        if c > b {
                            assert(block_score(blockers[b as int], *a) < block_score(blockers[c], *a));
                        }
                        assert(c == b);
                    }
                    blocks.push((available_blockers[b].id, a.id));
                },
                None => {
                    proof {
                        assert forall|c: int| !is_chosen_blocker(prev, *a, blockers, c) by {
                            if 0 <= c < blockers.len() {
                                assert(!block_candidate(prev, *a, blockers[c]));
                            }
                        }
                    }
                },
            }
            t = t + 1;
        }
        proof {
            assert(order@.take(order@.len() as int) =~= order@);
        }
        blocks
    }

    /// The free blocker that should block `a` with the best block score, the
    /// first one among equals.
    fn choose_blocker_for(&self, blocks: &Vec<(CardId, CardId)>, a: &Card, blockers: &[Card]) -> (r: Option<usize>)
        ensures
            match r {
                Some(b) => is_chosen_blocker(blocks@, *a, blockers@, b as int),
                None => forall|k: int| 0 <= k < blockers@.len() ==> !block_candidate(blocks@, *a, #[trigger] blockers@[k]),
            },
    {
        let mut best: Option<usize> = None;
        let mut best_score: i32 = i32::MIN;
        let mut j: usize = 0;
        while j < blockers.len()
            invariant
                j <= blockers.len(),
                match best {
                    None => best_score == i32::MIN && forall|k: int|
                        0 <= k < j ==> !block_candidate(blocks@, *a, #[trigger] blockers@[k]),
                    Some(b) => {
                        &&& b < j
                        &&& block_candidate(blocks@, *a, blockers@[b as int])
                        &&& best_score == block_score(blockers@[b as int], *a)
                        &&& forall|k: int|
                            0 <= k < j && block_candidate(blocks@, *a, #[trigger] blockers@[k]) ==> block_score(
                                blockers@[k],
                                *a,
                            ) <= best_score
                        &&& forall|k: int|
                            0 <= k < b && block_candidate(blocks@, *a, #[trigger] blockers@[k]) ==> block_score(
                                blockers@[k],
                                *a,
                            ) < best_score
                    },
                },
            decreases blockers.len() - j,
        {
            let b = &blockers[j];
            if !already_blocks(blocks, b.id) && self.should_block(b, a) {
                let score = self.block_score_of(b, a);
                if score > best_score {
                    best_score = score;
                    best = Some(j);
                }
            }
            j = j + 1;
        }
        best
    }

    /// Keeps the blockers in the order given.
    pub fn choose_damage_assignment_order(&mut self, attacker: CardId, blockers: &[CardId]) -> (r: Vec<
        CardId,
    >)
        ensures
            *final(self) == *old(self),
            r@ == blockers@,
    {
        let r = first_ids(blockers, blockers.len());
        proof {
            assert(blockers@.take(blockers@.len() as int) =~= blockers@);
        }
        r
    }

    /// Discards the cards least worth keeping (lands first, then the weakest
    /// creatures, other cards last), in a stable order, `count` of them.
    pub fn choose_cards_to_discard(&mut self, hand: &[Card], count: usize) -> (r: Vec<CardId>)
        ensures
            *final(self) == *old(self),
            exists|order: Seq<usize>|
                is_stable_order(discard_keys(hand@), order) && r@ == ids_at(
                    hand@,
                    order.take(min_usize(count as int, hand@.len() as int)),
                ),
    {
        let mut keys: Vec<i64> = Vec::new();
        let mut i: usize = 0;
        while i < hand.len()
            invariant
                i <= hand.len(),
                keys.len() == i,
                forall|k: int| 0 <= k < i ==> (#[trigger] keys@[k]) == discard_keys(hand@)[k],
            decreases hand.len() - i,
        {
            let c = &hand[i];
            let key: i64 = if c.is_land() {
                0
            } else if c.is_creature() {
                proof {
                    lemma_creature_value_bounds(*c, true, true);
                }
                self.evaluate_creature(c) as i64
            } else {
                100
            };
            keys.push(key);
            i = i + 1;
        }
        proof {
            assert(keys@ =~= discard_keys(hand@));
        }
        let order = stable_order(&keys);
        let n = if count < hand.len() { count } else { hand.len() };
        let mut r: Vec<CardId> = Vec::new();
        let mut k: usize = 0;
        while k < n
            invariant
                n <= order.len(),
                order.len() == hand.len(),
                forall|m: int| 0 <= m < order.len() ==> (#[trigger] order@[m]) < hand.len(),
                k <= n,
                r@ == ids_at(hand@, order@.take(k as int)),
            decreases n - k,
        {
            r.push(hand[order[k]].id);
            proof {
                assert(r@ =~= ids_at(hand@, order@.take(k + 1)));
            }
            k = k + 1;
        }
        r
    }
}

} // verus!

verus! {

/// No blocker is assigned twice: whatever the order of the attackers, the
/// blockers of a block plan are distinct.
pub proof fn law_each_blocker_blocks_once(attackers: Seq<Card>, order: Seq<usize>, blockers: Seq<Card>)
    requires
        forall|i: int| 0 <= i < order.len() ==> (#[trigger] order[i]) < attackers.len(),
    ensures
        forall|i: int, j: int|
            0 <= i < j < block_plan(attackers, order, blockers).len() ==> (#[trigger] block_plan(attackers, order, blockers)[i]).0
                != (#[trigger] block_plan(attackers, order, blockers)[j]).0,
    decreases order.len(),
{
    if order.len() > 0 {
        law_each_blocker_blocks_once(attackers, order.drop_last(), blockers);
        let prev = block_plan(attackers, order.drop_last(), blockers);
        let a = attackers[order.last() as int];
        if exists|j: int| is_chosen_blocker(prev, a, blockers, j) {
            let j = choose|j: int| is_chosen_blocker(prev, a, blockers, j);
            let plan = block_plan(attackers, order, blockers);
            assert(plan == prev.push((blockers[j].id, a.id)));
            assert forall|x: int, y: int| 0 <= x < y < plan.len() implies (#[trigger] plan[x]).0 != (#[trigger] plan[y]).0 by {
                if y == plan.len() - 1 {
                    assert(plan[x] == prev[x]);
                    assert(!already_blocking(prev, blockers[j].id));
                } else {
                    assert(plan[x] == prev[x] && plan[y] == prev[y]);
                }
            }
        }
    }
}

} // verus!
