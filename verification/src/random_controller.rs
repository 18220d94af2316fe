//! A controller that decides at random with its own seeded generator.
//!
//! The generator (`Xoshiro256PlusPlus` of `rand_xoshiro`) is separate from
//! the game's, so that its draws do not disturb the game's shuffles. The
//! decisions that draw a yes/no with a probability (`Rng::gen_bool`) are made
//! by the caller, which draws on `rng` and hands the outcome in.

use vstd::prelude::*;
use rand::Rng;
use rand::SeedableRng;
use rand::seq::SliceRandom;
use rand_xoshiro::Xoshiro256PlusPlus;
use crate::card::SpellAbility;
use crate::controller::{first_ids, min_usize};
use crate::ids::{CardId, PlayerId};
use crate::mana::ManaCost;

verus! {

/// The random generator type of `rand_xoshiro`.
#[verifier::external_type_specification]
#[verifier::external_body]
pub struct ExXoshiro256PlusPlus(Xoshiro256PlusPlus);

/// `Clone` of the generator, which `rand_xoshiro` derives: a copy of the
/// generator's state.
pub assume_specification[ <Xoshiro256PlusPlus as Clone>::clone ](rng: &Xoshiro256PlusPlus) -> (r: Xoshiro256PlusPlus)
    ensures
        r == *rng,
;

/// A generator seeded with `SeedableRng::seed_from_u64` (SplitMix64 over the
/// seed). Nothing is stated of the generator's state.
#[verifier::external_body]
fn seeded_generator(seed: u64) -> (r: Xoshiro256PlusPlus) {
    Xoshiro256PlusPlus::seed_from_u64(seed)
}

/// A generator seeded from system entropy with `SeedableRng::from_entropy`
/// (which panics when the system gives no entropy). Nothing is stated of the
/// generator's state.
#[verifier::external_body]
fn entropy_generator() -> (r: Xoshiro256PlusPlus) {
    Xoshiro256PlusPlus::from_entropy()
}

/// A draw from `0..n` with `Rng::gen_range`, which panics on an empty range;
/// the generator advances. Only the range of the result is stated.
#[verifier::external_body]
fn draw_index(rng: &mut Xoshiro256PlusPlus, n: usize) -> (r: usize)
    requires
        n > 0,
    ensures
        r < n,
{
    rng.gen_range(0..n)
}

/// Shuffles the ids in place with `SliceRandom::shuffle` (Fisher-Yates); the
/// generator advances. Stated: the result holds the same ids, each as often.
#[verifier::external_body]
fn shuffle_ids(ids: &mut Vec<CardId>, rng: &mut Xoshiro256PlusPlus)
    ensures
        final(ids)@.len() == old(ids)@.len(),
        final(ids)@.to_multiset() == old(ids)@.to_multiset(),
{
    ids.shuffle(rng);
}

/// Makes random choices.
#[derive(Debug, Clone)]
pub struct RandomController {
    player_id: PlayerId,
    /// The controller's own generator.
    pub rng: Xoshiro256PlusPlus,
}

/// `r` is the first `n` of some arrangement of `ids`.
pub open spec fn some_arrangement_prefix(r: Seq<CardId>, ids: Seq<CardId>, n: int) -> bool {
    exists|s: Seq<CardId>|
        s.len() == ids.len() && s.to_multiset() == ids.to_multiset() && r == s.take(min_usize(n, ids.len() as int))
}

impl RandomController {
    /// The player this controller decides for.
    pub closed spec fn spec_player(self) -> PlayerId {
        self.player_id
    }

    /// A controller whose generator is seeded from system entropy.
    pub fn new(player_id: PlayerId) -> (r: Self)
        ensures
            r.spec_player() == player_id,
    {
        RandomController { player_id, rng: entropy_generator() }
    }

    /// A controller whose generator is seeded from `seed`, for repeatable games.
    pub fn with_seed(player_id: PlayerId, seed: u64) -> (r: Self)
        ensures
            r.spec_player() == player_id,
    {
        RandomController { player_id, rng: seeded_generator(seed) }
    }

    pub fn player_id(&self) -> (r: PlayerId)
        ensures
            r == self.spec_player(),
    {
        self.player_id
    }

    /// Passes when nothing is available or when `passes` (the caller's draw,
    /// made only when something is available); otherwise a random available
    /// ability.
    pub fn choose_spell_ability_to_play(&mut self, available: &[SpellAbility], passes: bool) -> (r: Option<
        SpellAbility,
    >)
        ensures
            final(self).spec_player() == old(self).spec_player(),
            r is None <==> available@.len() == 0 || passes,
            r matches Some(a) ==> exists|i: int| 0 <= i < available@.len() && available@[i] == a,
    {
        if available.len() == 0 || passes {
            return None;
        }
        let index = draw_index(&mut self.rng, available.len());
        Some(available[index])
    }

    /// No target when there is none, the only one when there is one (no
    /// draw), otherwise a random one.
    pub fn choose_targets(&mut self, valid_targets: &[CardId]) -> (r: Vec<CardId>)
        ensures
            final(self).spec_player() == old(self).spec_player(),
            valid_targets@.len() <= 1 ==> r@ == valid_targets@,
            valid_targets@.len() > 1 ==> r@.len() == 1 && valid_targets@.contains(r@[0]),
    {
        if valid_targets.len() <= 1 {
            let r = first_ids(valid_targets, valid_targets.len());
            proof {
                assert(valid_targets@.take(valid_targets@.len() as int) =~= valid_targets@);
            }
            return r;
        }
        let index = draw_index(&mut self.rng, valid_targets.len());
        let mut targets: Vec<CardId> = Vec::new();
        targets.push(valid_targets[index]);
        proof {
            assert(valid_targets@[index as int] == targets@[0]);
        }
        targets
    }

    /// As many sources as the cost's converted mana cost, from a shuffle of
    /// the available ones.
    pub fn choose_mana_sources_to_pay(&mut self, cost: &ManaCost, available_sources: &[CardId]) -> (r: Vec<CardId>)
        ensures
            final(self).spec_player() == old(self).spec_player(),
            some_arrangement_prefix(r@, available_sources@, cost.spec_cmc()),
    {
        self.shuffled_prefix(available_sources, cost.cmc() as usize)
    }

    /// The creatures whose caller-drawn coin came up (one coin per creature,
    /// in order).
    pub fn choose_attackers(&mut self, available_creatures: &[CardId], coins: &[bool]) -> (r: Vec<CardId>)
        requires
            coins@.len() == available_creatures@.len(),
        ensures
            final(self).spec_player() == old(self).spec_player(),
            r@ == selected(available_creatures@, coins@),
    {
        let mut attackers: Vec<CardId> = Vec::new();
        let mut i: usize = 0;
        proof {
            assert(available_creatures@.take(0) =~= Seq::<CardId>::empty());
        }
        while i < available_creatures.len()
            invariant
                i <= available_creatures.len(),
                coins@.len() == available_creatures@.len(),
                attackers@ == selected(available_creatures@.take(i as int), coins@.take(i as int)),
            decreases available_creatures.len() - i,
        {
            proof {
                assert(available_creatures@.take(i + 1).drop_last() =~= available_creatures@.take(i as int));
                assert(coins@.take(i + 1).drop_last() =~= coins@.take(i as int));
            }
            if coins[i] {
                attackers.push(available_creatures[i]);
            }
            i = i + 1;
        }
        proof {
            assert(available_creatures@.take(available_creatures@.len() as int) =~= available_creatures@);
            assert(coins@.take(coins@.len() as int) =~= coins@);
        }
        attackers
    }

    /// One blocker's decision: when its caller-drawn coin came up and there
    /// are attackers, it blocks a random attacker; otherwise it does not block.
    pub fn choose_block_for(&mut self, blocker: CardId, attackers: &[CardId], blocks: bool) -> (r: Option<(CardId, CardId)>)
        ensures
            final(self).spec_player() == old(self).spec_player(),
            r is Some <==> blocks && attackers@.len() > 0,
            r matches Some(p) ==> p.0 == blocker && attackers@.contains(p.1),
    {
        if !blocks || attackers.len() == 0 {
            return None;
        }
        let index = draw_index(&mut self.rng, attackers.len());
        proof {
            assert(attackers@[index as int] == attackers@[index as int]);
        }
        Some((blocker, attackers[index]))
    }

    /// The blockers in a random order.
    pub fn choose_damage_assignment_order(&mut self, attacker: CardId, blockers: &[CardId]) -> (r: Vec<CardId>)
        ensures
            final(self).spec_player() == old(self).spec_player(),
            r@.len() == blockers@.len(),
            r@.to_multiset() == blockers@.to_multiset(),
    {
        let mut ordered = first_ids(blockers, blockers.len());
        proof {
            assert(blockers@.take(blockers@.len() as int) =~= blockers@);
        }
        shuffle_ids(&mut ordered, &mut self.rng);
        ordered
    }

    /// `count` cards (at most the whole hand) from a shuffle of the hand.
    pub fn choose_cards_to_discard(&mut self, hand: &[CardId], count: usize) -> (r: Vec<CardId>)
        ensures
            final(self).spec_player() == old(self).spec_player(),
            some_arrangement_prefix(r@, hand@, count as int),
    {
        self.shuffled_prefix(hand, count)
    }

    fn shuffled_prefix(&mut self, ids: &[CardId], n: usize) -> (r: Vec<CardId>)
        ensures
            final(self).spec_player() == old(self).spec_player(),
            some_arrangement_prefix(r@, ids@, n as int),
    {
        let mut shuffled = first_ids(ids, ids.len());
        proof {
            assert(ids@.take(ids@.len() as int) =~= ids@);
        }
        shuffle_ids(&mut shuffled, &mut self.rng);
        let r = first_ids(shuffled.as_slice(), n);
        proof {
            assert(shuffled@.len() == ids@.len() && shuffled@.to_multiset() == ids@.to_multiset()
                && r@ == shuffled@.take(min_usize(n as int, ids@.len() as int)));
        }
        r
    }
}

/// The ids whose coin is true, in order.
pub open spec fn selected(ids: Seq<CardId>, coins: Seq<bool>) -> Seq<CardId>
    decreases ids.len(),
{
    if ids.len() == 0 {
        Seq::empty()
    } else if coins[ids.len() - 1] {
        selected(ids.drop_last(), coins.take(ids.len() - 1)).push(ids.last())
    } else {
        selected(ids.drop_last(), coins.take(ids.len() - 1))
    }
}

} // verus!
