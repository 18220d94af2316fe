//! The state of a combat: attackers, blockers and who blocks whom.

use vstd::prelude::*;
use crate::ids::{CardId, PlayerId};

verus! {

/// A map keyed by card id, kept in increasing id order (the order in which
/// an ordered map of ids walks its keys).
#[derive(Debug)]
pub struct IdMap<V> {
    entries: Vec<(CardId, V)>,
}

/// The entries' ids increase strictly.
pub open spec fn ids_increasing<V>(es: Seq<(CardId, V)>) -> bool {
    forall|i: int, j: int| 0 <= i < j < es.len() ==> (#[trigger] es[i]).0.value < (#[trigger] es[j]).0.value
}

/// The entries as a map.
pub open spec fn entry_map<V>(es: Seq<(CardId, V)>) -> Map<CardId, V>
    decreases es.len(),
{
    if es.len() == 0 {
        Map::empty()
    } else {
        entry_map(es.drop_last()).insert(es.last().0, es.last().1)
    }
}

proof fn lemma_entry_map<V>(es: Seq<(CardId, V)>)
    requires
        ids_increasing(es),
    ensures
        forall|k: CardId| #[trigger] entry_map(es).contains_key(k) <==> exists|i: int| 0 <= i < es.len() && es[i].0 == k,
        forall|i: int| 0 <= i < es.len() ==> entry_map(es)[(#[trigger] es[i]).0] == es[i].1,
    decreases es.len(),
{
    if es.len() > 0 {
        let init = es.drop_last();
        lemma_entry_map(init);
        assert forall|k: CardId| #[trigger] entry_map(es).contains_key(k) <==> exists|i: int| 0 <= i < es.len() && es[i].0 == k by {
            if entry_map(es).contains_key(k) && k != es.last().0 {
                assert(entry_map(init).contains_key(k));
                let i = choose|i: int| 0 <= i < init.len() && init[i].0 == k;
                assert(es[i] == init[i]);
            }
            if exists|i: int| 0 <= i < es.len() && es[i].0 == k {
                let i = choose|i: int| 0 <= i < es.len() && es[i].0 == k;
                if i < es.len() - 1 {
                    assert(init[i].0 == k);
                }
            }
        }
        assert forall|i: int| 0 <= i < es.len() implies entry_map(es)[(#[trigger] es[i]).0] == es[i].1 by {
            if i < es.len() - 1 {
                assert(init[i] == es[i]);
                assert(es[i].0.value < es[es.len() - 1].0.value);
            }
        }
    }
}

impl<V> View for IdMap<V> {
    type V = Map<CardId, V>;

    closed spec fn view(&self) -> Map<CardId, V> {
        entry_map(self.entries@)
    }
}

impl<V> IdMap<V> {
    #[verifier::type_invariant]
    spec fn inv(self) -> bool {
        ids_increasing(self.entries@)
    }

    /// The keys in increasing id order.
    pub closed spec fn spec_keys(&self) -> Seq<CardId> {
        self.entries@.map_values(|e: (CardId, V)| e.0)
    }

    /// An empty map.
    pub fn new() -> (r: Self)
        ensures
            r@ == Map::<CardId, V>::empty(),
            r.spec_keys().len() == 0,
    {
        IdMap { entries: Vec::new() }
    }

    /// The position of `k`, or where it would go.
    fn position(&self, k: CardId) -> (r: (usize, bool))
        ensures
            r.0 <= self.entries@.len(),
            forall|i: int| 0 <= i < r.0 ==> (#[trigger] self.entries@[i]).0.value < k.value,
            r.1 ==> r.0 < self.entries@.len() && self.entries@[r.0 as int].0 == k,
            !r.1 ==> forall|i: int| r.0 <= i < self.entries@.len() ==> (#[trigger] self.entries@[i]).0.value > k.value,
    {
        proof {
            use_type_invariant(self);
        }
        let mut i: usize = 0;
        while i < self.entries.len() && self.entries[i].0.value < k.value
            invariant
                i <= self.entries@.len(),
                ids_increasing(self.entries@),
                forall|j: int| 0 <= j < i ==> (#[trigger] self.entries@[j]).0.value < k.value,
            decreases self.entries.len() - i,
        {
            i = i + 1;
        }
        if i < self.entries.len() && self.entries[i].0.value == k.value {
            proof {
                assert(self.entries@[i as int].0 == k);
            }
            (i, true)
        } else {
            proof {
                assert forall|j: int| i <= j < self.entries@.len() implies (#[trigger] self.entries@[j]).0.value > k.value by {
                    if j > i {
                        assert(self.entries@[i as int].0.value < self.entries@[j].0.value);
                    }
                }
            }
            (i, false)
        }
    }

    /// Whether `k` is a key.
    pub fn contains_key(&self, k: CardId) -> (r: bool)
        ensures
            r == self@.contains_key(k),
    {
        proof {
            use_type_invariant(self);
            lemma_entry_map(self.entries@);
        }
        let (i, found) = self.position(k);
        proof {
            if !found {
                assert forall|j: int| 0 <= j < self.entries@.len() implies self.entries@[j].0 != k by {
                    if j < i {
                        assert(self.entries@[j].0.value < k.value);
                    } else {
                        assert(self.entries@[j].0.value > k.value);
                    }
                }
            }
        }
        found
    }

    /// The value of `k`, if it is a key.
    pub fn get(&self, k: CardId) -> (r: Option<&V>)
        ensures
            match r {
                Some(v) => self@.contains_key(k) && *v == self@[k],
                None => !self@.contains_key(k),
            },
    {
        proof {
            use_type_invariant(self);
            lemma_entry_map(self.entries@);
        }
        let (i, found) = self.position(k);
        if found {
            Some(&self.entries[i].1)
        } else {
            proof {
                assert forall|j: int| 0 <= j < self.entries@.len() implies self.entries@[j].0 != k by {
                    if j < i {
                        assert(self.entries@[j].0.value < k.value);
                    } else {
                        assert(self.entries@[j].0.value > k.value);
                    }
                }
            }
            None
        }
    }

    /// Sets the value of `k`, replacing any previous value.
    pub fn insert(&mut self, k: CardId, v: V)
        ensures
            final(self)@ == old(self)@.insert(k, v),
    {
        proof {
            use_type_invariant(&*self);
            lemma_entry_map(self.entries@);
        }
        let (i, found) = self.position(k);
        let ghost old_es = self.entries@;
        let mut entries: Vec<(CardId, V)> = Vec::new();
        std::mem::swap(&mut entries, &mut self.entries);
        if found {
            entries.set(i, (k, v));
        } else {
            entries.insert(i, (k, v));
        }
        proof {
            let new_es = entries@;
            if found {
                assert(new_es =~= old_es.update(i as int, (k, v)));
            } else {
                old_es.insert_ensures(i as int, (k, v));
            }
            assert(ids_increasing(new_es)) by {
                assert forall|a: int, b: int| 0 <= a < b < new_es.len() implies (#[trigger] new_es[a]).0.value < (#[trigger] new_es[b]).0.value by {
                    if found {
                        if a != i && b != i {
                            assert(old_es[a].0.value < old_es[b].0.value);
                        } else if a == i {
                            assert(old_es[a].0.value < old_es[b].0.value);
                        } else {
                            assert(old_es[a].0.value < old_es[b].0.value);
                        }
                    } else {
                        if b < i {
                            assert(old_es[a].0.value < old_es[b].0.value);
                        } else if b == i {
                            assert(new_es[a] == old_es[a]);
                        } else if a < i {
                            assert(new_es[b] == old_es[b - 1]);
                        } else if a == i {
                            assert(new_es[b] == old_es[b - 1]);
                        } else {
                            assert(old_es[a - 1].0.value < old_es[b - 1].0.value);
                        }
                    }
                }
            }
            lemma_entry_map(new_es);
            assert(entry_map(new_es) =~= entry_map(old_es).insert(k, v)) by {
                assert forall|key: CardId| #[trigger] entry_map(new_es).contains_key(key) <==> entry_map(old_es).insert(k, v).contains_key(key) by {
                    if entry_map(old_es).contains_key(key) && key != k {
                        let j = choose|j: int| 0 <= j < old_es.len() && old_es[j].0 == key;
                        if found {
                            assert(new_es[j].0 == key);
                        } else if j < i {
                            assert(new_es[j].0 == key);
                        } else {
                            assert(new_es[j + 1].0 == key);
                        }
                    }
                    if entry_map(new_es).contains_key(key) && key != k {
                        let j = choose|j: int| 0 <= j < new_es.len() && new_es[j].0 == key;
                        if found {
                            assert(old_es[j].0 == key);
                        } else if j < i {
                            assert(old_es[j].0 == key);
                        } else {
                            assert(old_es[j - 1].0 == key);
                        }
                    }
                    if key == k {
                        assert(new_es[i as int].0 == k);
                    }
                }
                assert forall|key: CardId| #[trigger] entry_map(new_es).contains_key(key) implies entry_map(new_es)[key] == entry_map(old_es).insert(k, v)[key] by {
                    let j = choose|j: int| 0 <= j < new_es.len() && new_es[j].0 == key;
                    if key != k {
                        if found {
                            assert(old_es[j] == new_es[j]);
                        } else if j < i {
                            assert(old_es[j] == new_es[j]);
                        } else {
                            assert(old_es[j - 1] == new_es[j]);
                        }
                    } else {
                        assert(new_es[i as int] == (k, v));
                    }
                }
            }
        }
        self.entries = entries;
    }

    /// The keys, in increasing id order.
    pub fn keys(&self) -> (r: Vec<CardId>)
        where V: Sized,
        ensures
            r@ == self.spec_keys(),
            r@.to_set() == self@.dom(),
            forall|i: int, j: int| 0 <= i < j < r@.len() ==> (#[trigger] r@[i]).value < (#[trigger] r@[j]).value,
    {
        proof {
            use_type_invariant(self);
            lemma_entry_map(self.entries@);
        }
        let mut r: Vec<CardId> = Vec::new();
        let mut i: usize = 0;
        while i < self.entries.len()
            invariant
                i <= self.entries@.len(),
                r@ == self.entries@.take(i as int).map_values(|e: (CardId, V)| e.0),
            decreases self.entries.len() - i,
        {
            r.push(self.entries[i].0);
            proof {
                assert(self.entries@.take(i + 1).map_values(|e: (CardId, V)| e.0) =~= self.entries@.take(i as int).map_values(|e: (CardId, V)| e.0).push(self.entries@[i as int].0));
            }
            i = i + 1;
        }
        proof {
            assert(self.entries@.take(self.entries@.len() as int) =~= self.entries@);
            assert(r@.to_set() =~= self@.dom()) by {
                assert forall|k: CardId| r@.to_set().contains(k) implies self@.dom().contains(k) by {
                    let j = choose|j: int| 0 <= j < r@.len() && r@[j] == k;
                    assert(self.entries@[j].0 == k);
                }
                assert forall|k: CardId| self@.dom().contains(k) implies r@.to_set().contains(k) by {
                    let j = choose|j: int| 0 <= j < self.entries@.len() && self.entries@[j].0 == k;
                    assert(r@[j] == k);
                }
            }
            assert forall|a: int, b: int| 0 <= a < b < r@.len() implies (#[trigger] r@[a]).value < (#[trigger] r@[b]).value by {
                assert(self.entries@[a].0.value < self.entries@[b].0.value);
            }
        }
        r
    }

    /// The number of keys.
    pub fn len(&self) -> (r: usize)
        ensures
            r == self.spec_keys().len(),
    {
        self.entries.len()
    }

    /// Removes every key.
    pub fn clear(&mut self)
        ensures
            final(self)@ == Map::<CardId, V>::empty(),
            final(self).spec_keys().len() == 0,
    {
        let mut entries: Vec<(CardId, V)> = Vec::new();
        std::mem::swap(&mut entries, &mut self.entries);
        proof {
            assert(self.entries@.len() == 0);
        }
    }
}

} // verus!

verus! {

/// The state of the current combat. Maps are walked in increasing id order.
#[derive(Debug)]
pub struct CombatState {
    /// Each attacking creature, with the player it attacks.
    pub attackers: IdMap<PlayerId>,
    /// Each blocking creature, with the attackers it blocks.
    pub blockers: IdMap<Vec<CardId>>,
    /// Each blocked attacker, with the creatures blocking it.
    pub attacker_blockers: IdMap<Vec<CardId>>,
    /// Whether combat has started this turn.
    pub combat_active: bool,
}

/// A map of id lists, by value.
pub open spec fn lists_view(m: Map<CardId, Vec<CardId>>) -> Map<CardId, Seq<CardId>> {
    m.map_values(|v: Vec<CardId>| v@)
}

/// The blockers of each attacker after `blocker` blocks each of `attackers`
/// in turn: the blocker is added at the end of each attacker's list.
pub open spec fn add_blocker_to(m: Map<CardId, Seq<CardId>>, attackers: Seq<CardId>, blocker: CardId) -> Map<CardId, Seq<CardId>>
    decreases attackers.len(),
{
    if attackers.len() == 0 {
        m
    } else {
        let prev = add_blocker_to(m, attackers.drop_last(), blocker);
        let a = attackers.last();
        prev.insert(a, (if prev.contains_key(a) { prev[a] } else { Seq::empty() }).push(blocker))
    }
}

fn copy_ids(v: &Vec<CardId>) -> (r: Vec<CardId>)
    ensures
        r@ == v@,
{
    let mut r: Vec<CardId> = Vec::new();
    let mut i: usize = 0;
    while i < v.len()
        invariant
            i <= v.len(),
            r@ == v@.take(i as int),
        decreases v.len() - i,
    {
        r.push(v[i]);
        proof {
            assert(v@.take(i + 1) =~= v@.take(i as int).push(v@[i as int]));
        }
        i = i + 1;
    }
    proof {
        assert(v@.take(v@.len() as int) =~= v@);
    }
    r
}

impl CombatState {
    /// No combat: no attackers, no blockers, not active.
    pub fn new() -> (r: Self)
        ensures
            r.attackers@ == Map::<CardId, PlayerId>::empty(),
            r.blockers@ == Map::<CardId, Vec<CardId>>::empty(),
            r.attacker_blockers@ == Map::<CardId, Vec<CardId>>::empty(),
            !r.combat_active,
    {
        CombatState {
            attackers: IdMap::new(),
            blockers: IdMap::new(),
            attacker_blockers: IdMap::new(),
            combat_active: false,
        }
    }

    /// Declares a creature as attacking a player; combat becomes active.
    pub fn declare_attacker(&mut self, attacker: CardId, defending_player: PlayerId)
        ensures
            final(self).attackers@ == old(self).attackers@.insert(attacker, defending_player),
            final(self).blockers@ == old(self).blockers@,
            final(self).attacker_blockers@ == old(self).attacker_blockers@,
            final(self).combat_active,
    {
        self.attackers.insert(attacker, defending_player);
        self.combat_active = true;
    }

    /// Declares a creature as blocking the given attackers: it is recorded
    /// with that list, and added at the end of each attacker's blockers.
    pub fn declare_blocker(&mut self, blocker: CardId, attackers: Vec<CardId>)
        ensures
            final(self).attackers@ == old(self).attackers@,
            final(self).blockers@.dom() == old(self).blockers@.dom().insert(blocker),
            final(self).blockers@[blocker]@ == attackers@,
            forall|b: CardId| b != blocker && #[trigger] old(self).blockers@.contains_key(b) ==> final(self).blockers@[b]@
                == old(self).blockers@[b]@,
            lists_view(final(self).attacker_blockers@) == add_blocker_to(
                lists_view(old(self).attacker_blockers@),
                attackers@,
                blocker,
            ),
            final(self).combat_active == old(self).combat_active,
    {
        let copy = copy_ids(&attackers);
        self.blockers.insert(blocker, copy);
        let mut i: usize = 0;
        proof {
            assert(attackers@.take(0) =~= Seq::<CardId>::empty());
        }
        while i < attackers.len()
            invariant
                i <= attackers@.len(),
                self.attackers@ == old(self).attackers@,
                self.blockers@ == old(self).blockers@.insert(blocker, copy),
                copy@ == attackers@,
                self.combat_active == old(self).combat_active,
                lists_view(self.attacker_blockers@) == add_blocker_to(
                    lists_view(old(self).attacker_blockers@),
                    attackers@.take(i as int),
                    blocker,
                ),
            decreases attackers.len() - i,
        {
            let a = attackers[i];
            let ghost prev = lists_view(self.attacker_blockers@);
            let mut list: Vec<CardId> = match self.attacker_blockers.get(a) {
                Some(existing) => copy_ids(existing),
                None => Vec::new(),
            };
            list.push(blocker);
            self.attacker_blockers.insert(a, list);
            proof {
                assert(attackers@.take(i + 1).drop_last() =~= attackers@.take(i as int));
                assert(attackers@.take(i + 1).last() == a);
                assert(lists_view(self.attacker_blockers@) =~= prev.insert(
                    a,
                    (if prev.contains_key(a) { prev[a] } else { Seq::empty() }).push(blocker),
                ));
            }
            i = i + 1;
        }
        proof {
            assert(attackers@.take(attackers@.len() as int) =~= attackers@);
        }
    }

    /// Whether the creature attacks.
    pub fn is_attacking(&self, card_id: CardId) -> (r: bool)
        ensures
            r == self.attackers@.contains_key(card_id),
    {
        self.attackers.contains_key(card_id)
    }

    /// Whether the creature blocks.
    pub fn is_blocking(&self, card_id: CardId) -> (r: bool)
        ensures
            r == self.blockers@.contains_key(card_id),
    {
        self.blockers.contains_key(card_id)
    }

    /// Whether the attacker has at least one blocker.
    pub fn is_blocked(&self, attacker: CardId) -> (r: bool)
        ensures
            r == (self.attacker_blockers@.contains_key(attacker) && self.attacker_blockers@[attacker]@.len() > 0),
    {
        match self.attacker_blockers.get(attacker) {
            Some(blockers) => blockers.len() > 0,
            None => false,
        }
    }

    /// The blockers of an attacker (none when it is not blocked).
    pub fn get_blockers(&self, attacker: CardId) -> (r: Vec<CardId>)
        ensures
            self.attacker_blockers@.contains_key(attacker) ==> r@ == self.attacker_blockers@[attacker]@,
            !self.attacker_blockers@.contains_key(attacker) ==> r@.len() == 0,
    {
        match self.attacker_blockers.get(attacker) {
            Some(blockers) => copy_ids(blockers),
            None => Vec::new(),
        }
    }

    /// The player an attacker attacks.
    pub fn get_defending_player(&self, attacker: CardId) -> (r: Option<PlayerId>)
        ensures
            r == (if self.attackers@.contains_key(attacker) { Some(self.attackers@[attacker]) } else { None }),
    {
        match self.attackers.get(attacker) {
            Some(p) => Some(*p),
            None => None,
        }
    }

    /// The attacking creatures, in increasing id order.
    pub fn get_attackers(&self) -> (r: Vec<CardId>)
        ensures
            r@.to_set() == self.attackers@.dom(),
            forall|i: int, j: int| 0 <= i < j < r@.len() ==> (#[trigger] r@[i]).value < (#[trigger] r@[j]).value,
    {
        self.attackers.keys()
    }

    /// The blocking creatures, in increasing id order.
    pub fn get_blockers_list(&self) -> (r: Vec<CardId>)
        ensures
            r@.to_set() == self.blockers@.dom(),
            forall|i: int, j: int| 0 <= i < j < r@.len() ==> (#[trigger] r@[i]).value < (#[trigger] r@[j]).value,
    {
        self.blockers.keys()
    }

    /// Ends combat: no attackers, no blockers, not active.
    pub fn clear(&mut self)
        ensures
            final(self).attackers@ == Map::<CardId, PlayerId>::empty(),
            final(self).blockers@ == Map::<CardId, Vec<CardId>>::empty(),
            final(self).attacker_blockers@ == Map::<CardId, Vec<CardId>>::empty(),
            !final(self).combat_active,
    {
        self.attackers.clear();
        self.blockers.clear();
        self.attacker_blockers.clear();
        self.combat_active = false;
    }
}

impl Default for CombatState {
    /// No combat.
    fn default() -> (r: Self)
        ensures
            r.attackers@ == Map::<CardId, PlayerId>::empty(),
            r.blockers@ == Map::<CardId, Vec<CardId>>::empty(),
            r.attacker_blockers@ == Map::<CardId, Vec<CardId>>::empty(),
            !r.combat_active,
    {
        Self::new()
    }
}

/// A blocker that blocks an attacker is among that attacker's blockers
/// afterwards, whatever the attacker's blockers were before.
pub proof fn law_declared_blocker_blocks(m: Map<CardId, Seq<CardId>>, attackers: Seq<CardId>, blocker: CardId, a: CardId)
    requires
        attackers.contains(a),
    ensures
        add_blocker_to(m, attackers, blocker).contains_key(a),
        add_blocker_to(m, attackers, blocker)[a].contains(blocker),
    decreases attackers.len(),
{
    let init = attackers.drop_last();
    let prev = add_blocker_to(m, init, blocker);
    if attackers.last() == a {
        let l = (if prev.contains_key(a) { prev[a] } else { Seq::empty() }).push(blocker);
        assert(l[l.len() - 1] == blocker);
    } else {
        let i = choose|i: int| 0 <= i < attackers.len() && attackers[i] == a;
        assert(init[i] == a);
        law_declared_blocker_blocks(m, init, blocker, a);
        let j = choose|j: int| 0 <= j < prev[a].len() && prev[a][j] == blocker;
        assert(add_blocker_to(m, attackers, blocker)[a][j] == blocker);
    }
}

/// Blocking never removes a blocker from an attacker: each list only grows
/// at its end.
pub proof fn law_blocker_lists_only_grow(m: Map<CardId, Seq<CardId>>, attackers: Seq<CardId>, blocker: CardId, a: CardId)
    requires
        m.contains_key(a),
    ensures
        add_blocker_to(m, attackers, blocker).contains_key(a),
        add_blocker_to(m, attackers, blocker)[a].len() >= m[a].len(),
        add_blocker_to(m, attackers, blocker)[a].take(m[a].len() as int) == m[a],
    decreases attackers.len(),
{
    if attackers.len() > 0 {
        law_blocker_lists_only_grow(m, attackers.drop_last(), blocker, a);
        let prev = add_blocker_to(m, attackers.drop_last(), blocker);
        if attackers.last() == a {
            assert(prev[a].push(blocker).take(m[a].len() as int) =~= prev[a].take(m[a].len() as int));
        }
    }
}

} // verus!
