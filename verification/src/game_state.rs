//! The game state's undoable part, its log of actions, and undo.
//!
//! Every change made to the state is logged as a [`GameAction`]; undo pops
//! the last logged action and reverts it, without logging the revert, so a
//! search can try a line of play and take it back. Zones are lists of card
//! ids, the last id being the top; the state of each card that actions
//! change (tapped, temporary bonuses) is kept by card id.

use vstd::prelude::*;
use crate::combat::IdMap;
use crate::error::MtgError;
use crate::ids::{CardId, PlayerId};
use crate::text::{concat3, decimal_string, decimal_text};

verus! {

/// A zone a card can be in.
#[derive(Debug, Clone, Copy, PartialEq, Eq, Structural)]
pub enum Zone {
    Library,
    Hand,
    Battlefield,
    Graveyard,
    Stack,
    Exile,
}

/// A step of a turn.
#[derive(Debug, Clone, Copy, PartialEq, Eq, Structural)]
pub enum Step {
    Untap,
    Upkeep,
    Draw,
    Main1,
    BeginCombat,
    DeclareAttackers,
    DeclareBlockers,
    CombatDamage,
    EndCombat,
    Main2,
    End,
    Cleanup,
}

/// Mana in a player's pool, by color.
#[derive(Debug, Clone, Copy, PartialEq, Eq, Structural)]
pub struct ManaPool {
    pub white: u8,
    pub blue: u8,
    pub black: u8,
    pub red: u8,
    pub green: u8,
    pub colorless: u8,
}

/// What the actions change of a player.
#[derive(Debug, Clone, Copy, PartialEq, Eq, Structural)]
pub struct PlayerState {
    pub id: PlayerId,
    pub life: i32,
    pub has_lost: bool,
    pub mana_pool: ManaPool,
}

/// What the actions change of a card.
#[derive(Debug, Clone, Copy, PartialEq, Eq, Structural)]
pub struct CardStatus {
    pub tapped: bool,
    /// Power added until end of turn.
    pub power_bonus: i32,
    /// Toughness added until end of turn.
    pub toughness_bonus: i32,
}

/// A player's own zones.
#[derive(Debug)]
pub struct PlayerZones {
    pub owner: PlayerId,
    pub library: Vec<CardId>,
    pub hand: Vec<CardId>,
    pub graveyard: Vec<CardId>,
    pub exile: Vec<CardId>,
}

/// A player's zones, by value.
pub struct ZonesView {
    pub owner: PlayerId,
    pub library: Seq<CardId>,
    pub hand: Seq<CardId>,
    pub graveyard: Seq<CardId>,
    pub exile: Seq<CardId>,
}

impl View for PlayerZones {
    type V = ZonesView;

    open spec fn view(&self) -> ZonesView {
        ZonesView {
            owner: self.owner,
            library: self.library@,
            hand: self.hand@,
            graveyard: self.graveyard@,
            exile: self.exile@,
        }
    }
}

/// A logged change of the game state.
#[derive(Debug, Clone, Copy, PartialEq, Eq, Structural)]
pub enum GameAction {
    /// A card moved between zones; `owner`'s zones are meant for the zones
    /// that belong to a player.
    MoveCard { card_id: CardId, from_zone: Zone, to_zone: Zone, owner: PlayerId },
    /// A card was tapped (`tapped`) or untapped.
    TapCard { card_id: CardId, tapped: bool },
    /// A player's life changed by `delta`.
    ModifyLife { player_id: PlayerId, delta: i32 },
    /// Mana was added to a player's pool.
    AddMana { player_id: PlayerId, mana: ManaPool },
    /// A player's pool was emptied; `prev` is what it held.
    EmptyManaPool { player_id: PlayerId, prev: ManaPool },
    /// The turn moved on from one step to the next.
    AdvanceStep { from_step: Step, to_step: Step },
    /// The turn passed from one player to the next; `turn_number` is the new
    /// turn's number.
    ChangeTurn { from_player: PlayerId, to_player: PlayerId, turn_number: u32 },
    /// A creature got temporary bonuses.
    PumpCreature { card_id: CardId, power_delta: i32, toughness_delta: i32 },
    /// A controller made a choice (nothing to revert).
    ChoicePoint { player_id: PlayerId, choice_id: u32 },
}

/// The game state that actions change, with its undo log.
pub struct GameState {
    /// The state of each card, by id.
    pub cards: IdMap<CardStatus>,
    pub players: Vec<PlayerState>,
    pub player_zones: Vec<PlayerZones>,
    pub battlefield: Vec<CardId>,
    pub stack: Vec<CardId>,
    pub active_player: PlayerId,
    pub turn_number: u32,
    pub current_step: Step,
    /// The actions taken, oldest first.
    pub undo_log: Vec<GameAction>,
}

/// The game state without its log, by value.
pub struct BoardView {
    pub cards: Map<CardId, CardStatus>,
    pub players: Seq<PlayerState>,
    pub zones: Seq<ZonesView>,
    pub battlefield: Seq<CardId>,
    pub stack: Seq<CardId>,
    pub active_player: PlayerId,
    pub turn_number: u32,
    pub current_step: Step,
}

impl GameState {
    /// The state without its log, by value.
    pub open spec fn board_view(self) -> BoardView {
        BoardView {
            cards: self.cards@,
            players: self.players@,
            zones: self.player_zones@.map_values(|z: PlayerZones| z@),
            battlefield: self.battlefield@,
            stack: self.stack@,
            active_player: self.active_player,
            turn_number: self.turn_number,
            current_step: self.current_step,
        }
    }
}

/// The first position at or after `k` of `x` in `s`.
pub open spec fn pos_from(s: Seq<CardId>, x: CardId, k: int) -> Option<int>
    decreases s.len() - k,
{
    if k < 0 || k >= s.len() {
        None
    } else if s[k] == x {
        Some(k)
    } else {
        pos_from(s, x, k + 1)
    }
}

/// `s` without its first `x` (unchanged when `x` is not there).
pub open spec fn remove_first(s: Seq<CardId>, x: CardId) -> Seq<CardId> {
    match pos_from(s, x, 0) {
        Some(i) => s.remove(i),
        None => s,
    }
}

/// The first position at or after `k` of the zones of `owner`.
pub open spec fn zones_from(zs: Seq<ZonesView>, owner: PlayerId, k: int) -> Option<int>
    decreases zs.len() - k,
{
    if k < 0 || k >= zs.len() {
        None
    } else if zs[k].owner == owner {
        Some(k)
    } else {
        zones_from(zs, owner, k + 1)
    }
}

/// The first position at or after `k` of the player `id`.
pub open spec fn player_from(ps: Seq<PlayerState>, id: PlayerId, k: int) -> Option<int>
    decreases ps.len() - k,
{
    if k < 0 || k >= ps.len() {
        None
    } else if ps[k].id == id {
        Some(k)
    } else {
        player_from(ps, id, k + 1)
    }
}

/// The cards of one of a player's zones (none for the shared zones).
pub open spec fn own_zone(z: ZonesView, zone: Zone) -> Option<Seq<CardId>> {
    match zone {
        Zone::Library => Some(z.library),
        Zone::Hand => Some(z.hand),
        Zone::Graveyard => Some(z.graveyard),
        Zone::Exile => Some(z.exile),
        _ => None,
    }
}

/// A player's zones with one of them replaced.
pub open spec fn with_own_zone(z: ZonesView, zone: Zone, s: Seq<CardId>) -> ZonesView {
    match zone {
        Zone::Library => ZonesView { library: s, ..z },
        Zone::Hand => ZonesView { hand: s, ..z },
        Zone::Graveyard => ZonesView { graveyard: s, ..z },
        Zone::Exile => ZonesView { exile: s, ..z },
        _ => z,
    }
}

/// The cards of a zone: the shared battlefield and stack, or `owner`'s own
/// zone (none when `owner` has no zones).
pub open spec fn zone_of(b: BoardView, zone: Zone, owner: PlayerId) -> Option<Seq<CardId>> {
    match zone {
        Zone::Battlefield => Some(b.battlefield),
        Zone::Stack => Some(b.stack),
        _ => match zones_from(b.zones, owner, 0) {
            Some(i) => own_zone(b.zones[i], zone),
            None => None,
        },
    }
}

/// The board with a zone's cards replaced (unchanged when the zone is not
/// there).
pub open spec fn with_zone(b: BoardView, zone: Zone, owner: PlayerId, s: Seq<CardId>) -> BoardView {
    match zone {
        Zone::Battlefield => BoardView { battlefield: s, ..b },
        Zone::Stack => BoardView { stack: s, ..b },
        _ => match zones_from(b.zones, owner, 0) {
            Some(i) => BoardView { zones: b.zones.update(i, with_own_zone(b.zones[i], zone, s)), ..b },
            None => b,
        },
    }
}

/// Mana taken back from a pool: each color whose pool holds at least the
/// added amount loses it; the others are kept.
pub open spec fn mana_taken_back(pool: ManaPool, mana: ManaPool) -> ManaPool {
    ManaPool {
        white: if pool.white >= mana.white { (pool.white - mana.white) as u8 } else { pool.white },
        blue: if pool.blue >= mana.blue { (pool.blue - mana.blue) as u8 } else { pool.blue },
        black: if pool.black >= mana.black { (pool.black - mana.black) as u8 } else { pool.black },
        red: if pool.red >= mana.red { (pool.red - mana.red) as u8 } else { pool.red },
        green: if pool.green >= mana.green { (pool.green - mana.green) as u8 } else { pool.green },
        colorless: if pool.colorless >= mana.colorless { (pool.colorless - mana.colorless) as u8 } else {
            pool.colorless
        },
    }
}

/// The player after a life change `delta` is taken back: a gain is lost
/// again and a loss gained again; a player left above 0 life has not lost.
pub open spec fn life_taken_back(p: PlayerState, delta: i32) -> PlayerState {
    let life = (p.life - delta) as i32;
    PlayerState { life, has_lost: if life > 0 { false } else { p.has_lost }, ..p }
}

/// The board with `a` reverted.
pub open spec fn revert(b: BoardView, a: GameAction) -> BoardView {
    match a {
        GameAction::MoveCard { card_id, from_zone, to_zone, owner } => match zone_of(b, to_zone, owner) {
            Some(s) => if s.contains(card_id) {
                let b1 = with_zone(b, to_zone, owner, remove_first(s, card_id));
                match zone_of(b1, from_zone, owner) {
                    Some(f) => with_zone(b1, from_zone, owner, f.push(card_id)),
                    None => b1,
                }
            } else {
                b
            },
            None => b,
        },
        GameAction::TapCard { card_id, tapped } => if b.cards.contains_key(card_id) {
            BoardView { cards: b.cards.insert(card_id, CardStatus { tapped: !tapped, ..b.cards[card_id] }), ..b }
        } else {
            b
        },
        GameAction::ModifyLife { player_id, delta } => match player_from(b.players, player_id, 0) {
            Some(i) => BoardView { players: b.players.update(i, life_taken_back(b.players[i], delta)), ..b },
            None => b,
        },
        GameAction::AddMana { player_id, mana } => match player_from(b.players, player_id, 0) {
            Some(i) => BoardView {
                players: b.players.update(
                    i,
                    PlayerState { mana_pool: mana_taken_back(b.players[i].mana_pool, mana), ..b.players[i] },
                ),
                ..b
            },
            None => b,
        },
        GameAction::EmptyManaPool { player_id, prev } => match player_from(b.players, player_id, 0) {
            Some(i) => BoardView {
                players: b.players.update(i, PlayerState { mana_pool: prev, ..b.players[i] }),
                ..b
            },
            None => b,
        },
        GameAction::AdvanceStep { from_step, .. } => BoardView { current_step: from_step, ..b },
        GameAction::ChangeTurn { from_player, turn_number, .. } => BoardView {
            active_player: from_player,
            turn_number: (turn_number - 1) as u32,
            ..b
        },
        GameAction::PumpCreature { card_id, power_delta, toughness_delta } => if b.cards.contains_key(card_id) {
            BoardView {
                cards: b.cards.insert(
                    card_id,
                    CardStatus {
                        power_bonus: (b.cards[card_id].power_bonus - power_delta) as i32,
                        toughness_bonus: (b.cards[card_id].toughness_bonus - toughness_delta) as i32,
                        ..b.cards[card_id]
                    },
                ),
                ..b
            }
        } else {
            b
        },
        GameAction::ChoicePoint { .. } => b,
    }
}

/// Reverting `a` keeps every number within its type: a life change taken
/// back, a bonus taken back, and a turn number taken back by one.
pub open spec fn revert_fits(b: BoardView, a: GameAction) -> bool {
    match a {
        GameAction::ModifyLife { player_id, delta } => match player_from(b.players, player_id, 0) {
            Some(i) => delta != i32::MIN && i32::MIN <= b.players[i].life - delta <= i32::MAX,
            None => true,
        },
        GameAction::ChangeTurn { turn_number, .. } => turn_number >= 1,
        GameAction::PumpCreature { card_id, power_delta, toughness_delta } => b.cards.contains_key(card_id)
            ==> i32::MIN <= b.cards[card_id].power_bonus - power_delta <= i32::MAX && i32::MIN
            <= b.cards[card_id].toughness_bonus - toughness_delta <= i32::MAX,
        _ => true,
    }
}

/// Removes the first `id` from `v`; says whether it was there.
fn remove_id(v: &mut Vec<CardId>, id: CardId) -> (r: bool)
    ensures
        r == old(v)@.contains(id),
        final(v)@ == remove_first(old(v)@, id),
        !r ==> final(v)@ == old(v)@,
{
    let mut i: usize = 0;
    while i < v.len()
        invariant
            i <= v.len(),
            v@ == old(v)@,
            forall|j: int| 0 <= j < i ==> v@[j] != id,
            pos_from(v@, id, 0) == pos_from(v@, id, i as int),
        decreases v.len() - i,
    {
        if v[i] == id {
            proof {
                assert(pos_from(v@, id, i as int) == Some(i as int));
                assert(v@[i as int] == id);
            }
            v.remove(i);
            return true;
        }
        i = i + 1;
    }
    proof {
        assert(pos_from(v@, id, i as int) is None);
        assert(!v@.contains(id)) by {
            if v@.contains(id) {
                let j = choose|j: int| 0 <= j < v@.len() && v@[j] == id;
                assert(v@[j] != id);
            }
        }
    }
    false
}

/// The position of `owner`'s zones.
fn zones_pos(zs: &Vec<PlayerZones>, owner: PlayerId) -> (r: Option<usize>)
    ensures
        match r {
            Some(i) => zones_from(zs@.map_values(|z: PlayerZones| z@), owner, 0) == Some(i as int),
            None => zones_from(zs@.map_values(|z: PlayerZones| z@), owner, 0) is None,
        },
{
    let ghost vs = zs@.map_values(|z: PlayerZones| z@);
    let mut i: usize = 0;
    while i < zs.len()
        invariant
            i <= zs.len(),
            vs == zs@.map_values(|z: PlayerZones| z@),
            zones_from(vs, owner, 0) == zones_from(vs, owner, i as int),
        decreases zs.len() - i,
    {
        if zs[i].owner == owner {
            return Some(i);
        }
        i = i + 1;
    }
    None
}

/// The position of the player `id`.
fn player_pos(ps: &Vec<PlayerState>, id: PlayerId) -> (r: Option<usize>)
    ensures
        match r {
            Some(i) => player_from(ps@, id, 0) == Some(i as int) && i < ps@.len(),
            None => player_from(ps@, id, 0) is None,
        },
{
    let mut i: usize = 0;
    while i < ps.len()
        invariant
            i <= ps.len(),
            player_from(ps@, id, 0) == player_from(ps@, id, i as int),
        decreases ps.len() - i,
    {
        if ps[i].id == id {
            return Some(i);
        }
        i = i + 1;
    }
    None
}

proof fn lemma_zones_from_found(zs: Seq<ZonesView>, owner: PlayerId, i: int)
    requires
        zones_from(zs, owner, 0) == Some(i),
    ensures
        0 <= i < zs.len(),
        zs[i].owner == owner,
{
    lemma_zones_from_range(zs, owner, 0);
}

proof fn lemma_zones_from_range(zs: Seq<ZonesView>, owner: PlayerId, k: int)
    ensures
        match zones_from(zs, owner, k) {
            Some(i) => k <= i < zs.len() && zs[i].owner == owner,
            None => true,
        },
    decreases zs.len() - k,
{
    if 0 <= k < zs.len() && zs[k].owner != owner {
        lemma_zones_from_range(zs, owner, k + 1);
    }
}

proof fn lemma_player_from_range(ps: Seq<PlayerState>, id: PlayerId, k: int)
    ensures
        match player_from(ps, id, k) {
            Some(i) => k <= i < ps.len() && ps[i].id == id,
            None => true,
        },
    decreases ps.len() - k,
{
    if 0 <= k < ps.len() && ps[k].id != id {
        lemma_player_from_range(ps, id, k + 1);
    }
}

/// Removes the first `id` from one of a player's zones; says whether it was
/// there (false, and nothing changes, for a shared zone).
fn remove_in_own(z: &mut PlayerZones, zone: Zone, id: CardId) -> (r: bool)
    ensures
        match own_zone(old(z)@, zone) {
            Some(s) => r == s.contains(id) && final(z)@ == with_own_zone(old(z)@, zone, remove_first(s, id)),
            None => !r && final(z)@ == old(z)@,
        },
        !r ==> final(z)@ == old(z)@,
{
    match zone {
        Zone::Library => remove_id(&mut z.library, id),
        Zone::Hand => remove_id(&mut z.hand, id),
        Zone::Graveyard => remove_id(&mut z.graveyard, id),
        Zone::Exile => remove_id(&mut z.exile, id),
        _ => false,
    }
}

/// Puts `id` on top of one of a player's zones (nothing changes for a shared
/// zone).
fn add_in_own(z: &mut PlayerZones, zone: Zone, id: CardId)
    ensures
        match own_zone(old(z)@, zone) {
            Some(s) => final(z)@ == with_own_zone(old(z)@, zone, s.push(id)),
            None => final(z)@ == old(z)@,
        },
{
    match zone {
        Zone::Library => z.library.push(id),
        Zone::Hand => z.hand.push(id),
        Zone::Graveyard => z.graveyard.push(id),
        Zone::Exile => z.exile.push(id),
        _ => {},
    }
}

impl GameState {
    /// Removes the first `card_id` from a zone; says whether it was there
    /// (false, and nothing changes, when the zone is not there).
    fn remove_from_zone(&mut self, zone: Zone, owner: PlayerId, card_id: CardId) -> (r: bool)
        ensures
            final(self).undo_log@ == old(self).undo_log@,
            !r ==> final(self).board_view() == old(self).board_view(),
            match zone_of(old(self).board_view(), zone, owner) {
                Some(s) => r == s.contains(card_id) && final(self).board_view() == with_zone(
                    old(self).board_view(),
                    zone,
                    owner,
                    remove_first(s, card_id),
                ),
                None => !r && final(self).board_view() == old(self).board_view(),
            },
    {
        let ghost b = old(self).board_view();
        match zone {
            Zone::Battlefield => {
                let r = remove_id(&mut self.battlefield, card_id);
                proof {
                    assert(self.board_view() == with_zone(b, zone, owner, remove_first(b.battlefield, card_id)));
                }
                r
            },
            Zone::Stack => {
                let r = remove_id(&mut self.stack, card_id);
                proof {
                    assert(self.board_view() == with_zone(b, zone, owner, remove_first(b.stack, card_id)));
                }
                r
            },
            _ => match zones_pos(&self.player_zones, owner) {
                Some(i) => {
                    proof {
                        lemma_zones_from_found(b.zones, owner, i as int);
                    }
                    let mut z = self.player_zones.remove(i);
                    let ghost zv = z@;
                    let r = remove_in_own(&mut z, zone, card_id);
                    self.player_zones.insert(i, z);
                    proof {
                        assert(zv == b.zones[i as int]);
                        assert(self.player_zones@.map_values(|z: PlayerZones| z@) =~= b.zones.update(
                            i as int,
                            z@,
                        ));
                        if !r {
                            assert(self.player_zones@.map_values(|z: PlayerZones| z@) =~= b.zones);
                        }
                    }
                    r
                },
                None => false,
            },
        }
    }

    /// Puts `card_id` on top of a zone (nothing changes when the zone is not
    /// there).
    fn add_to_zone(&mut self, zone: Zone, owner: PlayerId, card_id: CardId)
        ensures
            final(self).undo_log@ == old(self).undo_log@,
            match zone_of(old(self).board_view(), zone, owner) {
                Some(s) => final(self).board_view() == with_zone(old(self).board_view(), zone, owner, s.push(card_id)),
                None => final(self).board_view() == old(self).board_view(),
            },
    {
        let ghost b = old(self).board_view();
        match zone {
            Zone::Battlefield => {
                self.battlefield.push(card_id);
                proof {
                    assert(self.board_view() == with_zone(b, zone, owner, b.battlefield.push(card_id)));
                }
            },
            Zone::Stack => {
                self.stack.push(card_id);
                proof {
                    assert(self.board_view() == with_zone(b, zone, owner, b.stack.push(card_id)));
                }
            },
            _ => match zones_pos(&self.player_zones, owner) {
                Some(i) => {
                    proof {
                        lemma_zones_from_found(b.zones, owner, i as int);
                    }
                    let mut z = self.player_zones.remove(i);
                    let ghost zv = z@;
                    add_in_own(&mut z, zone, card_id);
                    self.player_zones.insert(i, z);
                    proof {
                        assert(zv == b.zones[i as int]);
                        assert(self.player_zones@.map_values(|z: PlayerZones| z@) =~= b.zones.update(
                            i as int,
                            z@,
                        ));
                    }
                },
                None => {},
            },
        }
    }
}

impl GameState {
    /// Undoes the most recent action: pops it from the log and reverts it,
    /// without logging the revert. Returns whether there was an action to
    /// undo; with an empty log nothing changes.
    pub fn undo(&mut self) -> (r: bool)
        requires
            old(self).undo_log@.len() > 0 ==> revert_fits(old(self).board_view(), old(self).undo_log@.last()),
        ensures
            old(self).undo_log@.len() == 0 ==> !r && *final(self) == *old(self),
            old(self).undo_log@.len() > 0 ==> r && final(self).undo_log@ == old(self).undo_log@.drop_last()
                && final(self).board_view() == revert(old(self).board_view(), old(self).undo_log@.last()),
    {
        if self.undo_log.len() == 0 {
            return false;
        }
        let ghost b = self.board_view();
        let action = match self.undo_log.pop() {
            Some(a) => a,
            None => {
                return false;
            },
        };
        proof {
            assert(self.board_view() == b);
            assert(self.undo_log@ =~= old(self).undo_log@.drop_last());
        }
        match action {
            GameAction::MoveCard { card_id, from_zone, to_zone, owner } => {
                let removed = self.remove_from_zone(to_zone, owner, card_id);
                let ghost b1 = self.board_view();
                if removed {
                    proof {
                        let s = zone_of(b, to_zone, owner)->0;
                        assert(zone_of(b, to_zone, owner) is Some);
                        assert(s.contains(card_id));
                        assert(b1 == with_zone(b, to_zone, owner, remove_first(s, card_id)));
                    }
                    self.add_to_zone(from_zone, owner, card_id);
                } else {
                    proof {
                        assert(b1 == b);
                    }
                }
                proof { assert(self.board_view() == revert(b, action)); }
            },
            GameAction::TapCard { card_id, tapped } => {
                let found: Option<CardStatus> = match self.cards.get(card_id) {
                    Some(st) => Some(*st),
                    None => None,
                };
                match found {
                    Some(st) => {
                        self.cards.insert(card_id, CardStatus { tapped: !tapped, ..st });
                        proof { assert(self.board_view() == revert(b, action)); }
                    },
                    None => {},
                }
            },
            GameAction::ModifyLife { player_id, delta } => {
                match player_pos(&self.players, player_id) {
                    Some(i) => {
                        proof {
                            lemma_player_from_range(b.players, player_id, 0);
                        }
                        let p = self.players[i];
                        let life = p.life - delta;
                        let has_lost = if life > 0 { false } else { p.has_lost };
                        self.players.set(i, PlayerState { life, has_lost, ..p });
                        proof { assert(self.board_view() == revert(b, action)); }
                    },
                    None => {},
                }
            },
            GameAction::AddMana { player_id, mana } => {
                match player_pos(&self.players, player_id) {
                    Some(i) => {
                        proof {
                            lemma_player_from_range(b.players, player_id, 0);
                        }
                        let p = self.players[i];
                        let pool = p.mana_pool;
                        let back = ManaPool {
                            white: if pool.white >= mana.white { pool.white - mana.white } else { pool.white },
                            blue: if pool.blue >= mana.blue { pool.blue - mana.blue } else { pool.blue },
                            black: if pool.black >= mana.black { pool.black - mana.black } else { pool.black },
                            red: if pool.red >= mana.red { pool.red - mana.red } else { pool.red },
                            green: if pool.green >= mana.green { pool.green - mana.green } else { pool.green },
                            colorless: if pool.colorless >= mana.colorless {
                                pool.colorless - mana.colorless
                            } else {
                                pool.colorless
                            },
                        };
                        self.players.set(i, PlayerState { mana_pool: back, ..p });
                        proof { assert(self.board_view() == revert(b, action)); }
                    },
                    None => {},
                }
            },
            GameAction::EmptyManaPool { player_id, prev } => {
                match player_pos(&self.players, player_id) {
                    Some(i) => {
                        proof {
                            lemma_player_from_range(b.players, player_id, 0);
                        }
                        let p = self.players[i];
                        self.players.set(i, PlayerState { mana_pool: prev, ..p });
                        proof { assert(self.board_view() == revert(b, action)); }
                    },
                    None => {},
                }
            },
            GameAction::AdvanceStep { from_step, .. } => {
                self.current_step = from_step;
            },
            GameAction::ChangeTurn { from_player, turn_number, .. } => {
                self.active_player = from_player;
                self.turn_number = turn_number - 1;
            },
            GameAction::PumpCreature { card_id, power_delta, toughness_delta } => {
                let found: Option<CardStatus> = match self.cards.get(card_id) {
                    Some(st) => Some(*st),
                    None => None,
                };
                match found {
                    Some(st) => {
                        let power_bonus = st.power_bonus - power_delta;
                        let toughness_bonus = st.toughness_bonus - toughness_delta;
                        self.cards.insert(card_id, CardStatus { power_bonus, toughness_bonus, ..st });
                        proof { assert(self.board_view() == revert(b, action)); }
                    },
                    None => {},
                }
            },
            GameAction::ChoicePoint { .. } => {},
        }
        proof {
            assert(self.board_view() == revert(b, action));
        }
        true
    }
}

/// The board after `card_id` moves from one zone to another: taken out of
/// the source (its first occurrence) and put on top of the destination
/// (which is left as it is when it is not there).
pub open spec fn moved(b: BoardView, card_id: CardId, from_zone: Zone, to_zone: Zone, owner: PlayerId) -> BoardView {
    let b1 = with_zone(b, from_zone, owner, remove_first(zone_of(b, from_zone, owner)->0, card_id));
    match zone_of(b1, to_zone, owner) {
        Some(t) => with_zone(b1, to_zone, owner, t.push(card_id)),
        None => b1,
    }
}

/// The message for a card missing from the zone it should move from.
pub open spec fn not_in_source_message(card_id: CardId) -> Seq<char> {
    "Card "@ + decimal_text(card_id.value as nat) + " not found in source zone"@
}

impl GameState {
    /// A two-player game at its start: players 0 and 1 with `starting_life`
    /// life and empty pools and zones, no cards, player 0 active in the untap
    /// step of turn 1, an empty log.
    pub fn new_two_player(starting_life: i32) -> (r: Self)
        ensures
            r.players@.len() == 2,
            r.players@[0] == (PlayerState {
                id: PlayerId { value: 0 },
                life: starting_life,
                has_lost: false,
                mana_pool: ManaPool { white: 0, blue: 0, black: 0, red: 0, green: 0, colorless: 0 },
            }),
            r.players@[1] == (PlayerState {
                id: PlayerId { value: 1 },
                life: starting_life,
                has_lost: false,
                mana_pool: ManaPool { white: 0, blue: 0, black: 0, red: 0, green: 0, colorless: 0 },
            }),
            r.player_zones@.len() == 2,
            r.player_zones@[0]@ == (ZonesView {
                owner: PlayerId { value: 0 },
                library: Seq::empty(),
                hand: Seq::empty(),
                graveyard: Seq::empty(),
                exile: Seq::empty(),
            }),
            r.player_zones@[1]@ == (ZonesView {
                owner: PlayerId { value: 1 },
                library: Seq::empty(),
                hand: Seq::empty(),
                graveyard: Seq::empty(),
                exile: Seq::empty(),
            }),
            r.cards@ == Map::<CardId, CardStatus>::empty(),
            r.battlefield@.len() == 0,
            r.stack@.len() == 0,
            r.active_player == (PlayerId { value: 0 }),
            r.turn_number == 1,
            r.current_step == Step::Untap,
            r.undo_log@.len() == 0,
    {
        let empty = ManaPool { white: 0, blue: 0, black: 0, red: 0, green: 0, colorless: 0 };
        let p1 = PlayerId { value: 0 };
        let p2 = PlayerId { value: 1 };
        let mut players: Vec<PlayerState> = Vec::new();
        players.push(PlayerState { id: p1, life: starting_life, has_lost: false, mana_pool: empty });
        players.push(PlayerState { id: p2, life: starting_life, has_lost: false, mana_pool: empty });
        let mut player_zones: Vec<PlayerZones> = Vec::new();
        player_zones.push(
            PlayerZones { owner: p1, library: Vec::new(), hand: Vec::new(), graveyard: Vec::new(), exile: Vec::new() },
        );
        player_zones.push(
            PlayerZones { owner: p2, library: Vec::new(), hand: Vec::new(), graveyard: Vec::new(), exile: Vec::new() },
        );
        GameState {
            cards: IdMap::new(),
            players,
            player_zones,
            battlefield: Vec::new(),
            stack: Vec::new(),
            active_player: p1,
            turn_number: 1,
            current_step: Step::Untap,
            undo_log: Vec::new(),
        }
    }

    /// Moves a card from one zone to another and logs the move: it is taken
    /// out of the source zone and put on top of the destination. A card not
    /// in the source zone (or a source zone that is not there) is refused and
    /// nothing changes.
    pub fn move_card(&mut self, card_id: CardId, from_zone: Zone, to_zone: Zone, owner: PlayerId) -> (r: Result<(), MtgError>)
        ensures
            match zone_of(old(self).board_view(), from_zone, owner) {
                Some(s) => s.contains(card_id),
                None => false,
            } ==> r is Ok && final(self).board_view() == moved(old(self).board_view(), card_id, from_zone, to_zone, owner)
                && final(self).undo_log@ == old(self).undo_log@.push(
                GameAction::MoveCard { card_id, from_zone, to_zone, owner },
            ),
            !match zone_of(old(self).board_view(), from_zone, owner) {
                Some(s) => s.contains(card_id),
                None => false,
            } ==> (r matches Err(MtgError::InvalidAction(m)) && m@ == not_in_source_message(card_id))
                && final(self).board_view() == old(self).board_view() && final(self).undo_log@ == old(self).undo_log@,
    {
        let removed = self.remove_from_zone(from_zone, owner, card_id);
        if !removed {
            let num = decimal_string(card_id.value as usize);
            return Err(MtgError::InvalidAction(concat3("Card ", num.as_str(), " not found in source zone")));
        }
        self.add_to_zone(to_zone, owner, card_id);
        self.undo_log.push(GameAction::MoveCard { card_id, from_zone, to_zone, owner });
        Ok(())
    }
}

impl GameState {
    /// Draws the top card of a player's library into their hand and logs the
    /// move; nothing happens (and none is drawn) when the library is empty or
    /// the player has no zones.
    pub fn draw_card(&mut self, player_id: PlayerId) -> (r: Option<CardId>)
        ensures
            match zone_of(old(self).board_view(), Zone::Library, player_id) {
                Some(l) => l.len() > 0,
                None => false,
            } ==> ({
                let b = old(self).board_view();
                let l = zone_of(b, Zone::Library, player_id)->0;
                let h = zone_of(b, Zone::Hand, player_id)->0;
                &&& r == Some(l.last())
                &&& final(self).board_view() == with_zone(
                    with_zone(b, Zone::Library, player_id, l.drop_last()),
                    Zone::Hand,
                    player_id,
                    h.push(l.last()),
                )
                &&& final(self).undo_log@ == old(self).undo_log@.push(
                    GameAction::MoveCard {
                        card_id: l.last(),
                        from_zone: Zone::Library,
                        to_zone: Zone::Hand,
                        owner: player_id,
                    },
                )
            }),
            !match zone_of(old(self).board_view(), Zone::Library, player_id) {
                Some(l) => l.len() > 0,
                None => false,
            } ==> r is None && final(self).board_view() == old(self).board_view() && final(self).undo_log@
                == old(self).undo_log@,
    {
        let ghost b = self.board_view();
        match zones_pos(&self.player_zones, player_id) {
            Some(i) => {
                proof {
                    lemma_zones_from_found(b.zones, player_id, i as int);
                }
                if self.player_zones[i].library.len() == 0 {
                    return None;
                }
                let mut z = self.player_zones.remove(i);
                let ghost zv = z@;
                let card = match z.library.pop() {
                    Some(c) => c,
                    None => {
                        self.player_zones.insert(i, z);
                        proof {
                            assert(self.player_zones@.map_values(|z: PlayerZones| z@) =~= b.zones);
                        }
                        return None;
                    },
                };
                z.hand.push(card);
                self.player_zones.insert(i, z);
                self.undo_log.push(
                    GameAction::MoveCard { card_id: card, from_zone: Zone::Library, to_zone: Zone::Hand, owner: player_id },
                );
                proof {
                    assert(zv == b.zones[i as int]);
                    assert(zv.library.subrange(0, zv.library.len() - 1) =~= zv.library.drop_last());
                    let b1 = with_zone(b, Zone::Library, player_id, zv.library.drop_last());
                    lemma_zone_of_with(b, Zone::Library, Zone::Hand, player_id, zv.library.drop_last());
                    lemma_zones_from_owners(b1.zones, b.zones, player_id, 0);
                    assert(self.player_zones@.map_values(|z: PlayerZones| z@) =~= with_zone(
                        b1,
                        Zone::Hand,
                        player_id,
                        zv.hand.push(card),
                    ).zones);
                }
                Some(card)
            },
            None => None,
        }
    }
}

/// The player after losing `amount` life: a player at 0 life or less has
/// lost.
pub open spec fn after_life_loss(p: PlayerState, amount: i32) -> PlayerState {
    let life = (p.life - amount) as i32;
    PlayerState { life, has_lost: p.has_lost || life <= 0, ..p }
}

impl GameState {
    /// Deals damage to a player: they lose that much life (losing the game at
    /// 0 or less) and the change is logged. A target that is not a player of
    /// the game is refused and nothing changes.
    pub fn deal_damage(&mut self, target_id: PlayerId, amount: i32) -> (r: Result<(), MtgError>)
        requires
            amount != i32::MIN,
            match player_from(old(self).players@, target_id, 0) {
                Some(i) => i32::MIN <= old(self).players@[i].life - amount <= i32::MAX,
                None => true,
            },
        ensures
            match player_from(old(self).board_view().players, target_id, 0) {
                Some(i) => {
                    &&& r is Ok
                    &&& final(self).board_view() == (BoardView {
                        players: old(self).players@.update(i, after_life_loss(old(self).players@[i], amount)),
                        ..old(self).board_view()
                    })
                    &&& final(self).undo_log@ == old(self).undo_log@.push(
                        GameAction::ModifyLife { player_id: target_id, delta: (-amount) as i32 },
                    )
                },
                None => (r matches Err(MtgError::InvalidAction(m)) && m@ == "Invalid damage target"@)
                    && final(self).board_view() == old(self).board_view() && final(self).undo_log@
                    == old(self).undo_log@,
            },
    {
        match player_pos(&self.players, target_id) {
            Some(i) => {
                proof {
                    lemma_player_from_range(self.players@, target_id, 0);
                }
                let p = self.players[i];
                let life = p.life - amount;
                let has_lost = p.has_lost || life <= 0;
                self.players.set(i, PlayerState { life, has_lost, ..p });
                self.undo_log.push(GameAction::ModifyLife { player_id: target_id, delta: (-amount) as i32 });
                Ok(())
            },
            None => Err(MtgError::InvalidAction("Invalid damage target".to_owned())),
        }
    }
}

/// Undoing damage to a player who had not lost, and had life left, gives
/// them back their life and takes back the loss.
pub proof fn law_undo_reverts_damage(b: BoardView, target_id: PlayerId, amount: i32)
    requires
        amount != i32::MIN,
        player_from(b.players, target_id, 0) is Some,
        b.players[player_from(b.players, target_id, 0)->0].life > 0,
        !b.players[player_from(b.players, target_id, 0)->0].has_lost,
        i32::MIN <= b.players[player_from(b.players, target_id, 0)->0].life - amount <= i32::MAX,
    ensures
        ({
            let i = player_from(b.players, target_id, 0)->0;
            let damaged = BoardView { players: b.players.update(i, after_life_loss(b.players[i], amount)), ..b };
            revert(damaged, GameAction::ModifyLife { player_id: target_id, delta: (-amount) as i32 }) == b
        }),
{
    let i = player_from(b.players, target_id, 0)->0;
    lemma_player_from_range(b.players, target_id, 0);
    let damaged = BoardView { players: b.players.update(i, after_life_loss(b.players[i], amount)), ..b };
    lemma_player_from_same_ids(damaged.players, b.players, target_id, 0);
    assert(damaged.players.update(i, life_taken_back(damaged.players[i], (-amount) as i32)) =~= b.players);
}

/// Player lists with the same ids in the same places find the same player.
proof fn lemma_player_from_same_ids(ps1: Seq<PlayerState>, ps2: Seq<PlayerState>, id: PlayerId, k: int)
    requires
        ps1.len() == ps2.len(),
        forall|j: int| 0 <= j < ps1.len() ==> (#[trigger] ps1[j]).id == ps2[j].id,
    ensures
        player_from(ps1, id, k) == player_from(ps2, id, k),
    decreases ps1.len() - k,
{
    if 0 <= k < ps1.len() {
        lemma_player_from_same_ids(ps1, ps2, id, k + 1);
    }
}

/// Undoing a move puts the board back as it was, when the card was on top of
/// its source zone and in neither zone anywhere else, and the two zones are
/// there and different.
pub proof fn law_undo_reverts_move(b: BoardView, card_id: CardId, from_zone: Zone, to_zone: Zone, owner: PlayerId)
    requires
        from_zone != to_zone,
        zone_of(b, from_zone, owner) is Some,
        zone_of(b, to_zone, owner) is Some,
        zone_of(b, from_zone, owner)->0.len() > 0,
        zone_of(b, from_zone, owner)->0.last() == card_id,
        !zone_of(b, from_zone, owner)->0.drop_last().contains(card_id),
        !zone_of(b, to_zone, owner)->0.contains(card_id),
    ensures
        revert(
            moved(b, card_id, from_zone, to_zone, owner),
            GameAction::MoveCard { card_id, from_zone, to_zone, owner },
        ) == b,
{
    let s = zone_of(b, from_zone, owner)->0;
    let t = zone_of(b, to_zone, owner)->0;
    let s1 = s.drop_last();
    assert forall|m: int| 0 <= m < s.len() - 1 implies s[m] != card_id by {
        assert(s1[m] == s[m]);
    }
    lemma_pos_from_skip(s, card_id, 0, s.len() - 1);
    assert(s.remove(s.len() - 1) =~= s1);
    assert(remove_first(s, card_id) == s1);
    let b1 = with_zone(b, from_zone, owner, s1);
    lemma_zone_of_with(b, from_zone, to_zone, owner, s1);
    lemma_zone_of_with(b, from_zone, from_zone, owner, s1);
    let m = with_zone(b1, to_zone, owner, t.push(card_id));
    assert(m == moved(b, card_id, from_zone, to_zone, owner));
    lemma_zone_of_with(b1, to_zone, to_zone, owner, t.push(card_id));
    lemma_zone_of_with(b1, to_zone, from_zone, owner, t.push(card_id));
    assert(t.push(card_id)[t.len() as int] == card_id);
    assert forall|m: int| 0 <= m < t.len() implies t.push(card_id)[m] != card_id by {
        assert(t.push(card_id)[m] == t[m]);
    }
    lemma_pos_from_skip(t.push(card_id), card_id, 0, t.len() as int);
    assert(t.push(card_id).remove(t.len() as int) =~= t);
    assert(remove_first(t.push(card_id), card_id) == t);
    lemma_with_zone_twice(b1, to_zone, owner, t.push(card_id), t);
    lemma_with_zone_same(b1, to_zone, owner);
    let b2 = with_zone(m, to_zone, owner, t);
    assert(b2 == b1);
    assert(s1.push(card_id) =~= s);
    lemma_with_zone_twice(b, from_zone, owner, s1, s);
    lemma_with_zone_same(b, from_zone, owner);
}

/// Positions before `j` that do not hold `x` are passed over.
proof fn lemma_pos_from_skip(s: Seq<CardId>, x: CardId, k: int, j: int)
    requires
        0 <= k <= j < s.len(),
        s[j] == x,
        forall|m: int| k <= m < j ==> s[m] != x,
    ensures
        pos_from(s, x, k) == Some(j),
    decreases j - k,
{
    if k < j {
        lemma_pos_from_skip(s, x, k + 1, j);
    }
}

/// Zone lists with the same owners in the same places find the same owner.
proof fn lemma_zones_from_owners(zs1: Seq<ZonesView>, zs2: Seq<ZonesView>, o: PlayerId, k: int)
    requires
        zs1.len() == zs2.len(),
        forall|i: int| 0 <= i < zs1.len() ==> (#[trigger] zs1[i]).owner == zs2[i].owner,
    ensures
        zones_from(zs1, o, k) == zones_from(zs2, o, k),
    decreases zs1.len() - k,
{
    if 0 <= k < zs1.len() {
        lemma_zones_from_owners(zs1, zs2, o, k + 1);
    }
}

/// Replacing one zone changes what that zone holds and no other.
proof fn lemma_zone_of_with(b: BoardView, z1: Zone, z2: Zone, o: PlayerId, x: Seq<CardId>)
    requires
        zone_of(b, z1, o) is Some,
    ensures
        zone_of(with_zone(b, z1, o, x), z2, o) == if z1 == z2 { Some(x) } else { zone_of(b, z2, o) },
        zone_of(with_zone(b, z1, o, x), z2, o) is Some <==> zone_of(b, z2, o) is Some,
{
    let b1 = with_zone(b, z1, o, x);
    match zones_from(b.zones, o, 0) {
        Some(i) => {
            lemma_zones_from_found(b.zones, o, i);
            lemma_zones_from_owners(b1.zones, b.zones, o, 0);
        },
        None => {
            lemma_zones_from_owners(b1.zones, b.zones, o, 0);
        },
    }
}

/// Replacing a zone twice keeps the second replacement.
proof fn lemma_with_zone_twice(b: BoardView, z: Zone, o: PlayerId, x: Seq<CardId>, y: Seq<CardId>)
    requires
        zone_of(b, z, o) is Some,
    ensures
        with_zone(with_zone(b, z, o, x), z, o, y) == with_zone(b, z, o, y),
{
    let b1 = with_zone(b, z, o, x);
    match zones_from(b.zones, o, 0) {
        Some(i) => {
            lemma_zones_from_found(b.zones, o, i);
            lemma_zones_from_owners(b1.zones, b.zones, o, 0);
            assert(with_zone(b1, z, o, y).zones =~= with_zone(b, z, o, y).zones);
        },
        None => {},
    }
}

/// Replacing a zone with what it holds changes nothing.
proof fn lemma_with_zone_same(b: BoardView, z: Zone, o: PlayerId)
    requires
        zone_of(b, z, o) is Some,
    ensures
        with_zone(b, z, o, zone_of(b, z, o)->0) == b,
{
    match zones_from(b.zones, o, 0) {
        Some(i) => {
            lemma_zones_from_found(b.zones, o, i);
            assert(with_zone(b, z, o, zone_of(b, z, o)->0).zones =~= b.zones);
        },
        None => {},
    }
}

} // verus!
