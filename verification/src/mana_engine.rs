//! Per-player cache of mana sources and queries on whether a cost is payable.
//!
//! The engine scans the permanents on the battlefield, classifies the mana
//! sources a player owns as simple (a basic land producing one fixed kind of
//! mana) or complex (dual lands, any-color lands, mana creatures), keeps the
//! capacity of the simple sources as counters, and answers payment queries with
//! the resolver that fits the sources found.

use vstd::prelude::*;
use crate::card::{has_keyword_kind, has_type, Card, CardType, KeywordKind};
use crate::ids::{CardId, PlayerId};
use crate::mana::{u8_cap, KindView, ManaColor, ManaCost, PaymentView, ManaProduction, ManaProductionKind, ManaSource};
use crate::mana_payment::{GreedyManaResolver, ManaPaymentResolver, SimpleManaResolver, greedy_accepts, greedy_payment, simple_accepts, simple_payment};
use crate::text::{lowercase_of, seq_contains, str_contains, str_eq, to_lowercase};

verus! {

// ---------------------------------------------------------------------------
// ManaCapacity
// ---------------------------------------------------------------------------

/// Mana available from simple sources, per color and colorless.
#[derive(Debug, Clone, Copy, Default, PartialEq, Eq, Structural)]
pub struct ManaCapacity {
    pub white: u8,
    pub blue: u8,
    pub black: u8,
    pub red: u8,
    pub green: u8,
    pub colorless: u8,
}

impl ManaCapacity {
    /// The exact sum of all counters.
    pub open spec fn sum(self) -> int {
        self.white + self.blue + self.black + self.red + self.green + self.colorless
    }

    /// Whether the capacity covers a cost, with the library's byte arithmetic:
    /// every colored and the colorless requirement must be met, and the total
    /// (capped at 255) minus those requirements must reach the generic part.
    pub open spec fn covers(self, cost: ManaCost) -> bool {
        &&& cost.white <= self.white
        &&& cost.blue <= self.blue
        &&& cost.black <= self.black
        &&& cost.red <= self.red
        &&& cost.green <= self.green
        &&& cost.colorless <= self.colorless
        &&& {
            let rest = u8_cap(self.sum()) - cost.specific_total();
            (if rest > 0 { rest } else { 0 }) >= cost.generic
        }
    }

    /// An empty capacity.
    pub fn new() -> (r: Self)
        ensures
            r.sum() == 0,
    {
        ManaCapacity { white: 0, blue: 0, black: 0, red: 0, green: 0, colorless: 0 }
    }

    /// Total mana available, saturating at 255.
    pub fn total(&self) -> (r: u8)
        ensures
            r == u8_cap(self.sum()),
    {
        self.white.saturating_add(self.blue).saturating_add(self.black).saturating_add(self.red).saturating_add(
            self.green,
        ).saturating_add(self.colorless)
    }

    /// Whether this capacity can pay a cost made of plain symbols.
    pub fn can_pay_simple(&self, cost: &ManaCost) -> (r: bool)
        ensures
            r == self.covers(*cost),
    {
        if cost.white > self.white || cost.blue > self.blue || cost.black > self.black || cost.red > self.red
            || cost.green > self.green || cost.colorless > self.colorless {
            return false;
        }
        let remaining = self.total().saturating_sub(cost.white).saturating_sub(cost.blue).saturating_sub(
            cost.black,
        ).saturating_sub(cost.red).saturating_sub(cost.green).saturating_sub(cost.colorless);
        remaining >= cost.generic
    }
}

/// A cost reported payable never asks for more mana than the capacity holds:
/// every colored and colorless requirement is within its counter, and the
/// cost's total is at most the capacity's total. Where the capacity holds at
/// most 255 mana, this is exactly when the cost is payable.
pub proof fn law_payable_cost_fits_capacity(cap: ManaCapacity, cost: ManaCost)
    ensures
        cap.covers(cost) ==> cost.total() <= cap.sum(),
        cap.covers(cost) ==> cost.white <= cap.white && cost.blue <= cap.blue && cost.black <= cap.black
            && cost.red <= cap.red && cost.green <= cap.green && cost.colorless <= cap.colorless,
        cap.sum() <= 255 ==> (cap.covers(cost) <==> (cost.white <= cap.white && cost.blue <= cap.blue && cost.black
            <= cap.black && cost.red <= cap.red && cost.green <= cap.green && cost.colorless <= cap.colorless
            && cost.total() <= cap.sum())),
{
}

// ---------------------------------------------------------------------------
// Classifying permanents
// ---------------------------------------------------------------------------

/// The letter of the mana a basic land of this name produces (`C` for Wastes).
pub open spec fn simple_color_of(name: Seq<char>) -> Option<char> {
    if name == "Plains"@ {
        Some('W')
    } else if name == "Island"@ {
        Some('U')
    } else if name == "Swamp"@ {
        Some('B')
    } else if name == "Mountain"@ {
        Some('R')
    } else if name == "Forest"@ {
        Some('G')
    } else if name == "Wastes"@ {
        Some('C')
    } else {
        None
    }
}

/// The letter of the mana a basic land produces, or `None` for any other name.
pub fn get_simple_mana_color(land_name: &str) -> (r: Option<char>)
    ensures
        r == simple_color_of(land_name@),
{
    if str_eq(land_name, "Plains") {
        Some('W')
    } else if str_eq(land_name, "Island") {
        Some('U')
    } else if str_eq(land_name, "Swamp") {
        Some('B')
    } else if str_eq(land_name, "Mountain") {
        Some('R')
    } else if str_eq(land_name, "Forest") {
        Some('G')
    } else if str_eq(land_name, "Wastes") {
        Some('C')
    } else {
        None
    }
}

/// A creature whose lowercased oracle text mentions tapping to add mana.
pub open spec fn spec_has_mana_ability(card: Card) -> bool {
    let t = lowercase_of(card.text@);
    has_type(card, CardType::Creature) && (seq_contains(t, "{t}: add"@) || (seq_contains(t, "add"@)
        && seq_contains(t, "mana"@)))
}

/// Whether a card is a creature with a mana ability.
pub fn has_mana_ability(card: &Card) -> (r: bool)
    ensures
        r == spec_has_mana_ability(*card),
{
    if !card.is_creature() {
        return false;
    }
    let lower = to_lowercase(card.text.as_str());
    str_contains(lower.as_str(), "{t}: add") || (str_contains(lower.as_str(), "add") && str_contains(
        lower.as_str(),
        "mana",
    ))
}

/// The mana a creature's lowercased oracle text says it adds: any color first,
/// then W, U, B, R, G, C in that order.
pub open spec fn creature_kind(text: Seq<char>) -> Option<KindView> {
    let t = lowercase_of(text);
    if seq_contains(t, "any color"@) {
        Some(KindView::AnyColor)
    } else if seq_contains(t, "{t}: add {w}"@) || seq_contains(t, "add {w}"@) {
        Some(KindView::Fixed(ManaColor::White))
    } else if seq_contains(t, "{t}: add {u}"@) || seq_contains(t, "add {u}"@) {
        Some(KindView::Fixed(ManaColor::Blue))
    } else if seq_contains(t, "{t}: add {b}"@) || seq_contains(t, "add {b}"@) {
        Some(KindView::Fixed(ManaColor::Black))
    } else if seq_contains(t, "{t}: add {r}"@) || seq_contains(t, "add {r}"@) {
        Some(KindView::Fixed(ManaColor::Red))
    } else if seq_contains(t, "{t}: add {g}"@) || seq_contains(t, "add {g}"@) {
        Some(KindView::Fixed(ManaColor::Green))
    } else if seq_contains(t, "{t}: add {c}"@) || seq_contains(t, "add {c}"@) {
        Some(KindView::Colorless)
    } else {
        None
    }
}

/// A production with no activation cost whose kind has the given view.
pub open spec fn free_production_is(p: ManaProduction, k: KindView) -> bool {
    p.kind@ == k && p.activation_cost is None
}

/// The production described by a kind, if any.
pub open spec fn production_matches(r: Option<ManaProduction>, k: Option<KindView>) -> bool {
    match k {
        Some(kv) => r is Some && free_production_is(r->0, kv),
        None => r is None,
    }
}

/// The mana a creature produces according to its oracle text.
pub fn get_creature_mana_production(card: &Card) -> (r: Option<ManaProduction>)
    ensures
        production_matches(r, creature_kind(card.text@)),
{
    let lower = to_lowercase(card.text.as_str());
    let t = lower.as_str();
    if str_contains(t, "any color") {
        return Some(ManaProduction::free(ManaProductionKind::AnyColor));
    }
    if str_contains(t, "{t}: add {w}") || str_contains(t, "add {w}") {
        return Some(ManaProduction::free(ManaProductionKind::Fixed(ManaColor::White)));
    }
    if str_contains(t, "{t}: add {u}") || str_contains(t, "add {u}") {
        return Some(ManaProduction::free(ManaProductionKind::Fixed(ManaColor::Blue)));
    }
    if str_contains(t, "{t}: add {b}") || str_contains(t, "add {b}") {
        return Some(ManaProduction::free(ManaProductionKind::Fixed(ManaColor::Black)));
    }
    if str_contains(t, "{t}: add {r}") || str_contains(t, "add {r}") {
        return Some(ManaProduction::free(ManaProductionKind::Fixed(ManaColor::Red)));
    }
    if str_contains(t, "{t}: add {g}") || str_contains(t, "add {g}") {
        return Some(ManaProduction::free(ManaProductionKind::Fixed(ManaColor::Green)));
    }
    if str_contains(t, "{t}: add {c}") || str_contains(t, "add {c}") {
        return Some(ManaProduction::free(ManaProductionKind::Colorless));
    }
    None
}

/// The color of a basic land subtype.
pub open spec fn basic_type_color(sub: Seq<char>) -> Option<ManaColor> {
    if sub == "Plains"@ {
        Some(ManaColor::White)
    } else if sub == "Island"@ {
        Some(ManaColor::Blue)
    } else if sub == "Swamp"@ {
        Some(ManaColor::Black)
    } else if sub == "Mountain"@ {
        Some(ManaColor::Red)
    } else if sub == "Forest"@ {
        Some(ManaColor::Green)
    } else {
        None
    }
}

/// The colors of the basic land subtypes in a list, in order.
pub open spec fn basic_colors(subs: Seq<String>) -> Seq<ManaColor>
    decreases subs.len(),
{
    if subs.len() == 0 {
        Seq::empty()
    } else {
        let prev = basic_colors(subs.drop_last());
        match basic_type_color(subs.last()@) {
            Some(c) => prev.push(c),
            None => prev,
        }
    }
}

/// What a non-basic land produces: a choice between exactly two basic land
/// types, or any color when its lowercased text says so.
pub open spec fn complex_kind(card: Card) -> Option<KindView> {
    if !has_type(card, CardType::Land) {
        None
    } else if basic_colors(card.subtypes@).len() == 2 {
        Some(KindView::Choice(basic_colors(card.subtypes@)))
    } else if seq_contains(lowercase_of(card.text@), "any color"@) {
        Some(KindView::AnyColor)
    } else {
        None
    }
}

fn basic_type_color_exec(sub: &String) -> (r: Option<ManaColor>)
    ensures
        r == basic_type_color(sub@),
{
    let s = sub.as_str();
    if str_eq(s, "Plains") {
        Some(ManaColor::White)
    } else if str_eq(s, "Island") {
        Some(ManaColor::Blue)
    } else if str_eq(s, "Swamp") {
        Some(ManaColor::Black)
    } else if str_eq(s, "Mountain") {
        Some(ManaColor::Red)
    } else if str_eq(s, "Forest") {
        Some(ManaColor::Green)
    } else {
        None
    }
}

/// The mana a non-basic land produces.
pub fn get_complex_mana_production(card: &Card) -> (r: Option<ManaProduction>)
    ensures
        production_matches(r, complex_kind(*card)),
{
    if !card.is_land() {
        return None;
    }
    let mut colors: Vec<ManaColor> = Vec::new();
    let mut i: usize = 0;
    proof {
        assert(card.subtypes@.take(0) =~= Seq::<String>::empty());
    }
    while i < card.subtypes.len()
        invariant
            i <= card.subtypes.len(),
            colors@ == basic_colors(card.subtypes@.take(i as int)),
        decreases card.subtypes.len() - i,
    {
        proof {
            assert(card.subtypes@.take(i + 1).drop_last() =~= card.subtypes@.take(i as int));
        }
        match basic_type_color_exec(&card.subtypes[i]) {
            Some(c) => colors.push(c),
            None => {},
        }
        i = i + 1;
    }
    proof {
        assert(card.subtypes@.take(card.subtypes@.len() as int) =~= card.subtypes@);
    }
    if colors.len() == 2 {
        return Some(ManaProduction::free(ManaProductionKind::Choice(colors)));
    }
    let lower = to_lowercase(card.text.as_str());
    if str_contains(lower.as_str(), "any color") {
        return Some(ManaProduction::free(ManaProductionKind::AnyColor));
    }
    None
}

/// What a land produces: a basic land by its name (Wastes colorless mana, the
/// others their color), any other land as [`complex_kind`] says.
pub open spec fn land_kind(card: Card) -> Option<KindView> {
    if !has_type(card, CardType::Land) {
        None
    } else if card.name@ == "Wastes"@ {
        Some(KindView::Colorless)
    } else {
        match basic_type_color(card.name@) {
            Some(c) => Some(KindView::Fixed(c)),
            None => complex_kind(card),
        }
    }
}

/// The mana a land produces, basic or not; `None` for a card that is not a
/// land or a land whose mana is not understood.
pub fn get_mana_production(card: &Card) -> (r: Option<ManaProduction>)
    ensures
        production_matches(r, land_kind(*card)),
{
    if !card.is_land() {
        return None;
    }
    if str_eq(card.name.as_str(), "Wastes") {
        return Some(ManaProduction::free(ManaProductionKind::Colorless));
    }
    match basic_type_color_exec(&card.name) {
        Some(c) => Some(ManaProduction::free(ManaProductionKind::Fixed(c))),
        None => get_complex_mana_production(card),
    }
}

// ---------------------------------------------------------------------------
// The engine
// ---------------------------------------------------------------------------

/// A mana source as a mathematical value.
pub struct SourceView {
    pub card_id: CardId,
    pub kind: KindView,
    pub activation_cost: Option<ManaCost>,
    pub is_tapped: bool,
    pub has_summoning_sickness: bool,
}

/// The view of a mana source.
pub open spec fn source_view(s: ManaSource) -> SourceView {
    SourceView {
        card_id: s.card_id,
        kind: s.production.kind@,
        activation_cost: s.production.activation_cost,
        is_tapped: s.is_tapped,
        has_summoning_sickness: s.has_summoning_sickness,
    }
}

/// The kind of mana a basic land letter stands for.
pub open spec fn letter_kind(ch: char) -> KindView {
    if ch == 'W' {
        KindView::Fixed(ManaColor::White)
    } else if ch == 'U' {
        KindView::Fixed(ManaColor::Blue)
    } else if ch == 'B' {
        KindView::Fixed(ManaColor::Black)
    } else if ch == 'R' {
        KindView::Fixed(ManaColor::Red)
    } else if ch == 'G' {
        KindView::Fixed(ManaColor::Green)
    } else {
        KindView::Colorless
    }
}

/// A creature that entered the battlefield this turn without haste.
pub open spec fn summoning_sick(card: Card, turn: u32) -> bool {
    has_type(card, CardType::Creature) && card.turn_entered_battlefield == Some(turn) && !has_keyword_kind(
        card,
        KeywordKind::Haste,
    )
}

/// How the engine records a permanent: as a source (with whether it is
/// simple), or not at all. Only lands and mana creatures owned by the player
/// count; basic lands are simple, creatures use their oracle text, other lands
/// their subtypes or text.
pub open spec fn entry(card: Card, player: PlayerId, turn: u32) -> Option<(SourceView, bool)> {
    if !(card.owner == player && (has_type(card, CardType::Land) || spec_has_mana_ability(card))) {
        None
    } else {
        let mk = |k: KindView| SourceView {
            card_id: card.id,
            kind: k,
            activation_cost: None,
            is_tapped: card.tapped,
            has_summoning_sickness: summoning_sick(card, turn),
        };
        match simple_color_of(card.name@) {
            Some(ch) => Some((mk(letter_kind(ch)), true)),
            None => {
                let k = if has_type(card, CardType::Creature) {
                    creature_kind(card.text@)
                } else {
                    complex_kind(card)
                };
                match k {
                    Some(kv) => Some((mk(kv), false)),
                    None => None,
                }
            },
        }
    }
}

/// The engine's cached lists after scanning a sequence of permanents.
pub struct ScanView {
    pub simple: Seq<CardId>,
    pub complex: Seq<CardId>,
    pub sources: Seq<SourceView>,
}

/// Scans permanents in order, recording each that `entry` accepts.
pub open spec fn scan(cards: Seq<Card>, player: PlayerId, turn: u32) -> ScanView
    decreases cards.len(),
{
    if cards.len() == 0 {
        ScanView { simple: Seq::empty(), complex: Seq::empty(), sources: Seq::empty() }
    } else {
        let prev = scan(cards.drop_last(), player, turn);
        match entry(cards.last(), player, turn) {
            Some((sv, true)) => ScanView { simple: prev.simple.push(sv.card_id), complex: prev.complex, sources: prev.sources.push(sv) },
            Some((sv, false)) => ScanView { simple: prev.simple, complex: prev.complex.push(sv.card_id), sources: prev.sources.push(sv) },
            None => prev,
        }
    }
}

/// Number of untapped simple sources producing the given kind.
pub open spec fn capacity_count(cards: Seq<Card>, player: PlayerId, turn: u32, k: KindView) -> nat
    decreases cards.len(),
{
    if cards.len() == 0 {
        0
    } else {
        capacity_count(cards.drop_last(), player, turn, k) + match entry(cards.last(), player, turn) {
            Some((sv, true)) => if !sv.is_tapped && sv.kind == k { 1nat } else { 0nat },
            _ => 0nat,
        }
    }
}

/// The capacity counters never exceed a byte.
pub open spec fn capacity_fits(cards: Seq<Card>, player: PlayerId, turn: u32) -> bool {
    &&& capacity_count(cards, player, turn, KindView::Fixed(ManaColor::White)) <= 255
    &&& capacity_count(cards, player, turn, KindView::Fixed(ManaColor::Blue)) <= 255
    &&& capacity_count(cards, player, turn, KindView::Fixed(ManaColor::Black)) <= 255
    &&& capacity_count(cards, player, turn, KindView::Fixed(ManaColor::Red)) <= 255
    &&& capacity_count(cards, player, turn, KindView::Fixed(ManaColor::Green)) <= 255
    &&& capacity_count(cards, player, turn, KindView::Colorless) <= 255
}

/// The capacity that a scan produces.
pub open spec fn capacity_of(cards: Seq<Card>, player: PlayerId, turn: u32) -> ManaCapacity {
    ManaCapacity {
        white: capacity_count(cards, player, turn, KindView::Fixed(ManaColor::White)) as u8,
        blue: capacity_count(cards, player, turn, KindView::Fixed(ManaColor::Blue)) as u8,
        black: capacity_count(cards, player, turn, KindView::Fixed(ManaColor::Black)) as u8,
        red: capacity_count(cards, player, turn, KindView::Fixed(ManaColor::Red)) as u8,
        green: capacity_count(cards, player, turn, KindView::Fixed(ManaColor::Green)) as u8,
        colorless: capacity_count(cards, player, turn, KindView::Colorless) as u8,
    }
}

/// Per-player mana engine.
pub struct ManaEngine {
    player_id: PlayerId,
    simple_sources: Vec<CardId>,
    complex_sources: Vec<CardId>,
    simple_capacity: ManaCapacity,
    mana_sources: Vec<ManaSource>,
    /// Whether complex sources were found, so that payments use the greedy resolver.
    use_greedy: bool,
}

/// The engine as a mathematical value.
pub struct EngineView {
    pub player_id: PlayerId,
    pub simple_sources: Seq<CardId>,
    pub complex_sources: Seq<CardId>,
    pub simple_capacity: ManaCapacity,
    pub mana_sources: Seq<ManaSource>,
    pub use_greedy: bool,
}

impl View for ManaEngine {
    type V = EngineView;

    closed spec fn view(&self) -> EngineView {
        EngineView {
            player_id: self.player_id,
            simple_sources: self.simple_sources@,
            complex_sources: self.complex_sources@,
            simple_capacity: self.simple_capacity,
            mana_sources: self.mana_sources@,
            use_greedy: self.use_greedy,
        }
    }
}

/// The engine's state after scanning `cards` for `player` on turn `turn`.
pub open spec fn scanned(e: EngineView, player: PlayerId, cards: Seq<Card>, turn: u32) -> bool {
    let sv = scan(cards, player, turn);
    &&& e.player_id == player
    &&& e.simple_sources == sv.simple
    &&& e.complex_sources == sv.complex
    &&& e.mana_sources.map_values(|s: ManaSource| source_view(s)) == sv.sources
    &&& e.simple_capacity == capacity_of(cards, player, turn)
    &&& e.use_greedy == (sv.complex.len() > 0)
}

/// What the engine answers for a cost: the greedy resolver's answer when it
/// holds complex sources, the simple resolver's otherwise.
pub open spec fn engine_payment(e: EngineView, cost: ManaCost) -> PaymentView {
    if e.use_greedy {
        greedy_payment(cost, e.mana_sources)
    } else {
        simple_payment(cost, e.mana_sources)
    }
}

/// The resolver the engine uses accepts the cost and its sources.
pub open spec fn engine_accepts(e: EngineView, cost: ManaCost) -> bool {
    if e.use_greedy {
        greedy_accepts(cost, e.mana_sources)
    } else {
        simple_accepts(e.mana_sources)
    }
}

/// Records a permanent as a mana source, if it is one, following `entry`.
fn card_entry(card: &Card, player: PlayerId, turn: u32) -> (r: Option<(ManaSource, bool)>)
    ensures
        match entry(*card, player, turn) {
            Some((sv, simple)) => match r {
                Some((src, b)) => source_view(src) == sv && b == simple,
                None => false,
            },
            None => r is None,
        },
{
    let is_source = card.is_land() || has_mana_ability(card);
    if !(card.owner == player && is_source) {
        return None;
    }
    let sick = if card.is_creature() {
        match card.turn_entered_battlefield {
            Some(entered) => entered == turn && !card.has_keyword_kind(KeywordKind::Haste),
            None => false,
        }
    } else {
        false
    };
    match get_simple_mana_color(card.name.as_str()) {
        Some(ch) => {
            let kind = if ch == 'W' {
                ManaProductionKind::Fixed(ManaColor::White)
            } else if ch == 'U' {
                ManaProductionKind::Fixed(ManaColor::Blue)
            } else if ch == 'B' {
                ManaProductionKind::Fixed(ManaColor::Black)
            } else if ch == 'R' {
                ManaProductionKind::Fixed(ManaColor::Red)
            } else if ch == 'G' {
                ManaProductionKind::Fixed(ManaColor::Green)
            } else {
                ManaProductionKind::Colorless
            };
            Some(
                (
                    ManaSource {
                        card_id: card.id,
                        production: ManaProduction::free(kind),
                        is_tapped: card.tapped,
                        has_summoning_sickness: sick,
                    },
                    true,
                ),
            )
        },
        None => {
            let production = if card.is_creature() {
                get_creature_mana_production(card)
            } else {
                get_complex_mana_production(card)
            };
            match production {
                Some(p) => Some(
                    (
                        ManaSource {
                            card_id: card.id,
                            production: p,
                            is_tapped: card.tapped,
                            has_summoning_sickness: sick,
                        },
                        false,
                    ),
                ),
                None => None,
            }
        },
    }
}

proof fn lemma_capacity_prefix(cards: Seq<Card>, player: PlayerId, turn: u32, k: KindView, i: int)
    requires
        0 <= i <= cards.len(),
    ensures
        capacity_count(cards.take(i), player, turn, k) <= capacity_count(cards, player, turn, k),
    decreases cards.len() - i,
{
    if i < cards.len() {
        assert(cards.take(i + 1).drop_last() =~= cards.take(i));
        lemma_capacity_prefix(cards, player, turn, k, i + 1);
    } else {
        assert(cards.take(i) =~= cards);
    }
}

impl ManaEngine {
    /// A new engine for a player, with no sources.
    pub fn new(player_id: PlayerId) -> (r: Self)
        ensures
            r@.player_id == player_id,
            r@.simple_sources.len() == 0,
            r@.complex_sources.len() == 0,
            r@.mana_sources.len() == 0,
            r@.simple_capacity.sum() == 0,
            !r@.use_greedy,
    {
        ManaEngine {
            player_id,
            simple_sources: Vec::new(),
            complex_sources: Vec::new(),
            simple_capacity: ManaCapacity::new(),
            mana_sources: Vec::new(),
            use_greedy: false,
        }
    }

    /// Rescans the permanents on the battlefield (in order) on turn `turn_number`.
    pub fn update(&mut self, battlefield: &[Card], turn_number: u32)
        requires
            capacity_fits(battlefield@, old(self)@.player_id, turn_number),
        ensures
            scanned(final(self)@, old(self)@.player_id, battlefield@, turn_number),
    {
        let player = self.player_id;
        let ghost cards = battlefield@;
        let mut simple_sources: Vec<CardId> = Vec::new();
        let mut complex_sources: Vec<CardId> = Vec::new();
        let mut mana_sources: Vec<ManaSource> = Vec::new();
        let mut cap = ManaCapacity::new();
        let mut i: usize = 0;
        proof {
            assert(cards.take(0) =~= Seq::<Card>::empty());
            assert(mana_sources@.map_values(|s: ManaSource| source_view(s)) =~= Seq::<SourceView>::empty());
        }
        while i < battlefield.len()
            invariant
                cards == battlefield@,
                i <= battlefield.len(),
                capacity_fits(cards, player, turn_number),
                simple_sources@ == scan(cards.take(i as int), player, turn_number).simple,
                complex_sources@ == scan(cards.take(i as int), player, turn_number).complex,
                mana_sources@.map_values(|s: ManaSource| source_view(s)) == scan(cards.take(i as int), player, turn_number).sources,
                cap == capacity_of(cards.take(i as int), player, turn_number),
                capacity_count(cards.take(i as int), player, turn_number, KindView::Fixed(ManaColor::White)) <= 255,
                capacity_count(cards.take(i as int), player, turn_number, KindView::Fixed(ManaColor::Blue)) <= 255,
                capacity_count(cards.take(i as int), player, turn_number, KindView::Fixed(ManaColor::Black)) <= 255,
                capacity_count(cards.take(i as int), player, turn_number, KindView::Fixed(ManaColor::Red)) <= 255,
                capacity_count(cards.take(i as int), player, turn_number, KindView::Fixed(ManaColor::Green)) <= 255,
                capacity_count(cards.take(i as int), player, turn_number, KindView::Colorless) <= 255,
            decreases battlefield.len() - i,
        {
            proof {
                assert(cards.take(i + 1).drop_last() =~= cards.take(i as int));
                lemma_capacity_prefix(cards, player, turn_number, KindView::Fixed(ManaColor::White), i + 1);
                lemma_capacity_prefix(cards, player, turn_number, KindView::Fixed(ManaColor::Blue), i + 1);
                lemma_capacity_prefix(cards, player, turn_number, KindView::Fixed(ManaColor::Black), i + 1);
                lemma_capacity_prefix(cards, player, turn_number, KindView::Fixed(ManaColor::Red), i + 1);
                lemma_capacity_prefix(cards, player, turn_number, KindView::Fixed(ManaColor::Green), i + 1);
                lemma_capacity_prefix(cards, player, turn_number, KindView::Colorless, i + 1);
            }
            let card = &battlefield[i];
            match card_entry(card, player, turn_number) {
                Some((source, simple)) => {
                    let ghost before = mana_sources@;
                    let id = source.card_id;
                    if simple {
                        simple_sources.push(id);
                        if !source.is_tapped {
                            match &source.production.kind {
                                ManaProductionKind::Fixed(c) => match c {
                                    ManaColor::White => cap.white = cap.white + 1,
                                    ManaColor::Blue => cap.blue = cap.blue + 1,
                                    ManaColor::Black => cap.black = cap.black + 1,
                                    ManaColor::Red => cap.red = cap.red + 1,
                                    ManaColor::Green => cap.green = cap.green + 1,
                                },
                                ManaProductionKind::Colorless => cap.colorless = cap.colorless + 1,
                                _ => {},
                            }
                        }
                    } else {
                        complex_sources.push(id);
                    }
                    mana_sources.push(source);
                    proof {
                        assert(mana_sources@.map_values(|s: ManaSource| source_view(s)) =~= before.map_values(
                            |s: ManaSource| source_view(s),
                        ).push(source_view(mana_sources@.last())));
                    }
                },
                None => {},
            }
            i = i + 1;
        }
        proof {
            assert(cards.take(cards.len() as int) =~= cards);
        }
        self.simple_sources = simple_sources;
        self.complex_sources = complex_sources;
        self.simple_capacity = cap;
        self.mana_sources = mana_sources;
        self.use_greedy = self.complex_sources.len() > 0;
    }

    /// Whether the player can pay a cost with the cached sources.
    pub fn can_pay(&self, cost: &ManaCost) -> (r: bool)
        requires
            engine_accepts(self@, *cost),
        ensures
            r == engine_payment(self@, *cost) is Yes,
    {
        if self.use_greedy {
            let resolver = GreedyManaResolver::new();
            resolver.can_pay(cost, self.mana_sources.as_slice())
        } else {
            let resolver = SimpleManaResolver::new();
            resolver.can_pay(cost, self.mana_sources.as_slice())
        }
    }

    /// The capacity of the simple sources.
    pub fn simple_capacity(&self) -> (r: ManaCapacity)
        ensures
            r == self@.simple_capacity,
    {
        self.simple_capacity
    }

    /// The simple sources, in battlefield order.
    pub fn simple_sources(&self) -> (r: &[CardId])
        ensures
            r@ == self@.simple_sources,
    {
        self.simple_sources.as_slice()
    }

    /// The complex sources, in battlefield order.
    pub fn complex_sources(&self) -> (r: &[CardId])
        ensures
            r@ == self@.complex_sources,
    {
        self.complex_sources.as_slice()
    }

    /// All recorded mana sources, in battlefield order.
    pub fn mana_sources(&self) -> (r: &[ManaSource])
        ensures
            r@ == self@.mana_sources,
    {
        self.mana_sources.as_slice()
    }
}

} // verus!

verus! {

/// An update fixes the engine from the player, the cards and the turn alone:
/// two engines updated from the same battlefield agree on every source list,
/// the capacity, the resolver chosen and every source's view, whatever they
/// held before; so updating twice is updating once.
pub proof fn law_update_forgets_the_past(e1: EngineView, e2: EngineView, player: PlayerId, cards: Seq<Card>, turn: u32)
    requires
        scanned(e1, player, cards, turn),
        scanned(e2, player, cards, turn),
    ensures
        e1.player_id == e2.player_id,
        e1.simple_sources == e2.simple_sources,
        e1.complex_sources == e2.complex_sources,
        e1.simple_capacity == e2.simple_capacity,
        e1.use_greedy == e2.use_greedy,
        e1.mana_sources.map_values(|s: ManaSource| source_view(s)) == e2.mana_sources.map_values(
            |s: ManaSource| source_view(s),
        ),
{
}

} // verus!
