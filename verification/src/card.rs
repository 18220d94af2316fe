//! Cards as the rules engine sees them: types, keywords, abilities and state.

use vstd::prelude::*;
use crate::ids::{CardId, PlayerId};
use crate::mana::ManaCost;

verus! {

/// A card type.
#[derive(Debug, Clone, Copy, PartialEq, Eq, Structural)]
pub enum CardType {
    Creature,
    Instant,
    Sorcery,
    Enchantment,
    Artifact,
    Land,
    Planeswalker,
}

/// A card color.
#[derive(Debug, Clone, Copy, PartialEq, Eq, Structural)]
pub enum Color {
    White,
    Blue,
    Black,
    Red,
    Green,
    Colorless,
}

/// A keyword ability.
#[derive(Debug, Clone, PartialEq, Eq)]
pub enum Keyword {
    Flying,
    FirstStrike,
    DoubleStrike,
    Deathtouch,
    Haste,
    Hexproof,
    Indestructible,
    Lifelink,
    Menace,
    Reach,
    Trample,
    Vigilance,
    Defender,
    Shroud,
    ChooseABackground,
    ProtectionFromRed,
    ProtectionFromBlue,
    ProtectionFromBlack,
    ProtectionFromWhite,
    ProtectionFromGreen,
    Madness(String),
    Flashback(String),
    Enchant(String),
    /// Any keyword the engine does not model, with its raw text.
    Other(String),
}

/// What an effect is aimed at.
#[derive(Debug, Clone, Copy, PartialEq, Eq, Structural)]
pub enum TargetRef {
    NoTarget,
    Player(PlayerId),
    Permanent(CardId),
}

/// A game effect produced by a spell or ability.
#[derive(Debug, Clone, PartialEq, Eq)]
pub enum Effect {
    DealDamage { target: TargetRef, amount: i32 },
    DrawCards { player: PlayerId, count: u8 },
    DestroyPermanent { target: CardId },
    GainLife { player: PlayerId, amount: i32 },
    PumpCreature { target: CardId, power_bonus: i32, toughness_bonus: i32 },
    TapPermanent { target: CardId },
    UntapPermanent { target: CardId },
    Mill { player: PlayerId, count: u8 },
    AddMana { player: PlayerId, mana: ManaCost },
    CounterSpell { target: CardId },
}

/// One part of an activation cost (a cost without nested composites).
#[derive(Debug, Clone, PartialEq, Eq)]
pub enum CostPart {
    Tap,
    Mana(ManaCost),
    TapAndMana(ManaCost),
    Sacrifice { target: CardId },
    SacrificePattern { pattern: String },
}

/// The cost of activating an ability.
#[derive(Debug, Clone, PartialEq, Eq)]
pub enum Cost {
    Tap,
    Mana(ManaCost),
    TapAndMana(ManaCost),
    Sacrifice { target: CardId },
    SacrificePattern { pattern: String },
    Composite(Vec<CostPart>),
}

/// An activated ability of a permanent.
#[derive(Debug, Clone, PartialEq, Eq)]
pub struct ActivatedAbility {
    pub cost: Cost,
    pub effects: Vec<Effect>,
    pub description: String,
    pub is_mana_ability: bool,
}

impl ActivatedAbility {
    pub fn new(cost: Cost, effects: Vec<Effect>, description: String, is_mana_ability: bool) -> (r: Self)
        ensures
            r.cost == cost,
            r.effects == effects,
            r.description == description,
            r.is_mana_ability == is_mana_ability,
    {
        ActivatedAbility { cost, effects, description, is_mana_ability }
    }
}

/// The game event a triggered ability waits for.
#[derive(Debug, Clone, Copy, PartialEq, Eq, Structural)]
pub enum TriggerEvent {
    EntersBattlefield,
}

/// A triggered ability.
#[derive(Debug, Clone, PartialEq, Eq)]
pub struct Trigger {
    pub event: TriggerEvent,
    pub effects: Vec<Effect>,
    pub description: String,
}

impl Trigger {
    pub fn new(event: TriggerEvent, effects: Vec<Effect>, description: String) -> (r: Self)
        ensures
            r.event == event,
            r.effects == effects,
            r.description == description,
    {
        Trigger { event, effects, description }
    }
}

/// A card instance in a game.
#[derive(Debug, Clone)]
pub struct Card {
    pub id: CardId,
    pub name: String,
    pub owner: PlayerId,
    pub controller: PlayerId,
    pub mana_cost: ManaCost,
    pub types: Vec<CardType>,
    pub subtypes: Vec<String>,
    pub colors: Vec<Color>,
    pub power: Option<i8>,
    pub toughness: Option<i8>,
    /// Oracle text.
    pub text: String,
    pub keywords: Vec<Keyword>,
    pub tapped: bool,
    /// The turn on which the card entered the battlefield, if it is there.
    pub turn_entered_battlefield: Option<u32>,
    pub activated_abilities: Vec<ActivatedAbility>,
    pub effects: Vec<Effect>,
    pub triggers: Vec<Trigger>,
}

/// The card has the given type.
pub open spec fn has_type(c: Card, t: CardType) -> bool {
    c.types@.contains(t)
}

/// The card has a keyword satisfying a predicate.
pub open spec fn has_kw(c: Card, p: spec_fn(Keyword) -> bool) -> bool {
    exists|i: int| 0 <= i < c.keywords@.len() && p(#[trigger] c.keywords@[i])
}

/// Keyword predicates, one per simple keyword that the evaluators ask about.
pub open spec fn kw_is(k: Keyword, which: KeywordKind) -> bool {
    match which {
        KeywordKind::Flying => k is Flying,
        KeywordKind::FirstStrike => k is FirstStrike,
        KeywordKind::DoubleStrike => k is DoubleStrike,
        KeywordKind::Deathtouch => k is Deathtouch,
        KeywordKind::Haste => k is Haste,
        KeywordKind::Hexproof => k is Hexproof,
        KeywordKind::Indestructible => k is Indestructible,
        KeywordKind::Lifelink => k is Lifelink,
        KeywordKind::Menace => k is Menace,
        KeywordKind::Reach => k is Reach,
        KeywordKind::Trample => k is Trample,
        KeywordKind::Vigilance => k is Vigilance,
        KeywordKind::Defender => k is Defender,
        KeywordKind::Shroud => k is Shroud,
    }
}

/// The simple keywords the engine queries.
#[derive(Debug, Clone, Copy, PartialEq, Eq, Structural)]
pub enum KeywordKind {
    Flying,
    FirstStrike,
    DoubleStrike,
    Deathtouch,
    Haste,
    Hexproof,
    Indestructible,
    Lifelink,
    Menace,
    Reach,
    Trample,
    Vigilance,
    Defender,
    Shroud,
}

/// The card has the given simple keyword.
pub open spec fn has_keyword_kind(c: Card, which: KeywordKind) -> bool {
    exists|i: int| 0 <= i < c.keywords@.len() && kw_is(#[trigger] c.keywords@[i], which)
}

fn keyword_matches(k: &Keyword, which: KeywordKind) -> (r: bool)
    ensures
        r == kw_is(*k, which),
{
    match which {
        KeywordKind::Flying => matches!(k, Keyword::Flying),
        KeywordKind::FirstStrike => matches!(k, Keyword::FirstStrike),
        KeywordKind::DoubleStrike => matches!(k, Keyword::DoubleStrike),
        KeywordKind::Deathtouch => matches!(k, Keyword::Deathtouch),
        KeywordKind::Haste => matches!(k, Keyword::Haste),
        KeywordKind::Hexproof => matches!(k, Keyword::Hexproof),
        KeywordKind::Indestructible => matches!(k, Keyword::Indestructible),
        KeywordKind::Lifelink => matches!(k, Keyword::Lifelink),
        KeywordKind::Menace => matches!(k, Keyword::Menace),
        KeywordKind::Reach => matches!(k, Keyword::Reach),
        KeywordKind::Trample => matches!(k, Keyword::Trample),
        KeywordKind::Vigilance => matches!(k, Keyword::Vigilance),
        KeywordKind::Defender => matches!(k, Keyword::Defender),
        KeywordKind::Shroud => matches!(k, Keyword::Shroud),
    }
}

/// Whether a list of types contains a type.
pub fn types_contain(v: &Vec<CardType>, t: CardType) -> (r: bool)
    ensures
        r == v@.contains(t),
{
    let mut i: usize = 0;
    while i < v.len()
        invariant
            i <= v.len(),
            forall|j: int| 0 <= j < i ==> v@[j] != t,
        decreases v.len() - i,
    {
        if v[i] == t {
            return true;
        }
        i = i + 1;
    }
    false
}

impl Card {
    /// A new card with no types, abilities or text, untapped and off the battlefield.
    pub fn new(id: CardId, name: String, owner: PlayerId) -> (r: Self)
        ensures
            r.id == id,
            r.name == name,
            r.owner == owner,
            r.controller == owner,
            r.mana_cost.total() == 0,
            r.types@.len() == 0,
            r.subtypes@.len() == 0,
            r.colors@.len() == 0,
            r.power is None,
            r.toughness is None,
            r.text@.len() == 0,
            r.keywords@.len() == 0,
            !r.tapped,
            r.turn_entered_battlefield is None,
            r.activated_abilities@.len() == 0,
            r.effects@.len() == 0,
            r.triggers@.len() == 0,
    {
        Card {
            id,
            name,
            owner,
            controller: owner,
            mana_cost: ManaCost::new(),
            types: Vec::new(),
            subtypes: Vec::new(),
            colors: Vec::new(),
            power: None,
            toughness: None,
            text: String::new(),
            keywords: Vec::new(),
            tapped: false,
            turn_entered_battlefield: None,
            activated_abilities: Vec::new(),
            effects: Vec::new(),
            triggers: Vec::new(),
        }
    }

    pub fn is_land(&self) -> (r: bool)
        ensures
            r == has_type(*self, CardType::Land),
    {
        types_contain(&self.types, CardType::Land)
    }

    pub fn is_creature(&self) -> (r: bool)
        ensures
            r == has_type(*self, CardType::Creature),
    {
        types_contain(&self.types, CardType::Creature)
    }

    pub fn is_instant(&self) -> (r: bool)
        ensures
            r == has_type(*self, CardType::Instant),
    {
        types_contain(&self.types, CardType::Instant)
    }

    pub fn is_enchantment(&self) -> (r: bool)
        ensures
            r == has_type(*self, CardType::Enchantment),
    {
        types_contain(&self.types, CardType::Enchantment)
    }

    /// Whether the card has one of the simple keywords.
    pub fn has_keyword_kind(&self, which: KeywordKind) -> (r: bool)
        ensures
            r == has_keyword_kind(*self, which),
    {
        let mut i: usize = 0;
        while i < self.keywords.len()
            invariant
                i <= self.keywords.len(),
                forall|j: int| 0 <= j < i ==> !kw_is(#[trigger] self.keywords@[j], which),
            decreases self.keywords.len() - i,
        {
            if keyword_matches(&self.keywords[i], which) {
                return true;
            }
            i = i + 1;
        }
        false
    }

    pub fn has_flying(&self) -> (r: bool)
        ensures
            r == has_keyword_kind(*self, KeywordKind::Flying),
    {
        self.has_keyword_kind(KeywordKind::Flying)
    }

    pub fn has_first_strike(&self) -> (r: bool)
        ensures
            r == has_keyword_kind(*self, KeywordKind::FirstStrike),
    {
        self.has_keyword_kind(KeywordKind::FirstStrike)
    }

    pub fn has_double_strike(&self) -> (r: bool)
        ensures
            r == has_keyword_kind(*self, KeywordKind::DoubleStrike),
    {
        self.has_keyword_kind(KeywordKind::DoubleStrike)
    }

    pub fn has_deathtouch(&self) -> (r: bool)
        ensures
            r == has_keyword_kind(*self, KeywordKind::Deathtouch),
    {
        self.has_keyword_kind(KeywordKind::Deathtouch)
    }

    pub fn has_lifelink(&self) -> (r: bool)
        ensures
            r == has_keyword_kind(*self, KeywordKind::Lifelink),
    {
        self.has_keyword_kind(KeywordKind::Lifelink)
    }

    pub fn has_menace(&self) -> (r: bool)
        ensures
            r == has_keyword_kind(*self, KeywordKind::Menace),
    {
        self.has_keyword_kind(KeywordKind::Menace)
    }

    pub fn has_reach(&self) -> (r: bool)
        ensures
            r == has_keyword_kind(*self, KeywordKind::Reach),
    {
        self.has_keyword_kind(KeywordKind::Reach)
    }

    pub fn has_trample(&self) -> (r: bool)
        ensures
            r == has_keyword_kind(*self, KeywordKind::Trample),
    {
        self.has_keyword_kind(KeywordKind::Trample)
    }

    pub fn has_indestructible(&self) -> (r: bool)
        ensures
            r == has_keyword_kind(*self, KeywordKind::Indestructible),
    {
        self.has_keyword_kind(KeywordKind::Indestructible)
    }

    pub fn has_hexproof(&self) -> (r: bool)
        ensures
            r == has_keyword_kind(*self, KeywordKind::Hexproof),
    {
        self.has_keyword_kind(KeywordKind::Hexproof)
    }

    pub fn has_shroud(&self) -> (r: bool)
        ensures
            r == has_keyword_kind(*self, KeywordKind::Shroud),
    {
        self.has_keyword_kind(KeywordKind::Shroud)
    }

    pub fn has_defender(&self) -> (r: bool)
        ensures
            r == has_keyword_kind(*self, KeywordKind::Defender),
    {
        self.has_keyword_kind(KeywordKind::Defender)
    }
}

} // verus!

verus! {

/// Something a player may do when holding priority.
#[derive(Debug, Clone, Copy, PartialEq, Eq, Structural)]
pub enum SpellAbility {
    PlayLand { card_id: CardId },
    CastSpell { card_id: CardId },
    ActivateAbility { card_id: CardId, ability_index: usize },
}

} // verus!

verus! {

/// Whether a spell can only be cast with a spell on the stack to target: one
/// of its effects counters a spell and still holds the placeholder target 0.
pub open spec fn needs_stack_target(card: Card) -> bool {
    exists|i: int|
        0 <= i < card.effects@.len() && (#[trigger] card.effects@[i] matches Effect::CounterSpell { target }
            && target.value == 0)
}

/// Whether a spell needs a spell on the stack to target.
pub fn spell_requires_stack_target(card: &Card) -> (r: bool)
    ensures
        r == needs_stack_target(*card),
{
    let mut i: usize = 0;
    while i < card.effects.len()
        invariant
            i <= card.effects.len(),
            forall|j: int|
                0 <= j < i ==> !(#[trigger] card.effects@[j] matches Effect::CounterSpell { target } && target.value
                    == 0),
        decreases card.effects.len() - i,
    {
        match &card.effects[i] {
            Effect::CounterSpell { target } => {
                if target.value == 0 {
                    return true;
                }
            },
            _ => {},
        }
        i = i + 1;
    }
    false
}

} // verus!
