//! Card definitions in Forge's `cardsfolder` text format, and the cards made
//! from them.

use vstd::prelude::*;
use crate::card::{Card, CardType, Color, Effect, Keyword, TargetRef, Trigger, TriggerEvent};
use crate::error::MtgError;
use crate::ids::{CardId, PlayerId, EntityId};
use crate::mana::{ManaCost, cost_of_chars};
use crate::text::{
    chars_of, split_any, split_any_in, find_any, find_any_in, trimmed, trim_range, substring,
    parse_signed, parse_signed_in, parse_unsigned, parse_unsigned_in, words, words_in, str_eq, concat3,
    seq_contains, contains_seq, field_token, field_token_in, strip_all_plus, strip_one_plus, skip_all_plus,
    after_first, after_first_in, occurs_at, matches_at,
};

verus! {

/// Reads card definitions.
pub struct CardLoader;

/// A card definition, not yet a card in a game.
#[derive(Debug, Clone)]
pub struct CardDefinition {
    pub name: String,
    pub mana_cost: ManaCost,
    pub types: Vec<CardType>,
    pub subtypes: Vec<String>,
    pub colors: Vec<Color>,
    pub power: Option<i8>,
    pub toughness: Option<i8>,
    pub oracle: String,
    /// The ability lines (`A:`, `S:`, `T:`), each with its key.
    pub raw_abilities: Vec<String>,
    /// The values of the keyword lines (`K:`).
    pub raw_keywords: Vec<String>,
}

/// What a card file says, field by field.
pub struct CardText {
    pub name: Option<Seq<char>>,
    pub mana_cost: ManaCost,
    pub types: Seq<CardType>,
    pub subtypes: Seq<Seq<char>>,
    pub colors: Seq<Color>,
    pub power: Option<i8>,
    pub toughness: Option<i8>,
    pub oracle: Seq<char>,
    pub raw_abilities: Seq<Seq<char>>,
    pub raw_keywords: Seq<Seq<char>>,
}

/// The contents of a list of strings.
pub open spec fn strings_view(v: Seq<String>) -> Seq<Seq<char>> {
    v.map_values(|s: String| s@)
}

impl View for CardDefinition {
    type V = CardText;

    open spec fn view(&self) -> CardText {
        CardText {
            name: Some(self.name@),
            mana_cost: self.mana_cost,
            types: self.types@,
            subtypes: strings_view(self.subtypes@),
            colors: self.colors@,
            power: self.power,
            toughness: self.toughness,
            oracle: self.oracle@,
            raw_abilities: strings_view(self.raw_abilities@),
            raw_keywords: strings_view(self.raw_keywords@),
        }
    }
}

/// The card type a word of a `Types:` line names, if it names one.
pub open spec fn type_word(w: Seq<char>) -> Option<CardType> {
    if w == "Creature"@ {
        Some(CardType::Creature)
    } else if w == "Instant"@ {
        Some(CardType::Instant)
    } else if w == "Sorcery"@ {
        Some(CardType::Sorcery)
    } else if w == "Enchantment"@ {
        Some(CardType::Enchantment)
    } else if w == "Artifact"@ {
        Some(CardType::Artifact)
    } else if w == "Land"@ {
        Some(CardType::Land)
    } else if w == "Planeswalker"@ {
        Some(CardType::Planeswalker)
    } else {
        None
    }
}

/// The words of a `Types:` line split into card types and subtypes, in order.
pub open spec fn classify(ws: Seq<Seq<char>>) -> (Seq<CardType>, Seq<Seq<char>>)
    decreases ws.len(),
{
    if ws.len() == 0 {
        (Seq::empty(), Seq::empty())
    } else {
        let prev = classify(ws.drop_last());
        match type_word(ws.last()) {
            Some(t) => (prev.0.push(t), prev.1),
            None => (prev.0, prev.1.push(ws.last())),
        }
    }
}

/// A field as `str::parse::<i8>` reads it.
pub open spec fn parse_i8(s: Seq<char>) -> Option<i8> {
    match parse_signed(s, -128, 127) {
        Some(n) => Some(n as i8),
        None => None,
    }
}

/// What one `KEY:VALUE` line changes, key and value trimmed.
pub open spec fn card_field(st: CardText, key: Seq<char>, value: Seq<char>) -> CardText {
    if key == "Name"@ {
        CardText { name: Some(value), ..st }
    } else if key == "ManaCost"@ {
        CardText { mana_cost: cost_of_chars(value), ..st }
    } else if key == "Types"@ {
        let c = classify(words(value));
        CardText { types: st.types + c.0, subtypes: st.subtypes + c.1, ..st }
    } else if key == "PT"@ {
        match find_any(value, seq!['/']) {
            Some(j) => CardText {
                power: parse_i8(trimmed(value.take(j))),
                toughness: parse_i8(trimmed(value.skip(j + 1))),
                ..st
            },
            None => st,
        }
    } else if key == "Oracle"@ {
        CardText { oracle: value, ..st }
    } else if key == "K"@ {
        CardText { raw_keywords: st.raw_keywords.push(value), ..st }
    } else if key == "A"@ || key == "S"@ || key == "T"@ {
        CardText { raw_abilities: st.raw_abilities.push(key + ":"@ + value), ..st }
    } else {
        st
    }
}

/// What one line of a card file changes: empty lines, `#` comments and lines
/// without a colon change nothing.
pub open spec fn card_line_step(st: CardText, line: Seq<char>) -> CardText {
    let t = trimmed(line);
    if t.len() == 0 || t[0] == '#' {
        st
    } else {
        match find_any(t, seq![':']) {
            Some(i) => card_field(st, trimmed(t.take(i)), trimmed(t.skip(i + 1))),
            None => st,
        }
    }
}

/// Nothing read yet.
pub open spec fn empty_card_text() -> CardText {
    CardText {
        name: None,
        mana_cost: ManaCost {
            generic: 0,
            white: 0,
            blue: 0,
            black: 0,
            red: 0,
            green: 0,
            colorless: 0,
            x_count: 0,
        },
        types: Seq::empty(),
        subtypes: Seq::empty(),
        colors: Seq::empty(),
        power: None,
        toughness: None,
        oracle: Seq::empty(),
        raw_abilities: Seq::empty(),
        raw_keywords: Seq::empty(),
    }
}

/// The fields after reading some lines.
pub open spec fn card_scan(lines: Seq<Seq<char>>) -> CardText
    decreases lines.len(),
{
    if lines.len() == 0 {
        empty_card_text()
    } else {
        card_line_step(card_scan(lines.drop_last()), lines.last())
    }
}

/// The colors of a card, from its mana cost: each color with a symbol in
/// the cost, in the order white, blue, black, red, green; colorless when none.
pub open spec fn colors_of(m: ManaCost) -> Seq<Color> {
    let c = (if m.white > 0 { seq![Color::White] } else { Seq::empty() }) + (if m.blue > 0 {
        seq![Color::Blue]
    } else {
        Seq::empty()
    }) + (if m.black > 0 { seq![Color::Black] } else { Seq::empty() }) + (if m.red > 0 {
        seq![Color::Red]
    } else {
        Seq::empty()
    }) + (if m.green > 0 { seq![Color::Green] } else { Seq::empty() });
    if c.len() == 0 {
        seq![Color::Colorless]
    } else {
        c
    }
}

/// What a card file says, with the colors derived from the cost.
pub open spec fn card_read(content: Seq<char>) -> CardText {
    let st = card_scan(split_any(content, seq!['\n']));
    CardText { colors: colors_of(st.mana_cost), ..st }
}

} // verus!

verus! {

/// The fields read so far.
struct CardDraft {
    name: Option<String>,
    mana_cost: ManaCost,
    types: Vec<CardType>,
    subtypes: Vec<String>,
    power: Option<i8>,
    toughness: Option<i8>,
    oracle: String,
    raw_abilities: Vec<String>,
    raw_keywords: Vec<String>,
}

impl View for CardDraft {
    type V = CardText;

    closed spec fn view(&self) -> CardText {
        CardText {
            name: match self.name {
                Some(n) => Some(n@),
                None => None,
            },
            mana_cost: self.mana_cost,
            types: self.types@,
            subtypes: strings_view(self.subtypes@),
            colors: Seq::empty(),
            power: self.power,
            toughness: self.toughness,
            oracle: self.oracle@,
            raw_abilities: strings_view(self.raw_abilities@),
            raw_keywords: strings_view(self.raw_keywords@),
        }
    }
}

fn type_of_word(w: &str) -> (r: Option<CardType>)
    ensures
        r == type_word(w@),
{
    if str_eq(w, "Creature") {
        Some(CardType::Creature)
    } else if str_eq(w, "Instant") {
        Some(CardType::Instant)
    } else if str_eq(w, "Sorcery") {
        Some(CardType::Sorcery)
    } else if str_eq(w, "Enchantment") {
        Some(CardType::Enchantment)
    } else if str_eq(w, "Artifact") {
        Some(CardType::Artifact)
    } else if str_eq(w, "Land") {
        Some(CardType::Land)
    } else if str_eq(w, "Planeswalker") {
        Some(CardType::Planeswalker)
    } else {
        None
    }
}

impl CardDraft {
    fn new() -> (r: Self)
        ensures
            r@ == empty_card_text(),
    {
        let r = CardDraft {
            name: None,
            mana_cost: ManaCost::new(),
            types: Vec::new(),
            subtypes: Vec::new(),
            power: None,
            toughness: None,
            oracle: String::new(),
            raw_abilities: Vec::new(),
            raw_keywords: Vec::new(),
        };
        proof {
            assert(strings_view(r.subtypes@) =~= Seq::empty());
            assert(strings_view(r.raw_abilities@) =~= Seq::empty());
            assert(strings_view(r.raw_keywords@) =~= Seq::empty());
        }
        r
    }

    /// Adds the words of a `Types:` value `v[a..b]` of `line`.
    fn add_types(&mut self, line: &str, v: &Vec<char>, a: usize, b: usize)
        requires
            v@ == line@,
            a <= b <= v.len(),
        ensures
            final(self)@ == ({
                let c = classify(words(v@.subrange(a as int, b as int)));
                CardText { types: old(self)@.types + c.0, subtypes: old(self)@.subtypes + c.1, ..old(self)@ }
            }),
    {
        let ghost ws = words(v@.subrange(a as int, b as int));
        let ghost start = self@;
        let bounds = words_in(v, a, b);
        let mut k: usize = 0;
        proof {
            assert(ws.take(0) =~= Seq::<Seq<char>>::empty());
            assert(start.types + classify(ws.take(0)).0 =~= start.types);
            assert(start.subtypes + classify(ws.take(0)).1 =~= start.subtypes);
        }
        while k < bounds.len()
            invariant
                v@ == line@,
                k <= bounds.len(),
                bounds.len() == ws.len(),
                forall|j: int|
                    0 <= j < bounds.len() ==> (#[trigger] bounds@[j]).0 <= bounds@[j].1 <= v.len() && v@.subrange(
                        bounds@[j].0 as int,
                        bounds@[j].1 as int,
                    ) == ws[j],
                self@ == (CardText {
                    types: start.types + classify(ws.take(k as int)).0,
                    subtypes: start.subtypes + classify(ws.take(k as int)).1,
                    ..start
                }),
            decreases bounds.len() - k,
        {
            let (wa, wb) = bounds[k];
            let word = substring(line, v, wa, wb);
            proof {
                assert(ws.take(k + 1).drop_last() =~= ws.take(k as int));
                assert(ws.take(k + 1).last() == ws[k as int]);
            }
            match type_of_word(word.as_str()) {
                Some(t) => {
                    self.types.push(t);
                    proof {
                        assert(self.types@ =~= start.types + classify(ws.take(k + 1)).0);
                        assert(self@.types == start.types + classify(ws.take(k + 1)).0);
                    }
                },
                None => {
                    let ghost prev = strings_view(self.subtypes@);
                    let ghost w = word@;
                    proof {
                        assert(prev == start.subtypes + classify(ws.take(k as int)).1);
                        assert(classify(ws.take(k + 1)).1 == classify(ws.take(k as int)).1.push(w));
                    }
                    self.subtypes.push(word);
                    proof {
                        assert(strings_view(self.subtypes@) =~= prev.push(w));
                        assert(strings_view(self.subtypes@) =~= start.subtypes + classify(ws.take(k + 1)).1);
                    }
                },
            }
            k = k + 1;
        }
        proof {
            assert(ws.take(ws.len() as int) =~= ws);
        }
    }

    /// Reads one line of a card file.
    fn read_line(&mut self, line: &str)
        ensures
            final(self)@ == card_line_step(old(self)@, line@),
    {
        let v = chars_of(line);
        let (ta, tb) = trim_range(&v, 0, v.len());
        let ghost t = v@.subrange(ta as int, tb as int);
        proof {
            assert(v@.subrange(0, v@.len() as int) =~= v@);
        }
        if ta == tb || v[ta] == '#' {
            return;
        }
        let colon: Vec<char> = vec![':'];
        proof {
            assert(colon@ =~= seq![':']);
        }
        let i = match find_any_in(&v, ta, tb, &colon) {
            Some(i) => i,
            None => return,
        };
        let (ka, kb) = trim_range(&v, ta, i);
        let (va, vb) = trim_range(&v, i + 1, tb);
        proof {
            assert(t.take(i - ta) =~= v@.subrange(ta as int, i as int));
            assert(t.skip(i - ta + 1) =~= v@.subrange(i + 1, tb as int));
        }
        let key = substring(line, &v, ka, kb);
        let value = substring(line, &v, va, vb);
        let ghost before = self@;
        if str_eq(key.as_str(), "Name") {
            self.name = Some(value);
        } else if str_eq(key.as_str(), "ManaCost") {
            self.mana_cost = ManaCost::from_string(value.as_str());
        } else if str_eq(key.as_str(), "Types") {
            self.add_types(line, &v, va, vb);
        } else if str_eq(key.as_str(), "PT") {
            let slash: Vec<char> = vec!['/'];
            proof {
                assert(slash@ =~= seq!['/']);
            }
            match find_any_in(&v, va, vb, &slash) {
                Some(j) => {
                    let ghost val = v@.subrange(va as int, vb as int);
                    proof {
                        assert(val.take(j - va) =~= v@.subrange(va as int, j as int));
                        assert(val.skip(j - va + 1) =~= v@.subrange(j + 1, vb as int));
                    }
                    let (pa, pb) = trim_range(&v, va, j);
                    let (qa, qb) = trim_range(&v, j + 1, vb);
                    self.power = match parse_signed_in(&v, pa, pb, -128, 127) {
                        Some(n) => Some(n as i8),
                        None => None,
                    };
                    self.toughness = match parse_signed_in(&v, qa, qb, -128, 127) {
                        Some(n) => Some(n as i8),
                        None => None,
                    };
                },
                None => {},
            }
        } else if str_eq(key.as_str(), "Oracle") {
            self.oracle = value;
        } else if str_eq(key.as_str(), "K") {
            self.raw_keywords.push(value);
            proof {
                assert(strings_view(self.raw_keywords@) =~= before.raw_keywords.push(value@));
            }
        } else if str_eq(key.as_str(), "A") || str_eq(key.as_str(), "S") || str_eq(key.as_str(), "T") {
            let entry = concat3(key.as_str(), ":", value.as_str());
            self.raw_abilities.push(entry);
            proof {
                assert(strings_view(self.raw_abilities@) =~= before.raw_abilities.push(entry@));
            }
        }
    }
}

/// The colors of a cost, as a list.
fn colors_of_cost(m: &ManaCost) -> (r: Vec<Color>)
    ensures
        r@ == colors_of(*m),
{
    let mut colors: Vec<Color> = Vec::new();
    if m.white > 0 {
        colors.push(Color::White);
    }
    if m.blue > 0 {
        colors.push(Color::Blue);
    }
    if m.black > 0 {
        colors.push(Color::Black);
    }
    if m.red > 0 {
        colors.push(Color::Red);
    }
    if m.green > 0 {
        colors.push(Color::Green);
    }
    if colors.len() == 0 {
        colors.push(Color::Colorless);
    }
    proof {
        assert(colors@ =~= colors_of(*m));
    }
    colors
}

impl CardLoader {
    /// Parses the text of a card file. Each line is trimmed; empty lines and
    /// `#` comments are skipped, and other lines are read as `KEY:VALUE` with
    /// key and value trimmed: `Name`, `ManaCost`, `Types` (card types and
    /// subtypes), `PT` (power/toughness), `Oracle`, `K` (a keyword) and `A`,
    /// `S`, `T` (abilities, kept with their key). A file without a name is
    /// refused.
    pub fn parse(content: &str) -> (r: Result<CardDefinition, MtgError>)
        ensures
            match r {
                Ok(d) => card_read(content@).name is Some && d@ == card_read(content@),
                Err(MtgError::InvalidCardFormat(m)) => card_read(content@).name is None && m@
                    == "Missing card name"@,
                Err(_) => false,
            },
    {
        let v = chars_of(content);
        let newline: Vec<char> = vec!['\n'];
        let lines = split_any_in(&v, 0, v.len(), &newline);
        let ghost pieces = split_any(content@, seq!['\n']);
        proof {
            assert(v@.subrange(0, v@.len() as int) =~= v@);
            assert(newline@ =~= seq!['\n']);
            assert(pieces.take(0) =~= Seq::<Seq<char>>::empty());
        }
        let mut draft = CardDraft::new();
        let mut i: usize = 0;
        while i < lines.len()
            invariant
                i <= lines.len(),
                v@ == content@,
                pieces == split_any(content@, seq!['\n']),
                lines.len() == pieces.len(),
                forall|k: int|
                    0 <= k < lines.len() ==> (#[trigger] lines@[k]).0 <= lines@[k].1 <= v.len() && v@.subrange(
                        lines@[k].0 as int,
                        lines@[k].1 as int,
                    ) == pieces[k],
                draft@ == card_scan(pieces.take(i as int)),
            decreases lines.len() - i,
        {
            let (a, b) = lines[i];
            let line = substring(content, &v, a, b);
            proof {
                assert(pieces.take(i + 1).drop_last() =~= pieces.take(i as int));
                assert(pieces.take(i + 1).last() == pieces[i as int]);
            }
            draft.read_line(line.as_str());
            i = i + 1;
        }
        proof {
            assert(pieces.take(pieces.len() as int) =~= pieces);
        }
        let colors = colors_of_cost(&draft.mana_cost);
        let CardDraft {
            name,
            mana_cost,
            types,
            subtypes,
            power,
            toughness,
            oracle,
            raw_abilities,
            raw_keywords,
        } = draft;
        match name {
            Some(name) => Ok(
                CardDefinition {
                    name,
                    mana_cost,
                    types,
                    subtypes,
                    colors,
                    power,
                    toughness,
                    oracle,
                    raw_abilities,
                    raw_keywords,
                },
            ),
            None => Err(MtgError::InvalidCardFormat("Missing card name".to_owned())),
        }
    }
}

} // verus!

verus! {

/// The keyword a `K:` line without a parameter names, if the engine models it.
pub open spec fn simple_keyword(kw: Seq<char>) -> Option<Keyword> {
    if kw == "Flying"@ {
        Some(Keyword::Flying)
    } else if kw == "First Strike"@ {
        Some(Keyword::FirstStrike)
    } else if kw == "Double Strike"@ {
        Some(Keyword::DoubleStrike)
    } else if kw == "Deathtouch"@ {
        Some(Keyword::Deathtouch)
    } else if kw == "Haste"@ {
        Some(Keyword::Haste)
    } else if kw == "Hexproof"@ {
        Some(Keyword::Hexproof)
    } else if kw == "Indestructible"@ {
        Some(Keyword::Indestructible)
    } else if kw == "Lifelink"@ {
        Some(Keyword::Lifelink)
    } else if kw == "Menace"@ {
        Some(Keyword::Menace)
    } else if kw == "Reach"@ {
        Some(Keyword::Reach)
    } else if kw == "Trample"@ {
        Some(Keyword::Trample)
    } else if kw == "Vigilance"@ {
        Some(Keyword::Vigilance)
    } else if kw == "Defender"@ {
        Some(Keyword::Defender)
    } else if kw == "Shroud"@ {
        Some(Keyword::Shroud)
    } else if kw == "Choose a Background"@ {
        Some(Keyword::ChooseABackground)
    } else if kw == "Protection from red"@ {
        Some(Keyword::ProtectionFromRed)
    } else if kw == "Protection from blue"@ {
        Some(Keyword::ProtectionFromBlue)
    } else if kw == "Protection from black"@ {
        Some(Keyword::ProtectionFromBlack)
    } else if kw == "Protection from white"@ {
        Some(Keyword::ProtectionFromWhite)
    } else if kw == "Protection from green"@ {
        Some(Keyword::ProtectionFromGreen)
    } else {
        None
    }
}

/// The printed name of a keyword that takes no parameter; `None` for the
/// keywords that carry text.
pub open spec fn keyword_name(k: Keyword) -> Option<Seq<char>> {
    match k {
        Keyword::Flying => Some("Flying"@),
        Keyword::FirstStrike => Some("First Strike"@),
        Keyword::DoubleStrike => Some("Double Strike"@),
        Keyword::Deathtouch => Some("Deathtouch"@),
        Keyword::Haste => Some("Haste"@),
        Keyword::Hexproof => Some("Hexproof"@),
        Keyword::Indestructible => Some("Indestructible"@),
        Keyword::Lifelink => Some("Lifelink"@),
        Keyword::Menace => Some("Menace"@),
        Keyword::Reach => Some("Reach"@),
        Keyword::Trample => Some("Trample"@),
        Keyword::Vigilance => Some("Vigilance"@),
        Keyword::Defender => Some("Defender"@),
        Keyword::Shroud => Some("Shroud"@),
        Keyword::ChooseABackground => Some("Choose a Background"@),
        Keyword::ProtectionFromRed => Some("Protection from red"@),
        Keyword::ProtectionFromBlue => Some("Protection from blue"@),
        Keyword::ProtectionFromBlack => Some("Protection from black"@),
        Keyword::ProtectionFromWhite => Some("Protection from white"@),
        Keyword::ProtectionFromGreen => Some("Protection from green"@),
        _ => None,
    }
}

/// A `K:` value that is the printed name of a keyword without a parameter
/// reads back as that keyword: the simple-keyword table is the inverse of the
/// keywords' printed names.
pub proof fn law_keyword_name_reads_back(k: Keyword)
    requires
        keyword_name(k) is Some,
    ensures
        simple_keyword(keyword_name(k)->0) == Some(k),
{
    match k {
        Keyword::Flying => {
            reveal_strlit("Flying");
        },
        Keyword::FirstStrike => {
            reveal_strlit("First Strike");
            reveal_strlit("Flying");
            assert("First Strike"@.len() != "Flying"@.len());
        },
        Keyword::DoubleStrike => {
            reveal_strlit("Double Strike");
            reveal_strlit("Flying");
            assert("Double Strike"@.len() != "Flying"@.len());
            reveal_strlit("First Strike");
            assert("Double Strike"@.len() != "First Strike"@.len());
        },
        Keyword::Deathtouch => {
            reveal_strlit("Deathtouch");
            reveal_strlit("Flying");
            assert("Deathtouch"@.len() != "Flying"@.len());
            reveal_strlit("First Strike");
            assert("Deathtouch"@.len() != "First Strike"@.len());
            reveal_strlit("Double Strike");
            assert("Deathtouch"@.len() != "Double Strike"@.len());
        },
        Keyword::Haste => {
            reveal_strlit("Haste");
            reveal_strlit("Flying");
            assert("Haste"@.len() != "Flying"@.len());
            reveal_strlit("First Strike");
            assert("Haste"@.len() != "First Strike"@.len());
            reveal_strlit("Double Strike");
            assert("Haste"@.len() != "Double Strike"@.len());
            reveal_strlit("Deathtouch");
            assert("Haste"@.len() != "Deathtouch"@.len());
        },
        Keyword::Hexproof => {
            reveal_strlit("Hexproof");
            reveal_strlit("Flying");
            assert("Hexproof"@.len() != "Flying"@.len());
            reveal_strlit("First Strike");
            assert("Hexproof"@.len() != "First Strike"@.len());
            reveal_strlit("Double Strike");
            assert("Hexproof"@.len() != "Double Strike"@.len());
            reveal_strlit("Deathtouch");
            assert("Hexproof"@.len() != "Deathtouch"@.len());
            reveal_strlit("Haste");
            assert("Hexproof"@.len() != "Haste"@.len());
        },
        Keyword::Indestructible => {
            reveal_strlit("Indestructible");
            reveal_strlit("Flying");
            assert("Indestructible"@.len() != "Flying"@.len());
            reveal_strlit("First Strike");
            assert("Indestructible"@.len() != "First Strike"@.len());
            reveal_strlit("Double Strike");
            assert("Indestructible"@.len() != "Double Strike"@.len());
            reveal_strlit("Deathtouch");
            assert("Indestructible"@.len() != "Deathtouch"@.len());
            reveal_strlit("Haste");
            assert("Indestructible"@.len() != "Haste"@.len());
            reveal_strlit("Hexproof");
            assert("Indestructible"@.len() != "Hexproof"@.len());
        },
        Keyword::Lifelink => {
            reveal_strlit("Lifelink");
            reveal_strlit("Flying");
            assert("Lifelink"@.len() != "Flying"@.len());
            reveal_strlit("First Strike");
            assert("Lifelink"@.len() != "First Strike"@.len());
            reveal_strlit("Double Strike");
            assert("Lifelink"@.len() != "Double Strike"@.len());
            reveal_strlit("Deathtouch");
            assert("Lifelink"@.len() != "Deathtouch"@.len());
            reveal_strlit("Haste");
            assert("Lifelink"@.len() != "Haste"@.len());
            reveal_strlit("Hexproof");
            assert("Lifelink"@[0] != "Hexproof"@[0]);
            reveal_strlit("Indestructible");
            assert("Lifelink"@.len() != "Indestructible"@.len());
        },
        Keyword::Menace => {
            reveal_strlit("Menace");
            reveal_strlit("Flying");
            assert("Menace"@[0] != "Flying"@[0]);
            reveal_strlit("First Strike");
            assert("Menace"@.len() != "First Strike"@.len());
            reveal_strlit("Double Strike");
            assert("Menace"@.len() != "Double Strike"@.len());
            reveal_strlit("Deathtouch");
            assert("Menace"@.len() != "Deathtouch"@.len());
            reveal_strlit("Haste");
            assert("Menace"@.len() != "Haste"@.len());
            reveal_strlit("Hexproof");
            assert("Menace"@.len() != "Hexproof"@.len());
            reveal_strlit("Indestructible");
            assert("Menace"@.len() != "Indestructible"@.len());
            reveal_strlit("Lifelink");
            assert("Menace"@.len() != "Lifelink"@.len());
        },
        Keyword::Reach => {
            reveal_strlit("Reach");
            reveal_strlit("Flying");
            assert("Reach"@.len() != "Flying"@.len());
            reveal_strlit("First Strike");
            assert("Reach"@.len() != "First Strike"@.len());
            reveal_strlit("Double Strike");
            assert("Reach"@.len() != "Double Strike"@.len());
            reveal_strlit("Deathtouch");
            assert("Reach"@.len() != "Deathtouch"@.len());
            reveal_strlit("Haste");
            assert("Reach"@[0] != "Haste"@[0]);
            reveal_strlit("Hexproof");
            assert("Reach"@.len() != "Hexproof"@.len());
            reveal_strlit("Indestructible");
            assert("Reach"@.len() != "Indestructible"@.len());
            reveal_strlit("Lifelink");
            assert("Reach"@.len() != "Lifelink"@.len());
            reveal_strlit("Menace");
            assert("Reach"@.len() != "Menace"@.len());
        },
        Keyword::Trample => {
            reveal_strlit("Trample");
            reveal_strlit("Flying");
            assert("Trample"@.len() != "Flying"@.len());
            reveal_strlit("First Strike");
            assert("Trample"@.len() != "First Strike"@.len());
            reveal_strlit("Double Strike");
            assert("Trample"@.len() != "Double Strike"@.len());
            reveal_strlit("Deathtouch");
            assert("Trample"@.len() != "Deathtouch"@.len());
            reveal_strlit("Haste");
            assert("Trample"@.len() != "Haste"@.len());
            reveal_strlit("Hexproof");
            assert("Trample"@.len() != "Hexproof"@.len());
            reveal_strlit("Indestructible");
            assert("Trample"@.len() != "Indestructible"@.len());
            reveal_strlit("Lifelink");
            assert("Trample"@.len() != "Lifelink"@.len());
            reveal_strlit("Menace");
            assert("Trample"@.len() != "Menace"@.len());
            reveal_strlit("Reach");
            assert("Trample"@.len() != "Reach"@.len());
        },
        Keyword::Vigilance => {
            reveal_strlit("Vigilance");
            reveal_strlit("Flying");
            assert("Vigilance"@.len() != "Flying"@.len());
            reveal_strlit("First Strike");
            assert("Vigilance"@.len() != "First Strike"@.len());
            reveal_strlit("Double Strike");
            assert("Vigilance"@.len() != "Double Strike"@.len());
            reveal_strlit("Deathtouch");
            assert("Vigilance"@.len() != "Deathtouch"@.len());
            reveal_strlit("Haste");
            assert("Vigilance"@.len() != "Haste"@.len());
            reveal_strlit("Hexproof");
            assert("Vigilance"@.len() != "Hexproof"@.len());
            reveal_strlit("Indestructible");
            assert("Vigilance"@.len() != "Indestructible"@.len());
            reveal_strlit("Lifelink");
            assert("Vigilance"@.len() != "Lifelink"@.len());
            reveal_strlit("Menace");
            assert("Vigilance"@.len() != "Menace"@.len());
            reveal_strlit("Reach");
            assert("Vigilance"@.len() != "Reach"@.len());
            reveal_strlit("Trample");
            assert("Vigilance"@.len() != "Trample"@.len());
        },
        Keyword::Defender => {
            reveal_strlit("Defender");
            reveal_strlit("Flying");
            assert("Defender"@.len() != "Flying"@.len());
            reveal_strlit("First Strike");
            assert("Defender"@.len() != "First Strike"@.len());
            reveal_strlit("Double Strike");
            assert("Defender"@.len() != "Double Strike"@.len());
            reveal_strlit("Deathtouch");
            assert("Defender"@.len() != "Deathtouch"@.len());
            reveal_strlit("Haste");
            assert("Defender"@.len() != "Haste"@.len());
            reveal_strlit("Hexproof");
            assert("Defender"@[0] != "Hexproof"@[0]);
            reveal_strlit("Indestructible");
            assert("Defender"@.len() != "Indestructible"@.len());
            reveal_strlit("Lifelink");
            assert("Defender"@[0] != "Lifelink"@[0]);
            reveal_strlit("Menace");
            assert("Defender"@.len() != "Menace"@.len());
            reveal_strlit("Reach");
            assert("Defender"@.len() != "Reach"@.len());
            reveal_strlit("Trample");
            assert("Defender"@.len() != "Trample"@.len());
            reveal_strlit("Vigilance");
            assert("Defender"@.len() != "Vigilance"@.len());
        },
        Keyword::Shroud => {
            reveal_strlit("Shroud");
            reveal_strlit("Flying");
            assert("Shroud"@[0] != "Flying"@[0]);
            reveal_strlit("First Strike");
            assert("Shroud"@.len() != "First Strike"@.len());
            reveal_strlit("Double Strike");
            assert("Shroud"@.len() != "Double Strike"@.len());
            reveal_strlit("Deathtouch");
            assert("Shroud"@.len() != "Deathtouch"@.len());
            reveal_strlit("Haste");
            assert("Shroud"@.len() != "Haste"@.len());
            reveal_strlit("Hexproof");
            assert("Shroud"@.len() != "Hexproof"@.len());
            reveal_strlit("Indestructible");
            assert("Shroud"@.len() != "Indestructible"@.len());
            reveal_strlit("Lifelink");
            assert("Shroud"@.len() != "Lifelink"@.len());
            reveal_strlit("Menace");
            assert("Shroud"@[0] != "Menace"@[0]);
            reveal_strlit("Reach");
            assert("Shroud"@.len() != "Reach"@.len());
            reveal_strlit("Trample");
            assert("Shroud"@.len() != "Trample"@.len());
            reveal_strlit("Vigilance");
            assert("Shroud"@.len() != "Vigilance"@.len());
            reveal_strlit("Defender");
            assert("Shroud"@.len() != "Defender"@.len());
        },
        Keyword::ChooseABackground => {
            reveal_strlit("Choose a Background");
            reveal_strlit("Flying");
            assert("Choose a Background"@.len() != "Flying"@.len());
            reveal_strlit("First Strike");
            assert("Choose a Background"@.len() != "First Strike"@.len());
            reveal_strlit("Double Strike");
            assert("Choose a Background"@.len() != "Double Strike"@.len());
            reveal_strlit("Deathtouch");
            assert("Choose a Background"@.len() != "Deathtouch"@.len());
            reveal_strlit("Haste");
            assert("Choose a Background"@.len() != "Haste"@.len());
            reveal_strlit("Hexproof");
            assert("Choose a Background"@.len() != "Hexproof"@.len());
            reveal_strlit("Indestructible");
            assert("Choose a Background"@.len() != "Indestructible"@.len());
            reveal_strlit("Lifelink");
            assert("Choose a Background"@.len() != "Lifelink"@.len());
            reveal_strlit("Menace");
            assert("Choose a Background"@.len() != "Menace"@.len());
            reveal_strlit("Reach");
            assert("Choose a Background"@.len() != "Reach"@.len());
            reveal_strlit("Trample");
            assert("Choose a Background"@.len() != "Trample"@.len());
            reveal_strlit("Vigilance");
            assert("Choose a Background"@.len() != "Vigilance"@.len());
            reveal_strlit("Defender");
            assert("Choose a Background"@.len() != "Defender"@.len());
            reveal_strlit("Shroud");
            assert("Choose a Background"@.len() != "Shroud"@.len());
        },
        Keyword::ProtectionFromRed => {
            reveal_strlit("Protection from red");
            reveal_strlit("Flying");
            assert("Protection from red"@.len() != "Flying"@.len());
            reveal_strlit("First Strike");
            assert("Protection from red"@.len() != "First Strike"@.len());
            reveal_strlit("Double Strike");
            assert("Protection from red"@.len() != "Double Strike"@.len());
            reveal_strlit("Deathtouch");
            assert("Protection from red"@.len() != "Deathtouch"@.len());
            reveal_strlit("Haste");
            assert("Protection from red"@.len() != "Haste"@.len());
            reveal_strlit("Hexproof");
            assert("Protection from red"@.len() != "Hexproof"@.len());
            reveal_strlit("Indestructible");
            assert("Protection from red"@.len() != "Indestructible"@.len());
            reveal_strlit("Lifelink");
            assert("Protection from red"@.len() != "Lifelink"@.len());
            reveal_strlit("Menace");
            assert("Protection from red"@.len() != "Menace"@.len());
            reveal_strlit("Reach");
            assert("Protection from red"@.len() != "Reach"@.len());
            reveal_strlit("Trample");
            assert("Protection from red"@.len() != "Trample"@.len());
            reveal_strlit("Vigilance");
            assert("Protection from red"@.len() != "Vigilance"@.len());
            reveal_strlit("Defender");
            assert("Protection from red"@.len() != "Defender"@.len());
            reveal_strlit("Shroud");
            assert("Protection from red"@.len() != "Shroud"@.len());
            reveal_strlit("Choose a Background");
            assert("Protection from red"@[0] != "Choose a Background"@[0]);
        },
        Keyword::ProtectionFromBlue => {
            reveal_strlit("Protection from blue");
            reveal_strlit("Flying");
            assert("Protection from blue"@.len() != "Flying"@.len());
            reveal_strlit("First Strike");
            assert("Protection from blue"@.len() != "First Strike"@.len());
            reveal_strlit("Double Strike");
            assert("Protection from blue"@.len() != "Double Strike"@.len());
            reveal_strlit("Deathtouch");
            assert("Protection from blue"@.len() != "Deathtouch"@.len());
            reveal_strlit("Haste");
            assert("Protection from blue"@.len() != "Haste"@.len());
            reveal_strlit("Hexproof");
            assert("Protection from blue"@.len() != "Hexproof"@.len());
            reveal_strlit("Indestructible");
            assert("Protection from blue"@.len() != "Indestructible"@.len());
            reveal_strlit("Lifelink");
            assert("Protection from blue"@.len() != "Lifelink"@.len());
            reveal_strlit("Menace");
            assert("Protection from blue"@.len() != "Menace"@.len());
            reveal_strlit("Reach");
            assert("Protection from blue"@.len() != "Reach"@.len());
            reveal_strlit("Trample");
            assert("Protection from blue"@.len() != "Trample"@.len());
            reveal_strlit("Vigilance");
            assert("Protection from blue"@.len() != "Vigilance"@.len());
            reveal_strlit("Defender");
            assert("Protection from blue"@.len() != "Defender"@.len());
            reveal_strlit("Shroud");
            assert("Protection from blue"@.len() != "Shroud"@.len());
            reveal_strlit("Choose a Background");
            assert("Protection from blue"@.len() != "Choose a Background"@.len());
            reveal_strlit("Protection from red");
            assert("Protection from blue"@.len() != "Protection from red"@.len());
        },
        Keyword::ProtectionFromBlack => {
            reveal_strlit("Protection from black");
            reveal_strlit("Flying");
            assert("Protection from black"@.len() != "Flying"@.len());
            reveal_strlit("First Strike");
            assert("Protection from black"@.len() != "First Strike"@.len());
            reveal_strlit("Double Strike");
            assert("Protection from black"@.len() != "Double Strike"@.len());
            reveal_strlit("Deathtouch");
            assert("Protection from black"@.len() != "Deathtouch"@.len());
            reveal_strlit("Haste");
            assert("Protection from black"@.len() != "Haste"@.len());
            reveal_strlit("Hexproof");
            assert("Protection from black"@.len() != "Hexproof"@.len());
            reveal_strlit("Indestructible");
            assert("Protection from black"@.len() != "Indestructible"@.len());
            reveal_strlit("Lifelink");
            assert("Protection from black"@.len() != "Lifelink"@.len());
            reveal_strlit("Menace");
            assert("Protection from black"@.len() != "Menace"@.len());
            reveal_strlit("Reach");
            assert("Protection from black"@.len() != "Reach"@.len());
            reveal_strlit("Trample");
            assert("Protection from black"@.len() != "Trample"@.len());
            reveal_strlit("Vigilance");
            assert("Protection from black"@.len() != "Vigilance"@.len());
            reveal_strlit("Defender");
            assert("Protection from black"@.len() != "Defender"@.len());
            reveal_strlit("Shroud");
            assert("Protection from black"@.len() != "Shroud"@.len());
            reveal_strlit("Choose a Background");
            assert("Protection from black"@.len() != "Choose a Background"@.len());
            reveal_strlit("Protection from red");
            assert("Protection from black"@.len() != "Protection from red"@.len());
            reveal_strlit("Protection from blue");
            assert("Protection from black"@.len() != "Protection from blue"@.len());
        },
        Keyword::ProtectionFromWhite => {
            reveal_strlit("Protection from white");
            reveal_strlit("Flying");
            assert("Protection from white"@.len() != "Flying"@.len());
            reveal_strlit("First Strike");
            assert("Protection from white"@.len() != "First Strike"@.len());
            reveal_strlit("Double Strike");
            assert("Protection from white"@.len() != "Double Strike"@.len());
            reveal_strlit("Deathtouch");
            assert("Protection from white"@.len() != "Deathtouch"@.len());
            reveal_strlit("Haste");
            assert("Protection from white"@.len() != "Haste"@.len());
            reveal_strlit("Hexproof");
            assert("Protection from white"@.len() != "Hexproof"@.len());
            reveal_strlit("Indestructible");
            assert("Protection from white"@.len() != "Indestructible"@.len());
            reveal_strlit("Lifelink");
            assert("Protection from white"@.len() != "Lifelink"@.len());
            reveal_strlit("Menace");
            assert("Protection from white"@.len() != "Menace"@.len());
            reveal_strlit("Reach");
            assert("Protection from white"@.len() != "Reach"@.len());
            reveal_strlit("Trample");
            assert("Protection from white"@.len() != "Trample"@.len());
            reveal_strlit("Vigilance");
            assert("Protection from white"@.len() != "Vigilance"@.len());
            reveal_strlit("Defender");
            assert("Protection from white"@.len() != "Defender"@.len());
            reveal_strlit("Shroud");
            assert("Protection from white"@.len() != "Shroud"@.len());
            reveal_strlit("Choose a Background");
            assert("Protection from white"@.len() != "Choose a Background"@.len());
            reveal_strlit("Protection from red");
            assert("Protection from white"@.len() != "Protection from red"@.len());
            reveal_strlit("Protection from blue");
            assert("Protection from white"@.len() != "Protection from blue"@.len());
            reveal_strlit("Protection from black");
            assert("Protection from white"@[16] != "Protection from black"@[16]);
        },
        Keyword::ProtectionFromGreen => {
            reveal_strlit("Protection from green");
            reveal_strlit("Flying");
            assert("Protection from green"@.len() != "Flying"@.len());
            reveal_strlit("First Strike");
            assert("Protection from green"@.len() != "First Strike"@.len());
            reveal_strlit("Double Strike");
            assert("Protection from green"@.len() != "Double Strike"@.len());
            reveal_strlit("Deathtouch");
            assert("Protection from green"@.len() != "Deathtouch"@.len());
            reveal_strlit("Haste");
            assert("Protection from green"@.len() != "Haste"@.len());
            reveal_strlit("Hexproof");
            assert("Protection from green"@.len() != "Hexproof"@.len());
            reveal_strlit("Indestructible");
            assert("Protection from green"@.len() != "Indestructible"@.len());
            reveal_strlit("Lifelink");
            assert("Protection from green"@.len() != "Lifelink"@.len());
            reveal_strlit("Menace");
            assert("Protection from green"@.len() != "Menace"@.len());
            reveal_strlit("Reach");
            assert("Protection from green"@.len() != "Reach"@.len());
            reveal_strlit("Trample");
            assert("Protection from green"@.len() != "Trample"@.len());
            reveal_strlit("Vigilance");
            assert("Protection from green"@.len() != "Vigilance"@.len());
            reveal_strlit("Defender");
            assert("Protection from green"@.len() != "Defender"@.len());
            reveal_strlit("Shroud");
            assert("Protection from green"@.len() != "Shroud"@.len());
            reveal_strlit("Choose a Background");
            assert("Protection from green"@.len() != "Choose a Background"@.len());
            reveal_strlit("Protection from red");
            assert("Protection from green"@.len() != "Protection from red"@.len());
            reveal_strlit("Protection from blue");
            assert("Protection from green"@.len() != "Protection from blue"@.len());
            reveal_strlit("Protection from black");
            assert("Protection from green"@[16] != "Protection from black"@[16]);
            reveal_strlit("Protection from white");
            assert("Protection from green"@[16] != "Protection from white"@[16]);
        },
        _ => {},
    }
}

/// `k` is the keyword that the `K:` value `raw` reads as. A value with a colon
/// is `NAME:PARAM`: Madness, Flashback and Enchant keep the trimmed parameter.
/// A value without one is a simple keyword. Anything else is kept whole as
/// an unmodelled keyword.
pub open spec fn keyword_read(k: Keyword, raw: Seq<char>) -> bool {
    match find_any(raw, seq![':']) {
        Some(i) => {
            let kw = trimmed(raw.take(i));
            let param = trimmed(raw.skip(i + 1));
            if kw == "Madness"@ {
                k matches Keyword::Madness(p) && p@ == param
            } else if kw == "Flashback"@ {
                k matches Keyword::Flashback(p) && p@ == param
            } else if kw == "Enchant"@ {
                k matches Keyword::Enchant(p) && p@ == param
            } else {
                k matches Keyword::Other(o) && o@ == raw
            }
        },
        None => match simple_keyword(trimmed(raw)) {
            Some(s) => k == s,
            None => k matches Keyword::Other(o) && o@ == raw,
        },
    }
}

fn simple_keyword_of(kw: &str) -> (r: Option<Keyword>)
    ensures
        r == simple_keyword(kw@),
{
    if str_eq(kw, "Flying") {
        Some(Keyword::Flying)
    } else if str_eq(kw, "First Strike") {
        Some(Keyword::FirstStrike)
    } else if str_eq(kw, "Double Strike") {
        Some(Keyword::DoubleStrike)
    } else if str_eq(kw, "Deathtouch") {
        Some(Keyword::Deathtouch)
    } else if str_eq(kw, "Haste") {
        Some(Keyword::Haste)
    } else if str_eq(kw, "Hexproof") {
        Some(Keyword::Hexproof)
    } else if str_eq(kw, "Indestructible") {
        Some(Keyword::Indestructible)
    } else if str_eq(kw, "Lifelink") {
        Some(Keyword::Lifelink)
    } else if str_eq(kw, "Menace") {
        Some(Keyword::Menace)
    } else if str_eq(kw, "Reach") {
        Some(Keyword::Reach)
    } else if str_eq(kw, "Trample") {
        Some(Keyword::Trample)
    } else if str_eq(kw, "Vigilance") {
        Some(Keyword::Vigilance)
    } else if str_eq(kw, "Defender") {
        Some(Keyword::Defender)
    } else if str_eq(kw, "Shroud") {
        Some(Keyword::Shroud)
    } else if str_eq(kw, "Choose a Background") {
        Some(Keyword::ChooseABackground)
    } else if str_eq(kw, "Protection from red") {
        Some(Keyword::ProtectionFromRed)
    } else if str_eq(kw, "Protection from blue") {
        Some(Keyword::ProtectionFromBlue)
    } else if str_eq(kw, "Protection from black") {
        Some(Keyword::ProtectionFromBlack)
    } else if str_eq(kw, "Protection from white") {
        Some(Keyword::ProtectionFromWhite)
    } else if str_eq(kw, "Protection from green") {
        Some(Keyword::ProtectionFromGreen)
    } else {
        None
    }
}

fn keyword_of(raw: &String) -> (r: Keyword)
    ensures
        keyword_read(r, raw@),
{
    let text: &str = raw.as_str();
    let v = chars_of(text);
    let colon: Vec<char> = vec![':'];
    proof {
        assert(v@.subrange(0, v@.len() as int) =~= v@);
        assert(colon@ =~= seq![':']);
    }
    match find_any_in(&v, 0, v.len(), &colon) {
        Some(i) => {
            proof {
                assert(v@.take(i as int) =~= v@.subrange(0, i as int));
                assert(v@.skip(i + 1) =~= v@.subrange(i + 1, v@.len() as int));
            }
            let (ka, kb) = trim_range(&v, 0, i);
            let (pa, pb) = trim_range(&v, i + 1, v.len());
            let kw = substring(text, &v, ka, kb);
            let param = substring(text, &v, pa, pb);
            if str_eq(kw.as_str(), "Madness") {
                Keyword::Madness(param)
            } else if str_eq(kw.as_str(), "Flashback") {
                Keyword::Flashback(param)
            } else if str_eq(kw.as_str(), "Enchant") {
                Keyword::Enchant(param)
            } else {
                Keyword::Other(raw.clone())
            }
        },
        None => {
            let (ka, kb) = trim_range(&v, 0, v.len());
            let kw = substring(text, &v, ka, kb);
            match simple_keyword_of(kw.as_str()) {
                Some(k) => k,
                None => Keyword::Other(raw.clone()),
            }
        },
    }
}

impl CardDefinition {
    /// The keywords of the `K:` lines, one per line, in order.
    pub fn parse_keywords(&self) -> (r: Vec<Keyword>)
        ensures
            r.len() == self.raw_keywords.len(),
            forall|i: int| 0 <= i < r.len() ==> keyword_read(#[trigger] r@[i], self.raw_keywords@[i]@),
    {
        let mut keywords: Vec<Keyword> = Vec::new();
        let mut i: usize = 0;
        while i < self.raw_keywords.len()
            invariant
                i <= self.raw_keywords.len(),
                keywords.len() == i,
                forall|j: int| 0 <= j < i ==> keyword_read(#[trigger] keywords@[j], self.raw_keywords@[j]@),
            decreases self.raw_keywords.len() - i,
        {
            let k = keyword_of(&self.raw_keywords[i]);
            keywords.push(k);
            i = i + 1;
        }
        keywords
    }
}

} // verus!

verus! {

/// A number as `str::parse::<i32>` reads it.
pub open spec fn i32_of(s: Seq<char>) -> Option<i32> {
    match parse_signed(s, i32::MIN as int, i32::MAX as int) {
        Some(n) => Some(n as i32),
        None => None,
    }
}

/// A number as `str::parse::<u8>` reads it.
pub open spec fn u8_of(s: Seq<char>) -> Option<u8> {
    match parse_unsigned(s, 255) {
        Some(n) => Some(n as u8),
        None => None,
    }
}

/// The characters that end a field value in a spell ability.
pub open spec fn spell_delims() -> Seq<char> {
    seq!['|', ' ']
}

/// The characters that end a field value in a triggered ability.
pub open spec fn trigger_delims() -> Seq<char> {
    seq!['|', ' ', '\n']
}

/// The placeholder player of an effect, chosen when it resolves.
pub open spec fn no_player() -> PlayerId {
    EntityId { value: 0 }
}

/// One effect if `e` is some, none otherwise.
pub open spec fn one_if(e: Option<Effect>) -> Seq<Effect> {
    match e {
        Some(x) => seq![x],
        None => Seq::empty(),
    }
}

/// The `i32` value of a spell's field, if the field is there and parses.
pub open spec fn spell_i32(a: Seq<char>, field: Seq<char>) -> Option<i32> {
    match field_token(a, field, spell_delims()) {
        Some(t) => i32_of(t),
        None => None,
    }
}

/// The `u8` value of a spell's field, if the field is there and parses.
pub open spec fn spell_u8(a: Seq<char>, field: Seq<char>) -> Option<u8> {
    match field_token(a, field, spell_delims()) {
        Some(t) => u8_of(t),
        None => None,
    }
}

/// A pump bonus of a spell: the field's value without its leading `+` signs,
/// 0 when it is missing or does not parse.
pub open spec fn spell_bonus(a: Seq<char>, field: Seq<char>) -> i32 {
    match field_token(a, field, spell_delims()) {
        Some(t) => match i32_of(strip_all_plus(t)) {
            Some(n) => n,
            None => 0,
        },
        None => 0,
    }
}

/// The effects that one ability line yields, in this order: damage
/// (`DealDamage` with `NumDmg$`), draw (`SP$ Draw` with `NumCards$`), destroy
/// (`SP$ Destroy`), life gain (`GainLife` with `LifeAmount$`), pump (`SP$ Pump`
/// with a nonzero `NumAtt$` or `NumDef$`), tap (`SP$ Tap` but not `TapAll`),
/// untap (`SP$ Untap`) and mill (`SP$ Mill` with `NumCards$`). Targets and
/// players are placeholders, filled in when the spell is cast.
pub open spec fn ability_effects(a: Seq<char>) -> Seq<Effect> {
    let damage = if seq_contains(a, "DealDamage"@) {
        match spell_i32(a, "NumDmg$"@) {
            Some(n) => Some(Effect::DealDamage { target: TargetRef::NoTarget, amount: n }),
            None => None,
        }
    } else {
        None
    };
    let draw = if seq_contains(a, "SP$ Draw"@) {
        match spell_u8(a, "NumCards$"@) {
            Some(n) => Some(Effect::DrawCards { player: no_player(), count: n }),
            None => None,
        }
    } else {
        None
    };
    let destroy = if seq_contains(a, "SP$ Destroy"@) {
        Some(Effect::DestroyPermanent { target: no_player() })
    } else {
        None
    };
    let gain = if seq_contains(a, "GainLife"@) {
        match spell_i32(a, "LifeAmount$"@) {
            Some(n) => Some(Effect::GainLife { player: no_player(), amount: n }),
            None => None,
        }
    } else {
        None
    };
    let p = spell_bonus(a, "NumAtt$"@);
    let d = spell_bonus(a, "NumDef$"@);
    let pump = if seq_contains(a, "SP$ Pump"@) && (p != 0 || d != 0) {
        Some(Effect::PumpCreature { target: no_player(), power_bonus: p, toughness_bonus: d })
    } else {
        None
    };
    let tap = if seq_contains(a, "SP$ Tap"@) && !seq_contains(a, "TapAll"@) {
        Some(Effect::TapPermanent { target: no_player() })
    } else {
        None
    };
    let untap = if seq_contains(a, "SP$ Untap"@) {
        Some(Effect::UntapPermanent { target: no_player() })
    } else {
        None
    };
    let mill = if seq_contains(a, "SP$ Mill"@) {
        match spell_u8(a, "NumCards$"@) {
            Some(n) => Some(Effect::Mill { player: no_player(), count: n }),
            None => None,
        }
    } else {
        None
    };
    one_if(damage) + one_if(draw) + one_if(destroy) + one_if(gain) + one_if(pump) + one_if(tap)
        + one_if(untap) + one_if(mill)
}

/// The effects of all ability lines, in order.
pub open spec fn abilities_effects(abs: Seq<Seq<char>>) -> Seq<Effect>
    decreases abs.len(),
{
    if abs.len() == 0 {
        Seq::empty()
    } else {
        abilities_effects(abs.drop_last()) + ability_effects(abs.last())
    }
}

/// Whether the text contains the literal `pat`.
fn mentions(v: &Vec<char>, pat: &str) -> (r: bool)
    ensures
        r == seq_contains(v@, pat@),
{
    let p = chars_of(pat);
    contains_seq(v, &p)
}

/// The value token of field `pat` in `v`, as a number of type `i32`.
fn field_i32(v: &Vec<char>, pat: &str, delims: &Vec<char>, strip: u8) -> (r: Option<i32>)
    requires
        pat@.len() > 0,
        strip <= 2,
    ensures
        r == match field_token(v@, pat@, delims@) {
            Some(t) => i32_of(
                if strip == 0 {
                    t
                } else if strip == 1 {
                    strip_one_plus(t)
                } else {
                    strip_all_plus(t)
                },
            ),
            None => None,
        },
{
    let p = chars_of(pat);
    match field_token_in(v, &p, delims) {
        None => None,
        Some((a, b)) => {
            let ghost t = v@.subrange(a as int, b as int);
            let start = if strip == 0 {
                a
            } else if strip == 1 {
                if a < b && v[a] == '+' {
                    proof {
                        assert(t.drop_first() =~= v@.subrange(a + 1, b as int));
                    }
                    a + 1
                } else {
                    a
                }
            } else {
                skip_all_plus(v, a, b)
            };
            match parse_signed_in(v, start, b, i32::MIN as i64, i32::MAX as i64) {
                Some(n) => Some(n as i32),
                None => None,
            }
        },
    }
}

/// The value token of field `pat` in `v`, as a number of type `u8`.
fn field_u8(v: &Vec<char>, pat: &str, delims: &Vec<char>) -> (r: Option<u8>)
    requires
        pat@.len() > 0,
    ensures
        r == match field_token(v@, pat@, delims@) {
            Some(t) => u8_of(t),
            None => None,
        },
{
    let p = chars_of(pat);
    match field_token_in(v, &p, delims) {
        None => None,
        Some((a, b)) => match parse_unsigned_in(v, a, b, 255) {
            Some(n) => Some(n as u8),
            None => None,
        },
    }
}

fn push_some(effects: &mut Vec<Effect>, e: Option<Effect>)
    ensures
        final(effects)@ == old(effects)@ + one_if(e),
{
    match e {
        Some(x) => {
            effects.push(x);
            proof {
                assert(final(effects)@ =~= old(effects)@ + one_if(e));
            }
        },
        None => {
            proof {
                assert(final(effects)@ =~= old(effects)@ + one_if(e));
            }
        },
    }
}

/// The effects of one ability line.
fn ability_effects_of(ability: &String) -> (r: Vec<Effect>)
    ensures
        r@ == ability_effects(ability@),
{
    let v = chars_of(ability.as_str());
    let delims: Vec<char> = vec!['|', ' '];
    proof {
        assert(delims@ =~= spell_delims());
        reveal_strlit("NumDmg$");
        reveal_strlit("NumCards$");
        reveal_strlit("LifeAmount$");
        reveal_strlit("NumAtt$");
        reveal_strlit("NumDef$");
    }
    let zero = EntityId::new(0);
    let damage = if mentions(&v, "DealDamage") {
        match field_i32(&v, "NumDmg$", &delims, 0) {
            Some(n) => Some(Effect::DealDamage { target: TargetRef::NoTarget, amount: n }),
            None => None,
        }
    } else {
        None
    };
    let draw = if mentions(&v, "SP$ Draw") {
        match field_u8(&v, "NumCards$", &delims) {
            Some(n) => Some(Effect::DrawCards { player: zero, count: n }),
            None => None,
        }
    } else {
        None
    };
    let destroy = if mentions(&v, "SP$ Destroy") {
        Some(Effect::DestroyPermanent { target: zero })
    } else {
        None
    };
    let gain = if mentions(&v, "GainLife") {
        match field_i32(&v, "LifeAmount$", &delims, 0) {
            Some(n) => Some(Effect::GainLife { player: zero, amount: n }),
            None => None,
        }
    } else {
        None
    };
    let pump = if mentions(&v, "SP$ Pump") {
        let p = match field_i32(&v, "NumAtt$", &delims, 2) {
            Some(n) => n,
            None => 0,
        };
        let d = match field_i32(&v, "NumDef$", &delims, 2) {
            Some(n) => n,
            None => 0,
        };
        if p != 0 || d != 0 {
            Some(Effect::PumpCreature { target: zero, power_bonus: p, toughness_bonus: d })
        } else {
            None
        }
    } else {
        None
    };
    let tap = if mentions(&v, "SP$ Tap") && !mentions(&v, "TapAll") {
        Some(Effect::TapPermanent { target: zero })
    } else {
        None
    };
    let untap = if mentions(&v, "SP$ Untap") {
        Some(Effect::UntapPermanent { target: zero })
    } else {
        None
    };
    let mill = if mentions(&v, "SP$ Mill") {
        match field_u8(&v, "NumCards$", &delims) {
            Some(n) => Some(Effect::Mill { player: zero, count: n }),
            None => None,
        }
    } else {
        None
    };
    let mut effects: Vec<Effect> = Vec::new();
    push_some(&mut effects, damage);
    push_some(&mut effects, draw);
    push_some(&mut effects, destroy);
    push_some(&mut effects, gain);
    push_some(&mut effects, pump);
    push_some(&mut effects, tap);
    push_some(&mut effects, untap);
    push_some(&mut effects, mill);
    proof {
        assert(effects@ =~= ability_effects(ability@));
    }
    effects
}

impl CardDefinition {
    /// The effects of the ability lines, line by line in order.
    pub fn parse_effects(&self) -> (r: Vec<Effect>)
        ensures
            r@ == abilities_effects(strings_view(self.raw_abilities@)),
    {
        let ghost abs = strings_view(self.raw_abilities@);
        let mut effects: Vec<Effect> = Vec::new();
        let mut i: usize = 0;
        proof {
            assert(abs.take(0) =~= Seq::<Seq<char>>::empty());
        }
        while i < self.raw_abilities.len()
            invariant
                i <= self.raw_abilities.len(),
                abs == strings_view(self.raw_abilities@),
                effects@ == abilities_effects(abs.take(i as int)),
            decreases self.raw_abilities.len() - i,
        {
            let mut more = ability_effects_of(&self.raw_abilities[i]);
            proof {
                assert(abs.take(i + 1).drop_last() =~= abs.take(i as int));
                assert(abs.take(i + 1).last() == self.raw_abilities@[i as int]@);
            }
            effects.append(&mut more);
            i = i + 1;
        }
        proof {
            assert(abs.take(abs.len() as int) =~= abs);
        }
        effects
    }
}

} // verus!

verus! {

/// A triggered ability line for "when this enters the battlefield": a `T:`
/// line with `Mode$ ChangesZone`, `Destination$ Battlefield` and
/// `ValidCard$ Card.Self`.
pub open spec fn is_etb_trigger(a: Seq<char>) -> bool {
    &&& occurs_at(a, "T:"@, 0)
    &&& seq_contains(a, "Mode$ ChangesZone"@)
    &&& seq_contains(a, "Destination$ Battlefield"@)
    &&& seq_contains(a, "ValidCard$ Card.Self"@)
}

/// The `i32` value of a trigger's field, or `default` when it is missing or
/// does not parse.
pub open spec fn trigger_i32(a: Seq<char>, field: Seq<char>, default: i32) -> i32 {
    match field_token(a, field, trigger_delims()) {
        Some(t) => match i32_of(t) {
            Some(n) => n,
            None => default,
        },
        None => default,
    }
}

/// The `u8` value of a trigger's field, or `default` when it is missing or
/// does not parse.
pub open spec fn trigger_u8(a: Seq<char>, field: Seq<char>, default: u8) -> u8 {
    match field_token(a, field, trigger_delims()) {
        Some(t) => match u8_of(t) {
            Some(n) => n,
            None => default,
        },
        None => default,
    }
}

/// A pump bonus of a trigger: the field's value without one leading `+`,
/// 0 when it is missing or does not parse.
pub open spec fn trigger_bonus(a: Seq<char>, field: Seq<char>) -> i32 {
    match field_token(a, field, trigger_delims()) {
        Some(t) => match i32_of(strip_one_plus(t)) {
            Some(n) => n,
            None => 0,
        },
        None => 0,
    }
}

/// The effects of an enters-the-battlefield trigger line, in this order:
/// draw (`NumCards$`, 1 by default), damage (`NumDmg$`, 1 by default), life
/// gain (`LifeAmount$`, 1 by default, and not on a damage trigger), destroy,
/// and pump (`NumAtt$`, `NumDef$`, when one is nonzero).
pub open spec fn trigger_effects(a: Seq<char>) -> Seq<Effect> {
    let draw = if seq_contains(a, "Execute$ TrigDraw"@) || seq_contains(a, "Draw"@) {
        Some(Effect::DrawCards { player: no_player(), count: trigger_u8(a, "NumCards$"@, 1) })
    } else {
        None
    };
    let damage = if seq_contains(a, "Execute$ TrigDealDamage"@) || seq_contains(a, "DealDamage"@) {
        Some(Effect::DealDamage { target: TargetRef::NoTarget, amount: trigger_i32(a, "NumDmg$"@, 1) })
    } else {
        None
    };
    let gain = if seq_contains(a, "Execute$ TrigGainLife"@) || (seq_contains(a, "GainLife"@) && !seq_contains(
        a,
        "DealDamage"@,
    )) {
        Some(Effect::GainLife { player: no_player(), amount: trigger_i32(a, "LifeAmount$"@, 1) })
    } else {
        None
    };
    let destroy = if seq_contains(a, "Execute$ TrigDestroy"@) || seq_contains(a, "Destroy"@) {
        Some(Effect::DestroyPermanent { target: no_player() })
    } else {
        None
    };
    let p = trigger_bonus(a, "NumAtt$"@);
    let d = trigger_bonus(a, "NumDef$"@);
    let pump = if (seq_contains(a, "Execute$ TrigPump"@) || seq_contains(a, "Pump"@)) && (p != 0 || d
        != 0) {
        Some(Effect::PumpCreature { target: no_player(), power_bonus: p, toughness_bonus: d })
    } else {
        None
    };
    one_if(draw) + one_if(damage) + one_if(gain) + one_if(destroy) + one_if(pump)
}

/// The description of a trigger: its trimmed `TriggerDescription$` text, or
/// a default sentence.
pub open spec fn trigger_description(a: Seq<char>) -> Seq<char> {
    match after_first(a, "TriggerDescription$"@) {
        Some(d) => trimmed(d),
        None => "When this enters the battlefield"@,
    }
}

/// An ability line that becomes a trigger: an enters-the-battlefield trigger
/// with at least one effect.
pub open spec fn yields_trigger(a: Seq<char>) -> bool {
    is_etb_trigger(a) && trigger_effects(a).len() > 0
}

/// The ability lines that become triggers, in order.
pub open spec fn trigger_sources(abs: Seq<Seq<char>>) -> Seq<Seq<char>>
    decreases abs.len(),
{
    if abs.len() == 0 {
        Seq::empty()
    } else if yields_trigger(abs.last()) {
        trigger_sources(abs.drop_last()).push(abs.last())
    } else {
        trigger_sources(abs.drop_last())
    }
}

/// `t` is the trigger that the ability line `a` becomes.
pub open spec fn trigger_read(t: Trigger, a: Seq<char>) -> bool {
    &&& t.event == TriggerEvent::EntersBattlefield
    &&& t.effects@ == trigger_effects(a)
    &&& t.description@ == trigger_description(a)
}

/// The trigger that one ability line becomes, if it becomes one.
fn trigger_of(ability: &String) -> (r: Option<Trigger>)
    ensures
        match r {
            Some(t) => yields_trigger(ability@) && trigger_read(t, ability@),
            None => !yields_trigger(ability@),
        },
{
    let text: &str = ability.as_str();
    let v = chars_of(text);
    let prefix = chars_of("T:");
    if !matches_at(&v, &prefix, 0) || !mentions(&v, "Mode$ ChangesZone") || !mentions(
        &v,
        "Destination$ Battlefield",
    ) || !mentions(&v, "ValidCard$ Card.Self") {
        return None;
    }
    let delims: Vec<char> = vec!['|', ' ', '\n'];
    proof {
        assert(delims@ =~= trigger_delims());
        reveal_strlit("NumDmg$");
        reveal_strlit("NumCards$");
        reveal_strlit("LifeAmount$");
        reveal_strlit("NumAtt$");
        reveal_strlit("NumDef$");
        reveal_strlit("TriggerDescription$");
    }
    let zero = EntityId::new(0);
    let draw = if mentions(&v, "Execute$ TrigDraw") || mentions(&v, "Draw") {
        let count = match field_u8(&v, "NumCards$", &delims) {
            Some(n) => n,
            None => 1,
        };
        Some(Effect::DrawCards { player: zero, count })
    } else {
        None
    };
    let damage = if mentions(&v, "Execute$ TrigDealDamage") || mentions(&v, "DealDamage") {
        let amount = match field_i32(&v, "NumDmg$", &delims, 0) {
            Some(n) => n,
            None => 1,
        };
        Some(Effect::DealDamage { target: TargetRef::NoTarget, amount })
    } else {
        None
    };
    let gain = if mentions(&v, "Execute$ TrigGainLife") || (mentions(&v, "GainLife") && !mentions(
        &v,
        "DealDamage",
    )) {
        let amount = match field_i32(&v, "LifeAmount$", &delims, 0) {
            Some(n) => n,
            None => 1,
        };
        Some(Effect::GainLife { player: zero, amount })
    } else {
        None
    };
    let destroy = if mentions(&v, "Execute$ TrigDestroy") || mentions(&v, "Destroy") {
        Some(Effect::DestroyPermanent { target: zero })
    } else {
        None
    };
    let pump = if mentions(&v, "Execute$ TrigPump") || mentions(&v, "Pump") {
        let p = match field_i32(&v, "NumAtt$", &delims, 1) {
            Some(n) => n,
            None => 0,
        };
        let d = match field_i32(&v, "NumDef$", &delims, 1) {
            Some(n) => n,
            None => 0,
        };
        if p != 0 || d != 0 {
            Some(Effect::PumpCreature { target: zero, power_bonus: p, toughness_bonus: d })
        } else {
            None
        }
    } else {
        None
    };
    let mut effects: Vec<Effect> = Vec::new();
    push_some(&mut effects, draw);
    push_some(&mut effects, damage);
    push_some(&mut effects, gain);
    push_some(&mut effects, destroy);
    push_some(&mut effects, pump);
    proof {
        assert(effects@ =~= trigger_effects(ability@));
    }
    if effects.len() == 0 {
        return None;
    }
    let marker = chars_of("TriggerDescription$");
    let description = match after_first_in(&v, &marker) {
        Some((a, b)) => {
            let (ta, tb) = trim_range(&v, a, b);
            substring(text, &v, ta, tb)
        },
        None => "When this enters the battlefield".to_owned(),
    };
    Some(Trigger::new(TriggerEvent::EntersBattlefield, effects, description))
}

impl CardDefinition {
    /// The enters-the-battlefield triggers of the ability lines, in order.
    pub fn parse_triggers(&self) -> (r: Vec<Trigger>)
        ensures
            r.len() == trigger_sources(strings_view(self.raw_abilities@)).len(),
            forall|i: int|
                0 <= i < r.len() ==> trigger_read(
                    #[trigger] r@[i],
                    trigger_sources(strings_view(self.raw_abilities@))[i],
                ),
    {
        let ghost abs = strings_view(self.raw_abilities@);
        let mut triggers: Vec<Trigger> = Vec::new();
        let mut i: usize = 0;
        proof {
            assert(abs.take(0) =~= Seq::<Seq<char>>::empty());
        }
        while i < self.raw_abilities.len()
            invariant
                i <= self.raw_abilities.len(),
                abs == strings_view(self.raw_abilities@),
                triggers.len() == trigger_sources(abs.take(i as int)).len(),
                forall|j: int|
                    0 <= j < triggers.len() ==> trigger_read(
                        #[trigger] triggers@[j],
                        trigger_sources(abs.take(i as int))[j],
                    ),
            decreases self.raw_abilities.len() - i,
        {
            proof {
                assert(abs.take(i + 1).drop_last() =~= abs.take(i as int));
                assert(abs.take(i + 1).last() == self.raw_abilities@[i as int]@);
            }
            match trigger_of(&self.raw_abilities[i]) {
                Some(t) => {
                    triggers.push(t);
                },
                None => {},
            }
            i = i + 1;
        }
        proof {
            assert(abs.take(abs.len() as int) =~= abs);
        }
        triggers
    }

    /// A card of this definition, with the given id and owner: its cost,
    /// types, subtypes, colors, power and toughness and oracle text, with the
    /// keywords, effects and triggers read from its lines.
    pub fn instantiate(&self, id: CardId, owner: PlayerId) -> (r: Card)
        ensures
            r.id == id,
            r.owner == owner,
            r.controller == owner,
            r.name@ == self.name@,
            r.mana_cost == self.mana_cost,
            r.types@ == self.types@,
            strings_view(r.subtypes@) == strings_view(self.subtypes@),
            r.colors@ == self.colors@,
            r.power == self.power,
            r.toughness == self.toughness,
            r.text@ == self.oracle@,
            r.keywords.len() == self.raw_keywords.len(),
            forall|i: int| 0 <= i < r.keywords.len() ==> keyword_read(#[trigger] r.keywords@[i], self.raw_keywords@[i]@),
            r.effects@ == abilities_effects(strings_view(self.raw_abilities@)),
            r.triggers.len() == trigger_sources(strings_view(self.raw_abilities@)).len(),
            forall|i: int|
                0 <= i < r.triggers.len() ==> trigger_read(
                    #[trigger] r.triggers@[i],
                    trigger_sources(strings_view(self.raw_abilities@))[i],
                ),
            !r.tapped,
            r.turn_entered_battlefield is None,
            r.activated_abilities@.len() == 0,
    {
        let mut card = Card::new(id, self.name.clone(), owner);
        card.mana_cost = self.mana_cost;
        card.types = copy_types(&self.types);
        card.subtypes = self.subtypes.clone();
        proof {
            assert(strings_view(card.subtypes@) =~= strings_view(self.subtypes@)) by {
                assert forall|k: int| 0 <= k < card.subtypes@.len() implies card.subtypes@[k]@
                    == self.subtypes@[k]@ by {
                    assert(vstd::pervasive::cloned(self.subtypes@[k], card.subtypes@[k]));
                }
            }
        }
        card.colors = copy_colors(&self.colors);
        card.power = self.power;
        card.toughness = self.toughness;
        card.text = self.oracle.clone();
        card.keywords = self.parse_keywords();
        card.effects = self.parse_effects();
        card.triggers = self.parse_triggers();
        card
    }
}

fn copy_types(v: &Vec<CardType>) -> (r: Vec<CardType>)
    ensures
        r@ == v@,
{
    let mut r: Vec<CardType> = Vec::new();
    let mut i: usize = 0;
    while i < v.len()
        invariant
            i <= v.len(),
            r@ == v@.take(i as int),
        decreases v.len() - i,
    {
        r.push(v[i]);
        proof {
            assert(v@.take(i + 1) =~= v@.take(i as int).push(v@[i as int]));
        }
        i = i + 1;
    }
    proof {
        assert(v@.take(v@.len() as int) =~= v@);
    }
    r
}

fn copy_colors(v: &Vec<Color>) -> (r: Vec<Color>)
    ensures
        r@ == v@,
{
    let mut r: Vec<Color> = Vec::new();
    let mut i: usize = 0;
    while i < v.len()
        invariant
            i <= v.len(),
            r@ == v@.take(i as int),
        decreases v.len() - i,
    {
        r.push(v[i]);
        proof {
            assert(v@.take(i + 1) =~= v@.take(i as int).push(v@[i as int]));
        }
        i = i + 1;
    }
    proof {
        assert(v@.take(v@.len() as int) =~= v@);
    }
    r
}

} // verus!

verus! {

/// The ability lines that are enters-the-battlefield trigger lines, in order.
pub open spec fn etb_lines(abs: Seq<Seq<char>>) -> Seq<Seq<char>>
    decreases abs.len(),
{
    if abs.len() == 0 {
        Seq::empty()
    } else if is_etb_trigger(abs.last()) {
        etb_lines(abs.drop_last()).push(abs.last())
    } else {
        etb_lines(abs.drop_last())
    }
}

/// The ability lines that start with `T:`, in order.
pub open spec fn trigger_lines(abs: Seq<Seq<char>>) -> Seq<Seq<char>>
    decreases abs.len(),
{
    if abs.len() == 0 {
        Seq::empty()
    } else if occurs_at(abs.last(), "T:"@, 0) {
        trigger_lines(abs.drop_last()).push(abs.last())
    } else {
        trigger_lines(abs.drop_last())
    }
}

/// The triggers read from a card are no more than its enters-the-battlefield
/// trigger lines, and each has at least one effect.
pub proof fn law_triggers_bounded_and_effective(abs: Seq<Seq<char>>)
    ensures
        trigger_sources(abs).len() <= etb_lines(abs).len(),
        forall|i: int| 0 <= i < trigger_sources(abs).len() ==> trigger_effects(#[trigger] trigger_sources(abs)[i]).len() > 0,
    decreases abs.len(),
{
    if abs.len() > 0 {
        law_triggers_bounded_and_effective(abs.drop_last());
        let prev = trigger_sources(abs.drop_last());
        if yields_trigger(abs.last()) {
            assert forall|i: int| 0 <= i < trigger_sources(abs).len() implies trigger_effects(
                #[trigger] trigger_sources(abs)[i],
            ).len() > 0 by {
                if i < prev.len() {
                    assert(trigger_sources(abs)[i] == prev[i]);
                }
            }
        }
    }
}

/// Ability lines that do not start with `T:` do not change the triggers read:
/// they are those read from the `T:` lines alone.
pub proof fn law_triggers_only_from_t_lines(abs: Seq<Seq<char>>)
    ensures
        trigger_sources(abs) == trigger_sources(trigger_lines(abs)),
    decreases abs.len(),
{
    if abs.len() > 0 {
        law_triggers_only_from_t_lines(abs.drop_last());
        let t = trigger_lines(abs.drop_last());
        if occurs_at(abs.last(), "T:"@, 0) {
            assert(trigger_lines(abs).drop_last() =~= t);
            assert(trigger_lines(abs).last() == abs.last());
        }
    }
}

} // verus!
