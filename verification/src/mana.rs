//! Mana costs, mana colors, and the description of what a mana source produces.

use vstd::prelude::*;
use crate::ids::CardId;
use crate::text::{all_digits, decimal_text, decimal_value, lemma_decimal_text};

verus! {

broadcast use vstd::string::group_string_axioms;

/// The largest value of a `u8`, as an integer.
pub open spec fn u8_cap(x: int) -> int {
    if x > 255 { 255 } else { x }
}

/// A mana cost: an amount of generic mana plus amounts of each colored and colorless mana.
#[derive(Debug, Clone, Copy, PartialEq, Eq, Structural)]
pub struct ManaCost {
    pub generic: u8,
    pub white: u8,
    pub blue: u8,
    pub black: u8,
    pub red: u8,
    pub green: u8,
    pub colorless: u8,
    /// Number of X symbols in the cost (they add nothing to the converted cost).
    pub x_count: u8,
}

impl ManaCost {
    /// The exact sum of all the mana symbols of the cost (X counts as zero).
    pub open spec fn total(self) -> int {
        self.generic + self.white + self.blue + self.black + self.red + self.green + self.colorless
    }

    /// The sum of the colored and colorless requirements (everything but generic).
    pub open spec fn specific_total(self) -> int {
        self.white + self.blue + self.black + self.red + self.green + self.colorless
    }

    /// The converted mana cost as the library computes it: the sum of all symbols,
    /// capped at 255.
    pub open spec fn spec_cmc(self) -> int {
        u8_cap(self.total())
    }

    /// An empty cost.
    pub fn new() -> (r: Self)
        ensures
            r.total() == 0,
            r.x_count == 0,
    {
        ManaCost { generic: 0, white: 0, blue: 0, black: 0, red: 0, green: 0, colorless: 0, x_count: 0 }
    }

    /// Converted mana cost: the number of mana symbols, saturating at 255.
    pub fn cmc(&self) -> (r: u8)
        ensures
            r == self.spec_cmc(),
    {
        self.generic.saturating_add(self.white).saturating_add(self.blue).saturating_add(
            self.black,
        ).saturating_add(self.red).saturating_add(self.green).saturating_add(self.colorless)
    }

    /// Parses a cost written in Forge's notation, such as `2R`, `1 B` or `2 W W`.
    ///
    /// A run of decimal digits adds its value to the generic part; the letters
    /// `W`, `U`, `B`, `R`, `G` add one mana of that color, `C` one colorless mana
    /// and `X` one X symbol. Every other character is ignored. Every count
    /// saturates at 255.
    pub fn from_string(s: &str) -> (r: Self)
        ensures
            r == cost_of_chars(s@),
    {
        let chars = crate::text::chars_of(s);
        let mut st = CostScan { cost: ManaCost::new(), run: 0 };
        let mut i: usize = 0;
        assert(chars@.take(0) =~= Seq::<char>::empty());
        while i < chars.len()
            invariant
                i <= chars.len(),
                st == scan_cost(chars@.take(i as int)),
            decreases chars.len() - i,
        {
            let c = chars[i];
            st = step_cost(st, c);
            assert(chars@.take(i + 1).drop_last() =~= chars@.take(i as int));
            i = i + 1;
        }
        assert(chars@.take(chars.len() as int) =~= chars@);
        finish_cost(st)
    }
}

/// Intermediate state of parsing a cost: the cost so far and the value of the
/// current run of digits.
#[derive(Clone, Copy, PartialEq, Eq, Structural)]
pub struct CostScan {
    pub cost: ManaCost,
    pub run: u8,
}

/// The value of a decimal digit character, if it is one.
pub open spec fn digit_value(c: char) -> Option<u8> {
    if '0' <= c && c <= '9' {
        Some((c as u32 - '0' as u32) as u8)
    } else {
        None
    }
}

/// Closes the current run of digits, adding its value to the generic part.
pub open spec fn close_run(st: CostScan) -> CostScan {
    CostScan {
        cost: ManaCost { generic: u8_cap(st.cost.generic + st.run) as u8, ..st.cost },
        run: 0,
    }
}

/// One character of a cost.
pub open spec fn spec_step_cost(st: CostScan, c: char) -> CostScan {
    match digit_value(c) {
        Some(d) => CostScan { cost: st.cost, run: u8_cap(st.run * 10 + d) as u8 },
        None => {
            let s = close_run(st);
            let k = s.cost;
            if c == 'W' {
                CostScan { cost: ManaCost { white: u8_cap(k.white + 1) as u8, ..k }, run: 0 }
            } else if c == 'U' {
                CostScan { cost: ManaCost { blue: u8_cap(k.blue + 1) as u8, ..k }, run: 0 }
            } else if c == 'B' {
                CostScan { cost: ManaCost { black: u8_cap(k.black + 1) as u8, ..k }, run: 0 }
            } else if c == 'R' {
                CostScan { cost: ManaCost { red: u8_cap(k.red + 1) as u8, ..k }, run: 0 }
            } else if c == 'G' {
                CostScan { cost: ManaCost { green: u8_cap(k.green + 1) as u8, ..k }, run: 0 }
            } else if c == 'C' {
                CostScan { cost: ManaCost { colorless: u8_cap(k.colorless + 1) as u8, ..k }, run: 0 }
            } else if c == 'X' {
                CostScan { cost: ManaCost { x_count: u8_cap(k.x_count + 1) as u8, ..k }, run: 0 }
            } else {
                s
            }
        },
    }
}

/// The scan state after reading a sequence of characters.
pub open spec fn scan_cost(s: Seq<char>) -> CostScan
    decreases s.len(),
{
    if s.len() == 0 {
        CostScan {
            cost: ManaCost { generic: 0, white: 0, blue: 0, black: 0, red: 0, green: 0, colorless: 0, x_count: 0 },
            run: 0,
        }
    } else {
        spec_step_cost(scan_cost(s.drop_last()), s.last())
    }
}

/// The cost that a text denotes.
pub open spec fn cost_of_chars(s: Seq<char>) -> ManaCost {
    close_run(scan_cost(s)).cost
}

/// The number of times a character occurs in a text.
pub open spec fn char_count(s: Seq<char>, ch: char) -> nat
    decreases s.len(),
{
    if s.len() == 0 {
        0
    } else {
        char_count(s.drop_last(), ch) + if s.last() == ch { 1nat } else { 0nat }
    }
}

proof fn lemma_scan_letters(s: Seq<char>)
    ensures
        scan_cost(s).cost.white == u8_cap(char_count(s, 'W') as int),
        scan_cost(s).cost.blue == u8_cap(char_count(s, 'U') as int),
        scan_cost(s).cost.black == u8_cap(char_count(s, 'B') as int),
        scan_cost(s).cost.red == u8_cap(char_count(s, 'R') as int),
        scan_cost(s).cost.green == u8_cap(char_count(s, 'G') as int),
        scan_cost(s).cost.colorless == u8_cap(char_count(s, 'C') as int),
        scan_cost(s).cost.x_count == u8_cap(char_count(s, 'X') as int),
    decreases s.len(),
{
    if s.len() > 0 {
        lemma_scan_letters(s.drop_last());
    }
}

/// Each mana symbol written as a letter counts once toward its own kind of
/// mana, whatever else the text holds: the parsed cost has as many white,
/// blue, black, red, green and colorless symbols and X's as the text has
/// `W`, `U`, `B`, `R`, `G`, `C` and `X` letters (at most 255 of each).
pub proof fn law_letters_count_symbols(s: Seq<char>)
    ensures
        cost_of_chars(s).white == u8_cap(char_count(s, 'W') as int),
        cost_of_chars(s).blue == u8_cap(char_count(s, 'U') as int),
        cost_of_chars(s).black == u8_cap(char_count(s, 'B') as int),
        cost_of_chars(s).red == u8_cap(char_count(s, 'R') as int),
        cost_of_chars(s).green == u8_cap(char_count(s, 'G') as int),
        cost_of_chars(s).colorless == u8_cap(char_count(s, 'C') as int),
        cost_of_chars(s).x_count == u8_cap(char_count(s, 'X') as int),
{
    lemma_scan_letters(s);
}

proof fn lemma_scan_digits(d: Seq<char>)
    requires
        all_digits(d),
        decimal_value(d) <= 255,
    ensures
        scan_cost(d).run == decimal_value(d),
        scan_cost(d).cost.generic == 0,
    decreases d.len(),
{
    if d.len() > 0 {
        let p = d.drop_last();
        assert(all_digits(p)) by {
            assert forall|i: int| 0 <= i < p.len() implies #[trigger] p[i] == d[i] by {}
        }
        assert(d.last() == d[d.len() - 1]);
        assert(decimal_value(p) >= 0) by {
            lemma_decimal_nonneg(p);
        }
        lemma_scan_digits(p);
    }
}

proof fn lemma_decimal_nonneg(d: Seq<char>)
    requires
        all_digits(d),
    ensures
        decimal_value(d) >= 0,
    decreases d.len(),
{
    if d.len() > 0 {
        let p = d.drop_last();
        assert forall|i: int| 0 <= i < p.len() implies #[trigger] p[i] == d[i] by {}
        assert(d.last() == d[d.len() - 1]);
        lemma_decimal_nonneg(p);
    }
}

proof fn lemma_scan_after_number(d: Seq<char>, r: Seq<char>)
    requires
        all_digits(d),
        decimal_value(d) <= 255,
        forall|i: int| 0 <= i < r.len() ==> digit_value(#[trigger] r[i]) is None,
    ensures
        r.len() == 0 ==> scan_cost(d + r).run == decimal_value(d) && scan_cost(d + r).cost.generic == 0,
        r.len() > 0 ==> scan_cost(d + r).run == 0 && scan_cost(d + r).cost.generic == decimal_value(d),
    decreases r.len(),
{
    if r.len() == 0 {
        assert(d + r =~= d);
        lemma_scan_digits(d);
    } else {
        let r2 = r.drop_last();
        assert forall|i: int| 0 <= i < r2.len() implies digit_value(#[trigger] r2[i]) is None by {
            assert(r2[i] == r[i]);
        }
        lemma_scan_after_number(d, r2);
        assert((d + r).drop_last() =~= d + r2);
        assert((d + r).last() == r[r.len() - 1]);
        lemma_decimal_nonneg(d);
    }
}

/// A number written before the mana symbols is the generic part of the cost:
/// for `n` up to 255 followed by any text without digits, the parsed cost has
/// exactly `n` generic mana.
pub proof fn law_leading_number_is_generic(n: nat, rest: Seq<char>)
    requires
        n <= 255,
        forall|i: int| 0 <= i < rest.len() ==> !('0' <= #[trigger] rest[i] <= '9'),
    ensures
        cost_of_chars(decimal_text(n) + rest).generic == n,
{
    lemma_decimal_text(n);
    assert forall|i: int| 0 <= i < rest.len() implies digit_value(#[trigger] rest[i]) is None by {}
    lemma_scan_after_number(decimal_text(n), rest);
}

fn finish_cost(st: CostScan) -> (r: ManaCost)
    ensures
        r == close_run(st).cost,
{
    ManaCost { generic: st.cost.generic.saturating_add(st.run), ..st.cost }
}

fn step_cost(st: CostScan, c: char) -> (r: CostScan)
    ensures
        r == spec_step_cost(st, c),
{
    if '0' <= c && c <= '9' {
        let d: u8 = (c as u32 - '0' as u32) as u8;
        let r10: u16 = st.run as u16 * 10 + d as u16;
        let run: u8 = if r10 > 255 { 255 } else { r10 as u8 };
        CostScan { cost: st.cost, run }
    } else {
        let k = finish_cost(st);
        if c == 'W' {
            CostScan { cost: ManaCost { white: k.white.saturating_add(1), ..k }, run: 0 }
        } else if c == 'U' {
            CostScan { cost: ManaCost { blue: k.blue.saturating_add(1), ..k }, run: 0 }
        } else if c == 'B' {
            CostScan { cost: ManaCost { black: k.black.saturating_add(1), ..k }, run: 0 }
        } else if c == 'R' {
            CostScan { cost: ManaCost { red: k.red.saturating_add(1), ..k }, run: 0 }
        } else if c == 'G' {
            CostScan { cost: ManaCost { green: k.green.saturating_add(1), ..k }, run: 0 }
        } else if c == 'C' {
            CostScan { cost: ManaCost { colorless: k.colorless.saturating_add(1), ..k }, run: 0 }
        } else if c == 'X' {
            CostScan { cost: ManaCost { x_count: k.x_count.saturating_add(1), ..k }, run: 0 }
        } else {
            CostScan { cost: k, run: 0 }
        }
    }
}

/// A color of mana.
#[derive(Debug, Clone, Copy, PartialEq, Eq, Hash, Structural)]
pub enum ManaColor {
    White,
    Blue,
    Black,
    Red,
    Green,
}

/// The letter that stands for a color.
pub open spec fn color_char(c: ManaColor) -> char {
    match c {
        ManaColor::White => 'W',
        ManaColor::Blue => 'U',
        ManaColor::Black => 'B',
        ManaColor::Red => 'R',
        ManaColor::Green => 'G',
    }
}

/// The color that a letter stands for, in either case.
pub open spec fn color_of_char(c: char) -> Option<ManaColor> {
    if c == 'W' || c == 'w' {
        Some(ManaColor::White)
    } else if c == 'U' || c == 'u' {
        Some(ManaColor::Blue)
    } else if c == 'B' || c == 'b' {
        Some(ManaColor::Black)
    } else if c == 'R' || c == 'r' {
        Some(ManaColor::Red)
    } else if c == 'G' || c == 'g' {
        Some(ManaColor::Green)
    } else {
        None
    }
}

impl ManaColor {
    /// Single-letter representation (W, U, B, R, G).
    pub fn to_char(self) -> (r: char)
        ensures
            r == color_char(self),
    {
        match self {
            ManaColor::White => 'W',
            ManaColor::Blue => 'U',
            ManaColor::Black => 'B',
            ManaColor::Red => 'R',
            ManaColor::Green => 'G',
        }
    }

    /// Parses a single letter, in either case.
    pub fn from_char(c: char) -> (r: Option<Self>)
        ensures
            r == color_of_char(c),
    {
        if c == 'W' || c == 'w' {
            Some(ManaColor::White)
        } else if c == 'U' || c == 'u' {
            Some(ManaColor::Blue)
        } else if c == 'B' || c == 'b' {
            Some(ManaColor::Black)
        } else if c == 'R' || c == 'r' {
            Some(ManaColor::Red)
        } else if c == 'G' || c == 'g' {
            Some(ManaColor::Green)
        } else {
            None
        }
    }

    /// Whether two colors are the same.
    pub fn same(self, other: ManaColor) -> (r: bool)
        ensures
            r == (self == other),
    {
        match (self, other) {
            (ManaColor::White, ManaColor::White) => true,
            (ManaColor::Blue, ManaColor::Blue) => true,
            (ManaColor::Black, ManaColor::Black) => true,
            (ManaColor::Red, ManaColor::Red) => true,
            (ManaColor::Green, ManaColor::Green) => true,
            _ => false,
        }
    }
}

/// Law: a color letter reads back as the same color.
pub proof fn lemma_color_char_roundtrip(c: ManaColor)
    ensures
        color_of_char(color_char(c)) == Some(c),
{
}

/// The kind of mana a source can produce.
#[derive(Debug, Clone, PartialEq, Eq)]
pub enum ManaProductionKind {
    /// Exactly one specific color (a Mountain produces red).
    Fixed(ManaColor),
    /// One of several colors (Taiga produces red or green).
    Choice(Vec<ManaColor>),
    /// Any color (City of Brass).
    AnyColor,
    /// Colorless mana (Wastes).
    Colorless,
}

/// The kind of mana a source produces, as a mathematical value.
pub enum KindView {
    Fixed(ManaColor),
    Choice(Seq<ManaColor>),
    AnyColor,
    Colorless,
}

impl View for ManaProductionKind {
    type V = KindView;

    open spec fn view(&self) -> KindView {
        match self {
            ManaProductionKind::Fixed(c) => KindView::Fixed(*c),
            ManaProductionKind::Choice(v) => KindView::Choice(v@),
            ManaProductionKind::AnyColor => KindView::AnyColor,
            ManaProductionKind::Colorless => KindView::Colorless,
        }
    }
}

/// What mana a source produces and what it costs to activate.
#[derive(Debug, Clone, PartialEq, Eq)]
pub struct ManaProduction {
    pub kind: ManaProductionKind,
    /// Mana to pay to activate the ability, if any.
    pub activation_cost: Option<ManaCost>,
}

/// The value of a byte reinterpreted as a signed byte.
pub open spec fn as_signed(x: u8) -> int {
    if x < 128 { x as int } else { x - 256 }
}

/// Net mana gained by activating a production: one mana produced, minus the
/// converted cost of activation reinterpreted as a signed byte.
pub open spec fn spec_net_delta(p: ManaProduction) -> int {
    match p.activation_cost {
        Some(c) => 1 - as_signed(c.spec_cmc() as u8),
        None => 1,
    }
}

/// Whether computing the net delta of a production stays within `i8`.
pub open spec fn net_delta_fits(p: ManaProduction) -> bool {
    spec_net_delta(p) <= 127
}

impl ManaProduction {
    /// A production with no activation cost.
    pub fn free(kind: ManaProductionKind) -> (r: Self)
        ensures
            r.kind == kind,
            r.activation_cost is None,
    {
        ManaProduction { kind, activation_cost: None }
    }

    /// A production that costs `cost` to activate.
    pub fn with_cost(kind: ManaProductionKind, cost: ManaCost) -> (r: Self)
        ensures
            r.kind == kind,
            r.activation_cost == Some(cost),
    {
        ManaProduction { kind, activation_cost: Some(cost) }
    }

    /// Net mana delta (production minus activation cost), used for bounds checks.
    pub fn net_delta(&self) -> (r: i8)
        requires
            net_delta_fits(*self),
        ensures
            r == spec_net_delta(*self),
    {
        let production: i8 = 1;
        let cost: i8 = match &self.activation_cost {
            Some(c) => signed_byte(c.cmc()),
            None => 0,
        };
        production - cost
    }
}

fn signed_byte(x: u8) -> (r: i8)
    ensures
        r == as_signed(x),
{
    if x < 128 {
        x as i8
    } else {
        let y: i16 = x as i16 - 256;
        y as i8
    }
}

/// A mana-producing permanent as the payment resolvers see it.
#[derive(Debug, Clone)]
pub struct ManaSource {
    pub card_id: CardId,
    pub production: ManaProduction,
    pub is_tapped: bool,
    pub has_summoning_sickness: bool,
}

/// The outcome of a payment check, as a mathematical value.
pub enum PaymentView {
    Yes(Seq<CardId>),
    No,
    Maybe,
}

/// Result of checking whether a mana cost can be paid.
#[derive(Debug, Clone, PartialEq, Eq)]
pub enum PaymentResult {
    /// The cost can be paid by tapping these cards, in this order.
    Yes(Vec<CardId>),
    /// The cost provably cannot be paid with these sources.
    No,
    /// The algorithm found no payment, but one might exist.
    Maybe,
}

impl View for PaymentResult {
    type V = PaymentView;

    open spec fn view(&self) -> PaymentView {
        match self {
            PaymentResult::Yes(v) => PaymentView::Yes(v@),
            PaymentResult::No => PaymentView::No,
            PaymentResult::Maybe => PaymentView::Maybe,
        }
    }
}

} // verus!
