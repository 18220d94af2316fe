//! Deciding whether a mana cost can be paid from a list of mana sources, and
//! which sources to tap.
//!
//! Two strategies are provided: [`SimpleManaResolver`] for sources that each
//! produce one fixed kind of mana, and [`GreedyManaResolver`] for sources with
//! choices (dual lands, any-color lands, mana creatures).

use vstd::prelude::*;
use crate::ids::CardId;
use crate::mana::{net_delta_fits, spec_net_delta, u8_cap, ManaColor, ManaCost, ManaProduction, ManaProductionKind, ManaSource, PaymentResult, PaymentView};

verus! {

// ---------------------------------------------------------------------------
// Mathematical model of the sources
// ---------------------------------------------------------------------------

/// A source can be tapped for mana right now.
pub open spec fn available(s: ManaSource) -> bool {
    !s.is_tapped && !s.has_summoning_sickness
}

/// The source produces exactly the given color.
pub open spec fn is_fixed(s: ManaSource, c: ManaColor) -> bool {
    s.production.kind == ManaProductionKind::Fixed(c)
}

/// The source produces colorless mana.
pub open spec fn is_colorless(s: ManaSource) -> bool {
    s.production.kind is Colorless
}

/// The source offers a choice of colors or any color.
pub open spec fn is_complex(s: ManaSource) -> bool {
    s.production.kind is Choice || s.production.kind is AnyColor
}

/// Whether a production can yield a given color.
pub open spec fn can_produce(p: ManaProduction, c: ManaColor) -> bool {
    match p.kind {
        ManaProductionKind::Fixed(x) => x == c,
        ManaProductionKind::Choice(v) => v@.contains(c),
        ManaProductionKind::AnyColor => true,
        ManaProductionKind::Colorless => false,
    }
}

/// Available sources of one fixed color.
pub open spec fn fixed_pred(c: ManaColor) -> spec_fn(ManaSource) -> bool {
    |s: ManaSource| available(s) && is_fixed(s, c)
}

/// Available colorless sources.
pub open spec fn colorless_pred() -> spec_fn(ManaSource) -> bool {
    |s: ManaSource| available(s) && is_colorless(s)
}

/// Available sources with a choice of colors.
pub open spec fn complex_pred() -> spec_fn(ManaSource) -> bool {
    |s: ManaSource| available(s) && is_complex(s)
}

/// Available sources of a single fixed kind of mana (a color or colorless).
pub open spec fn simple_pred() -> spec_fn(ManaSource) -> bool {
    |s: ManaSource| available(s) && !is_complex(s)
}

/// Every available source.
pub open spec fn avail_pred() -> spec_fn(ManaSource) -> bool {
    |s: ManaSource| available(s)
}

/// Number of sources satisfying a predicate.
pub open spec fn count(s: Seq<ManaSource>, p: spec_fn(ManaSource) -> bool) -> nat
    decreases s.len(),
{
    if s.len() == 0 {
        0
    } else {
        count(s.drop_last(), p) + if p(s.last()) { 1nat } else { 0nat }
    }
}

/// Greedy selection in input order: starting from `acc`, append the id of each
/// source that satisfies `p` and whose id is not yet present, until `n` ids have
/// been appended.
pub open spec fn pick(s: Seq<ManaSource>, p: spec_fn(ManaSource) -> bool, n: nat, acc: Seq<CardId>) -> Seq<CardId>
    decreases s.len(),
{
    if s.len() == 0 {
        acc
    } else {
        let prev = pick(s.drop_last(), p, n, acc);
        let x = s.last();
        if prev.len() - acc.len() < n && p(x) && !prev.contains(x.card_id) {
            prev.push(x.card_id)
        } else {
            prev
        }
    }
}

// ---------------------------------------------------------------------------
// The resolver interface
// ---------------------------------------------------------------------------

/// The payment check with `Yes` turned into `Maybe`.
pub open spec fn weaken_yes(r: PaymentView) -> PaymentView {
    match r {
        PaymentView::Yes(_) => PaymentView::Maybe,
        other => other,
    }
}

/// A strategy for deciding how to pay a mana cost.
pub trait ManaPaymentResolver {
    /// The inputs the strategy accepts (its counters must not overflow).
    spec fn accepts(&self, cost: ManaCost, sources: Seq<ManaSource>) -> bool;

    /// What `check_payment` returns.
    spec fn payment(&self, cost: ManaCost, sources: Seq<ManaSource>) -> PaymentView;

    /// Checks whether `cost` can be paid from `sources` and how.
    fn check_payment(&self, cost: &ManaCost, sources: &[ManaSource]) -> (r: PaymentResult)
        requires
            self.accepts(*cost, sources@),
        ensures
            r@ == self.payment(*cost, sources@),
    ;

    /// A fast bounds check: `No` when payment is provably impossible,
    /// `Maybe` otherwise. It never answers `Yes`.
    fn quick_check(&self, cost: &ManaCost, sources: &[ManaSource]) -> (r: PaymentResult)
        requires
            self.accepts(*cost, sources@),
        ensures
            !(r is Yes),
            r is No ==> self.payment(*cost, sources@) is No,
        default_ensures
            r@ == weaken_yes(self.payment(*cost, sources@)),
    {
        match self.check_payment(cost, sources) {
            PaymentResult::Yes(_) => PaymentResult::Maybe,
            PaymentResult::No => PaymentResult::No,
            PaymentResult::Maybe => PaymentResult::Maybe,
        }
    }

    /// Whether a definite payment was found (`Maybe` counts as no).
    fn can_pay(&self, cost: &ManaCost, sources: &[ManaSource]) -> (r: bool)
        requires
            self.accepts(*cost, sources@),
        ensures
            r == self.payment(*cost, sources@) is Yes,
    {
        match self.check_payment(cost, sources) {
            PaymentResult::Yes(_) => true,
            _ => false,
        }
    }

    /// The cards to tap, in order, when a definite payment was found.
    fn compute_tap_order(&self, cost: &ManaCost, sources: &[ManaSource]) -> (r: Option<Vec<CardId>>)
        requires
            self.accepts(*cost, sources@),
        ensures
            match self.payment(*cost, sources@) {
                PaymentView::Yes(t) => r is Some && r->0@ == t,
                _ => r is None,
            },
    {
        match self.check_payment(cost, sources) {
            PaymentResult::Yes(t) => Some(t),
            _ => None,
        }
    }
}

// ---------------------------------------------------------------------------
// Shared executable helpers
// ---------------------------------------------------------------------------

/// Whether an id occurs in a list.
pub fn contains_id(v: &Vec<CardId>, id: CardId) -> (r: bool)
    ensures
        r == v@.contains(id),
{
    let mut i: usize = 0;
    while i < v.len()
        invariant
            i <= v.len(),
            forall|j: int| 0 <= j < i ==> v@[j] != id,
        decreases v.len() - i,
    {
        if v[i] == id {
            return true;
        }
        i = i + 1;
    }
    false
}

proof fn lemma_count_step(s: Seq<ManaSource>, p: spec_fn(ManaSource) -> bool, i: int)
    requires
        0 <= i < s.len(),
    ensures
        count(s.take(i + 1), p) == count(s.take(i), p) + if p(s[i]) { 1nat } else { 0nat },
{
    assert(s.take(i + 1).drop_last() =~= s.take(i));
}

proof fn lemma_count_prefix(s: Seq<ManaSource>, p: spec_fn(ManaSource) -> bool, i: int)
    requires
        0 <= i <= s.len(),
    ensures
        count(s.take(i), p) <= count(s, p),
    decreases s.len() - i,
{
    if i < s.len() {
        lemma_count_step(s, p, i);
        lemma_count_prefix(s, p, i + 1);
    } else {
        assert(s.take(i) =~= s);
    }
}

proof fn lemma_pick_step(s: Seq<ManaSource>, p: spec_fn(ManaSource) -> bool, n: nat, acc: Seq<CardId>, i: int)
    requires
        0 <= i < s.len(),
    ensures
        pick(s.take(i + 1), p, n, acc) == ({
            let prev = pick(s.take(i), p, n, acc);
            if prev.len() - acc.len() < n && p(s[i]) && !prev.contains(s[i].card_id) {
                prev.push(s[i].card_id)
            } else {
                prev
            }
        }),
{
    assert(s.take(i + 1).drop_last() =~= s.take(i));
}

/// `pick` only ever extends the list it starts from.
pub proof fn lemma_pick_extends(s: Seq<ManaSource>, p: spec_fn(ManaSource) -> bool, n: nat, acc: Seq<CardId>)
    ensures
        pick(s, p, n, acc).len() >= acc.len(),
        pick(s, p, n, acc).len() <= acc.len() + n,
        pick(s, p, n, acc).subrange(0, acc.len() as int) == acc,
    decreases s.len(),
{
    if s.len() > 0 {
        lemma_pick_extends(s.drop_last(), p, n, acc);
        let prev = pick(s.drop_last(), p, n, acc);
        assert(prev.push(s.last().card_id).subrange(0, acc.len() as int) =~= prev.subrange(0, acc.len() as int));
    }
}

/// Appends to `tap_order` the ids chosen by `pick` with the given predicate.
/// `which` selects the predicate: 0..=4 the fixed colors W, U, B, R, G; 5
/// colorless; 6 any simple source; 7 any available source.
fn tap_matching(sources: &[ManaSource], which: u8, color: ManaColor, amount: u8, tap_order: &mut Vec<CardId>) -> (tapped: u8)
    requires
        which <= 7,
    ensures
        final(tap_order)@ == pick(sources@, select_pred(which, color), amount as nat, old(tap_order)@),
        tapped == final(tap_order)@.len() - old(tap_order)@.len(),
{
    let ghost acc = tap_order@;
    let ghost p = select_pred(which, color);
    let mut tapped: u8 = 0;
    let mut i: usize = 0;
    proof {
        assert(sources@.take(0) =~= Seq::<ManaSource>::empty());
    }
    while i < sources.len()
        invariant
            i <= sources.len(),
            p == select_pred(which, color),
            which <= 7,
            tap_order@ == pick(sources@.take(i as int), p, amount as nat, acc),
            tapped == tap_order@.len() - acc.len(),
            tapped <= amount,
        decreases sources.len() - i,
    {
        let source = &sources[i];
        proof {
            lemma_pick_step(sources@, p, amount as nat, acc, i as int);
            lemma_pick_extends(sources@.take(i as int), p, amount as nat, acc);
        }
        if tapped < amount && !source.is_tapped && !source.has_summoning_sickness {
            let ok = matches_selector(source, which, color);
            if ok && !contains_id(tap_order, source.card_id) {
                tap_order.push(source.card_id);
                tapped = tapped + 1;
            }
        }
        i = i + 1;
    }
    proof {
        assert(sources@.take(sources@.len() as int) =~= sources@);
    }
    tapped
}

/// The predicate that `tap_matching` uses for a selector.
pub open spec fn select_pred(which: u8, color: ManaColor) -> spec_fn(ManaSource) -> bool {
    if which == 0 {
        fixed_pred(ManaColor::White)
    } else if which == 1 {
        fixed_pred(ManaColor::Blue)
    } else if which == 2 {
        fixed_pred(ManaColor::Black)
    } else if which == 3 {
        fixed_pred(ManaColor::Red)
    } else if which == 4 {
        fixed_pred(ManaColor::Green)
    } else if which == 5 {
        colorless_pred()
    } else if which == 6 {
        simple_pred()
    } else {
        avail_pred()
    }
}

fn matches_selector(s: &ManaSource, which: u8, color: ManaColor) -> (r: bool)
    requires
        which <= 7,
        available(*s),
    ensures
        r == select_pred(which, color)(*s),
{
    match &s.production.kind {
        ManaProductionKind::Fixed(c) => {
            if which == 0 {
                c.same(ManaColor::White)
            } else if which == 1 {
                c.same(ManaColor::Blue)
            } else if which == 2 {
                c.same(ManaColor::Black)
            } else if which == 3 {
                c.same(ManaColor::Red)
            } else if which == 4 {
                c.same(ManaColor::Green)
            } else {
                which == 6 || which == 7
            }
        },
        ManaProductionKind::Colorless => which == 5 || which == 6 || which == 7,
        _ => which == 7,
    }
}

// ---------------------------------------------------------------------------
// SimpleManaResolver
// ---------------------------------------------------------------------------

/// The order in which the simple resolver taps sources: first the sources of
/// each required color in W, U, B, R, G order, then colorless sources, then
/// any remaining single-kind sources for the generic part. Within each step
/// sources are taken in input order, skipping ids already chosen.
pub open spec fn simple_tap_order(cost: ManaCost, s: Seq<ManaSource>) -> Seq<CardId> {
    let t1 = pick(s, fixed_pred(ManaColor::White), cost.white as nat, Seq::empty());
    let t2 = pick(s, fixed_pred(ManaColor::Blue), cost.blue as nat, t1);
    let t3 = pick(s, fixed_pred(ManaColor::Black), cost.black as nat, t2);
    let t4 = pick(s, fixed_pred(ManaColor::Red), cost.red as nat, t3);
    let t5 = pick(s, fixed_pred(ManaColor::Green), cost.green as nat, t4);
    let t6 = pick(s, colorless_pred(), cost.colorless as nat, t5);
    pick(s, simple_pred(), cost.generic as nat, t6)
}

/// Every fixed color and the colorless requirement is covered by the
/// available single-kind sources.
pub open spec fn simple_colors_covered(cost: ManaCost, s: Seq<ManaSource>) -> bool {
    &&& cost.white <= count(s, fixed_pred(ManaColor::White))
    &&& cost.blue <= count(s, fixed_pred(ManaColor::Blue))
    &&& cost.black <= count(s, fixed_pred(ManaColor::Black))
    &&& cost.red <= count(s, fixed_pred(ManaColor::Red))
    &&& cost.green <= count(s, fixed_pred(ManaColor::Green))
    &&& cost.colorless <= count(s, colorless_pred())
}

/// Mana left for the generic part after the specific requirements, with the
/// totals computed as saturating bytes.
pub open spec fn simple_remaining(cost: ManaCost, s: Seq<ManaSource>) -> int {
    let total = u8_cap(count(s, simple_pred()) as int);
    let used = u8_cap(cost.specific_total());
    if total >= used { total - used } else { 0 }
}

/// What the simple resolver answers.
pub open spec fn simple_payment(cost: ManaCost, s: Seq<ManaSource>) -> PaymentView {
    if count(s, complex_pred()) > 0 {
        PaymentView::Maybe
    } else if !simple_colors_covered(cost, s) {
        PaymentView::No
    } else if simple_remaining(cost, s) < cost.generic {
        PaymentView::No
    } else {
        PaymentView::Yes(simple_tap_order(cost, s))
    }
}

/// The simple resolver's byte counters do not overflow.
pub open spec fn simple_accepts(s: Seq<ManaSource>) -> bool {
    &&& count(s, fixed_pred(ManaColor::White)) <= 255
    &&& count(s, fixed_pred(ManaColor::Blue)) <= 255
    &&& count(s, fixed_pred(ManaColor::Black)) <= 255
    &&& count(s, fixed_pred(ManaColor::Red)) <= 255
    &&& count(s, fixed_pred(ManaColor::Green)) <= 255
    &&& count(s, colorless_pred()) <= 255
}

/// Resolver for sources that each produce one fixed kind of mana (basic lands,
/// Wastes). Any available source with a choice of colors makes it answer `Maybe`.
pub struct SimpleManaResolver;

impl SimpleManaResolver {
    pub fn new() -> (r: Self) {
        SimpleManaResolver
    }
}

proof fn lemma_simple_count(s: Seq<ManaSource>)
    ensures
        count(s, simple_pred()) == count(s, fixed_pred(ManaColor::White)) + count(s, fixed_pred(ManaColor::Blue))
            + count(s, fixed_pred(ManaColor::Black)) + count(s, fixed_pred(ManaColor::Red)) + count(
            s,
            fixed_pred(ManaColor::Green),
        ) + count(s, colorless_pred()),
    decreases s.len(),
{
    if s.len() > 0 {
        lemma_simple_count(s.drop_last());
    }
}

impl ManaPaymentResolver for SimpleManaResolver {
    open spec fn accepts(&self, cost: ManaCost, sources: Seq<ManaSource>) -> bool {
        simple_accepts(sources)
    }

    open spec fn payment(&self, cost: ManaCost, sources: Seq<ManaSource>) -> PaymentView {
        simple_payment(cost, sources)
    }

    fn check_payment(&self, cost: &ManaCost, sources: &[ManaSource]) -> (r: PaymentResult) {
        let ghost s = sources@;
        let mut white: u8 = 0;
        let mut blue: u8 = 0;
        let mut black: u8 = 0;
        let mut red: u8 = 0;
        let mut green: u8 = 0;
        let mut colorless: u8 = 0;
        let mut complex: usize = 0;
        let mut i: usize = 0;
        proof {
            assert(s.take(0) =~= Seq::<ManaSource>::empty());
        }
        while i < sources.len()
            invariant
                s == sources@,
                simple_accepts(s),
                i <= sources.len(),
                white == count(s.take(i as int), fixed_pred(ManaColor::White)),
                blue == count(s.take(i as int), fixed_pred(ManaColor::Blue)),
                black == count(s.take(i as int), fixed_pred(ManaColor::Black)),
                red == count(s.take(i as int), fixed_pred(ManaColor::Red)),
                green == count(s.take(i as int), fixed_pred(ManaColor::Green)),
                colorless == count(s.take(i as int), colorless_pred()),
                complex == count(s.take(i as int), complex_pred()),
                complex <= i,
            decreases sources.len() - i,
        {
            let source = &sources[i];
            proof {
                lemma_count_step(s, fixed_pred(ManaColor::White), i as int);
                lemma_count_step(s, fixed_pred(ManaColor::Blue), i as int);
                lemma_count_step(s, fixed_pred(ManaColor::Black), i as int);
                lemma_count_step(s, fixed_pred(ManaColor::Red), i as int);
                lemma_count_step(s, fixed_pred(ManaColor::Green), i as int);
                lemma_count_step(s, colorless_pred(), i as int);
                lemma_count_step(s, complex_pred(), i as int);
                lemma_count_prefix(s, fixed_pred(ManaColor::White), i + 1);
                lemma_count_prefix(s, fixed_pred(ManaColor::Blue), i + 1);
                lemma_count_prefix(s, fixed_pred(ManaColor::Black), i + 1);
                lemma_count_prefix(s, fixed_pred(ManaColor::Red), i + 1);
                lemma_count_prefix(s, fixed_pred(ManaColor::Green), i + 1);
                lemma_count_prefix(s, colorless_pred(), i + 1);
            }
            if !source.is_tapped && !source.has_summoning_sickness {
                match &source.production.kind {
                    ManaProductionKind::Fixed(color) => match color {
                        ManaColor::White => white = white + 1,
                        ManaColor::Blue => blue = blue + 1,
                        ManaColor::Black => black = black + 1,
                        ManaColor::Red => red = red + 1,
                        ManaColor::Green => green = green + 1,
                    },
                    ManaProductionKind::Colorless => colorless = colorless + 1,
                    _ => complex = complex + 1,
                }
            }
            i = i + 1;
        }
        proof {
            assert(s.take(s.len() as int) =~= s);
            lemma_simple_count(s);
        }
        if complex > 0 {
            return PaymentResult::Maybe;
        }
        if cost.white > white || cost.blue > blue || cost.black > black || cost.red > red
            || cost.green > green || cost.colorless > colorless {
            return PaymentResult::No;
        }
        let total = white.saturating_add(blue).saturating_add(black).saturating_add(red).saturating_add(
            green,
        ).saturating_add(colorless);
        let used = cost.white.saturating_add(cost.blue).saturating_add(cost.black).saturating_add(
            cost.red,
        ).saturating_add(cost.green).saturating_add(cost.colorless);
        let remaining = total.saturating_sub(used);
        if remaining < cost.generic {
            return PaymentResult::No;
        }
        let mut tap_order: Vec<CardId> = Vec::new();
        tap_matching(sources, 0, ManaColor::White, cost.white, &mut tap_order);
        tap_matching(sources, 1, ManaColor::Blue, cost.blue, &mut tap_order);
        tap_matching(sources, 2, ManaColor::Black, cost.black, &mut tap_order);
        tap_matching(sources, 3, ManaColor::Red, cost.red, &mut tap_order);
        tap_matching(sources, 4, ManaColor::Green, cost.green, &mut tap_order);
        tap_matching(sources, 5, ManaColor::White, cost.colorless, &mut tap_order);
        tap_matching(sources, 6, ManaColor::White, cost.generic, &mut tap_order);
        PaymentResult::Yes(tap_order)
    }
}


// ---------------------------------------------------------------------------
// GreedyManaResolver
// ---------------------------------------------------------------------------

/// Preference of a source for paying a color: lower is tapped first. A fixed
/// source of that color scores 0, a source with a choice scores the number of
/// colors it offers (as a byte), an any-color source 100, anything else 255.
pub open spec fn score_for(p: ManaProduction, c: ManaColor) -> u8 {
    match p.kind {
        ManaProductionKind::Fixed(x) => if x == c { 0 } else { 255 },
        ManaProductionKind::Choice(v) => if v@.contains(c) { v@.len() as u8 } else { 255 },
        ManaProductionKind::AnyColor => 100,
        ManaProductionKind::Colorless => 255,
    }
}

/// Sources that may pay a color given the ids already chosen.
pub open spec fn cand_pred(c: ManaColor, acc: Seq<CardId>) -> spec_fn(ManaSource) -> bool {
    |s: ManaSource| available(s) && !acc.contains(s.card_id) && can_produce(s.production, c)
}

/// Indices, in increasing order, of the sources satisfying a predicate.
pub open spec fn indices_where(s: Seq<ManaSource>, p: spec_fn(ManaSource) -> bool) -> Seq<int>
    decreases s.len(),
{
    if s.len() == 0 {
        Seq::empty()
    } else {
        let prev = indices_where(s.drop_last(), p);
        if p(s.last()) { prev.push(s.len() - 1) } else { prev }
    }
}

/// The indices among `idx` whose source scores exactly `v` for color `c`, in order.
pub open spec fn with_score(s: Seq<ManaSource>, idx: Seq<int>, c: ManaColor, v: int) -> Seq<int>
    decreases idx.len(),
{
    if idx.len() == 0 {
        Seq::empty()
    } else {
        let prev = with_score(s, idx.drop_last(), c, v);
        if score_for(s[idx.last()].production, c) == v { prev.push(idx.last()) } else { prev }
    }
}

/// Stable sort of `idx` by score, restricted to scores below `v`.
pub open spec fn sorted_below(s: Seq<ManaSource>, idx: Seq<int>, c: ManaColor, v: nat) -> Seq<int>
    decreases v,
{
    if v == 0 {
        Seq::empty()
    } else {
        sorted_below(s, idx, c, (v - 1) as nat) + with_score(s, idx, c, v - 1)
    }
}

/// The candidates for a color, stably sorted by score.
pub open spec fn color_order(s: Seq<ManaSource>, c: ManaColor, acc: Seq<CardId>) -> Seq<int> {
    sorted_below(s, indices_where(s, cand_pred(c, acc)), c, 256)
}

/// The ids of the sources at the given indices.
pub open spec fn ids_at(s: Seq<ManaSource>, idx: Seq<int>) -> Seq<CardId> {
    idx.map_values(|i: int| s[i].card_id)
}

/// One color step of the greedy payment: tap the `amount` best candidates, or
/// fail when there are fewer.
pub open spec fn greedy_color_step(s: Seq<ManaSource>, c: ManaColor, amount: u8, acc: Option<Seq<CardId>>) -> Option<Seq<CardId>> {
    match acc {
        None => None,
        Some(a) => if amount == 0 {
            Some(a)
        } else {
            let o = color_order(s, c, a);
            if o.len() >= amount { Some(a + ids_at(s, o.take(amount as int))) } else { None }
        },
    }
}

/// A step that picks sources in input order, failing if fewer than `amount` are found.
pub open spec fn greedy_pick_step(s: Seq<ManaSource>, p: spec_fn(ManaSource) -> bool, amount: u8, acc: Option<Seq<CardId>>) -> Option<Seq<CardId>> {
    match acc {
        None => None,
        Some(a) => if amount == 0 {
            Some(a)
        } else {
            let t = pick(s, p, amount as nat, a);
            if t.len() - a.len() < amount { None } else { Some(t) }
        },
    }
}

/// The greedy payment: colors W, U, B, R, G by preference order, then colorless
/// sources in input order, then any available sources in input order.
pub open spec fn greedy_tap_order(cost: ManaCost, s: Seq<ManaSource>) -> Option<Seq<CardId>> {
    let t1 = greedy_color_step(s, ManaColor::White, cost.white, Some(Seq::empty()));
    let t2 = greedy_color_step(s, ManaColor::Blue, cost.blue, t1);
    let t3 = greedy_color_step(s, ManaColor::Black, cost.black, t2);
    let t4 = greedy_color_step(s, ManaColor::Red, cost.red, t3);
    let t5 = greedy_color_step(s, ManaColor::Green, cost.green, t4);
    let t6 = greedy_pick_step(s, colorless_pred(), cost.colorless, t5);
    greedy_pick_step(s, avail_pred(), cost.generic, t6)
}

/// Sum of the net deltas of the available sources.
pub open spec fn delta_sum(s: Seq<ManaSource>) -> int
    decreases s.len(),
{
    if s.len() == 0 {
        0
    } else {
        delta_sum(s.drop_last()) + if available(s.last()) { spec_net_delta(s.last().production) } else { 0 }
    }
}

/// Number of occurrences of a color in a list.
pub open spec fn occurrences(v: Seq<ManaColor>, c: ManaColor) -> nat
    decreases v.len(),
{
    if v.len() == 0 {
        0
    } else {
        occurrences(v.drop_last(), c) + if v.last() == c { 1nat } else { 0nat }
    }
}

/// Upper bound on the mana of a color one source contributes, ignoring costs:
/// a choice land counts once per listed occurrence of the color.
pub open spec fn color_weight(s: ManaSource, c: ManaColor) -> nat {
    if !available(s) {
        0
    } else {
        match s.production.kind {
            ManaProductionKind::Fixed(x) => if x == c { 1 } else { 0 },
            ManaProductionKind::Choice(v) => occurrences(v@, c),
            ManaProductionKind::AnyColor => 1,
            ManaProductionKind::Colorless => 0,
        }
    }
}

/// Upper bound on the mana of a color all sources contribute.
pub open spec fn max_color(s: Seq<ManaSource>, c: ManaColor) -> nat
    decreases s.len(),
{
    if s.len() == 0 {
        0
    } else {
        max_color(s.drop_last(), c) + color_weight(s.last(), c)
    }
}

/// The total available mana (net of activation costs) reaches the cost.
pub open spec fn delta_ok(cost: ManaCost, s: Seq<ManaSource>) -> bool {
    delta_sum(s) >= u8_cap(cost.total())
}

/// Each colored and the colorless requirement is within the upper bounds.
pub open spec fn colors_ok(cost: ManaCost, s: Seq<ManaSource>) -> bool {
    &&& cost.white <= max_color(s, ManaColor::White)
    &&& cost.blue <= max_color(s, ManaColor::Blue)
    &&& cost.black <= max_color(s, ManaColor::Black)
    &&& cost.red <= max_color(s, ManaColor::Red)
    &&& cost.green <= max_color(s, ManaColor::Green)
    &&& cost.colorless <= count(s, colorless_pred())
}

/// What the greedy resolver answers.
pub open spec fn greedy_payment(cost: ManaCost, s: Seq<ManaSource>) -> PaymentView {
    if !delta_ok(cost, s) || !colors_ok(cost, s) {
        PaymentView::No
    } else {
        match greedy_tap_order(cost, s) {
            Some(t) => PaymentView::Yes(t),
            None => PaymentView::Maybe,
        }
    }
}

/// What the greedy resolver's quick check answers.
pub open spec fn greedy_quick(cost: ManaCost, s: Seq<ManaSource>) -> PaymentView {
    if !delta_ok(cost, s) || !colors_ok(cost, s) { PaymentView::No } else { PaymentView::Maybe }
}

/// The greedy resolver's counters do not overflow: every available source's
/// delta fits a signed byte, every running delta sum fits `i16`, and when the
/// delta check passes every color bound fits a byte.
pub open spec fn greedy_accepts(cost: ManaCost, s: Seq<ManaSource>) -> bool {
    &&& forall|i: int| 0 <= i < s.len() && available(#[trigger] s[i]) ==> net_delta_fits(s[i].production)
    &&& forall|k: int| 0 <= k <= s.len() ==> -32768 <= #[trigger] delta_sum(s.take(k)) <= 32767
    &&& delta_ok(cost, s) ==> {
        &&& max_color(s, ManaColor::White) <= 255
        &&& max_color(s, ManaColor::Blue) <= 255
        &&& max_color(s, ManaColor::Black) <= 255
        &&& max_color(s, ManaColor::Red) <= 255
        &&& max_color(s, ManaColor::Green) <= 255
        &&& count(s, colorless_pred()) <= 255
    }
}

/// Resolver for dual lands, any-color lands and mana creatures, paying each
/// color with the most specific sources first.
pub struct GreedyManaResolver;

impl GreedyManaResolver {
    pub fn new() -> (r: Self) {
        GreedyManaResolver
    }

    /// Whether a production can yield a color.
    pub fn can_produce_color(production: &ManaProduction, color: ManaColor) -> (r: bool)
        ensures
            r == can_produce(*production, color),
    {
        match &production.kind {
            ManaProductionKind::Fixed(c) => c.same(color),
            ManaProductionKind::Choice(colors) => contains_color(colors, color),
            ManaProductionKind::AnyColor => true,
            ManaProductionKind::Colorless => false,
        }
    }

    /// Preference score of a production for a color (lower is tapped first).
    pub fn score_for_color(production: &ManaProduction, color: ManaColor) -> (r: u8)
        ensures
            r == score_for(*production, color),
    {
        match &production.kind {
            ManaProductionKind::Fixed(c) => if c.same(color) { 0 } else { 255 },
            ManaProductionKind::Choice(colors) => if contains_color(colors, color) {
                colors.len() as u8
            } else {
                255
            },
            ManaProductionKind::AnyColor => 100,
            ManaProductionKind::Colorless => 255,
        }
    }
}

/// Whether a color occurs in a list.
pub fn contains_color(v: &Vec<ManaColor>, c: ManaColor) -> (r: bool)
    ensures
        r == v@.contains(c),
{
    let mut i: usize = 0;
    while i < v.len()
        invariant
            i <= v.len(),
            forall|j: int| 0 <= j < i ==> v@[j] != c,
        decreases v.len() - i,
    {
        if v[i].same(c) {
            return true;
        }
        i = i + 1;
    }
    false
}


proof fn lemma_occurrences_prefix(v: Seq<ManaColor>, c: ManaColor, i: int)
    requires
        0 <= i <= v.len(),
    ensures
        occurrences(v.take(i), c) <= occurrences(v, c),
    decreases v.len() - i,
{
    if i < v.len() {
        assert(v.take(i + 1).drop_last() =~= v.take(i));
        lemma_occurrences_prefix(v, c, i + 1);
    } else {
        assert(v.take(i) =~= v);
    }
}

/// Number of occurrences of a color in a list, when it fits a byte.
fn occurrences_exec(v: &Vec<ManaColor>, c: ManaColor) -> (r: u8)
    requires
        occurrences(v@, c) <= 255,
    ensures
        r == occurrences(v@, c),
{
    let mut n: u8 = 0;
    let mut i: usize = 0;
    proof {
        assert(v@.take(0) =~= Seq::<ManaColor>::empty());
    }
    while i < v.len()
        invariant
            i <= v.len(),
            occurrences(v@, c) <= 255,
            n == occurrences(v@.take(i as int), c),
        decreases v.len() - i,
    {
        proof {
            assert(v@.take(i + 1).drop_last() =~= v@.take(i as int));
            lemma_occurrences_prefix(v@, c, i + 1);
        }
        if v[i].same(c) {
            n = n + 1;
        }
        i = i + 1;
    }
    proof {
        assert(v@.take(v@.len() as int) =~= v@);
    }
    n
}

proof fn lemma_max_color_prefix(s: Seq<ManaSource>, c: ManaColor, i: int)
    requires
        0 <= i <= s.len(),
    ensures
        max_color(s.take(i), c) <= max_color(s, c),
    decreases s.len() - i,
{
    if i < s.len() {
        assert(s.take(i + 1).drop_last() =~= s.take(i));
        lemma_max_color_prefix(s, c, i + 1);
    } else {
        assert(s.take(i) =~= s);
    }
}

/// Upper bound on the mana of one color the sources can produce.
fn max_color_exec(sources: &[ManaSource], c: ManaColor) -> (r: u8)
    requires
        max_color(sources@, c) <= 255,
    ensures
        r == max_color(sources@, c),
{
    let ghost s = sources@;
    let mut n: u8 = 0;
    let mut i: usize = 0;
    proof {
        assert(s.take(0) =~= Seq::<ManaSource>::empty());
    }
    while i < sources.len()
        invariant
            s == sources@,
            i <= sources.len(),
            max_color(s, c) <= 255,
            n == max_color(s.take(i as int), c),
        decreases sources.len() - i,
    {
        proof {
            assert(s.take(i + 1).drop_last() =~= s.take(i as int));
            lemma_max_color_prefix(s, c, i + 1);
        }
        let source = &sources[i];
        if !source.is_tapped && !source.has_summoning_sickness {
            match &source.production.kind {
                ManaProductionKind::Fixed(x) => {
                    if x.same(c) {
                        n = n + 1;
                    }
                },
                ManaProductionKind::Choice(colors) => {
                    let k = occurrences_exec(colors, c);
                    n = n + k;
                },
                ManaProductionKind::AnyColor => {
                    n = n + 1;
                },
                ManaProductionKind::Colorless => {},
            }
        }
        i = i + 1;
    }
    proof {
        assert(s.take(s.len() as int) =~= s);
    }
    n
}

/// Number of available colorless sources.
fn colorless_count_exec(sources: &[ManaSource]) -> (r: u8)
    requires
        count(sources@, colorless_pred()) <= 255,
    ensures
        r == count(sources@, colorless_pred()),
{
    let ghost s = sources@;
    let mut n: u8 = 0;
    let mut i: usize = 0;
    proof {
        assert(s.take(0) =~= Seq::<ManaSource>::empty());
    }
    while i < sources.len()
        invariant
            s == sources@,
            i <= sources.len(),
            count(s, colorless_pred()) <= 255,
            n == count(s.take(i as int), colorless_pred()),
        decreases sources.len() - i,
    {
        proof {
            lemma_count_step(s, colorless_pred(), i as int);
            lemma_count_prefix(s, colorless_pred(), i + 1);
        }
        let source = &sources[i];
        if !source.is_tapped && !source.has_summoning_sickness {
            match &source.production.kind {
                ManaProductionKind::Colorless => {
                    n = n + 1;
                },
                _ => {},
            }
        }
        i = i + 1;
    }
    proof {
        assert(s.take(s.len() as int) =~= s);
    }
    n
}

/// The bounds checks shared by `check_payment` and `quick_check`: enough total
/// mana net of activation costs, and enough of each required color ignoring
/// activation costs.
fn greedy_bounds(cost: &ManaCost, sources: &[ManaSource]) -> (r: bool)
    requires
        greedy_accepts(*cost, sources@),
    ensures
        r == (delta_ok(*cost, sources@) && colors_ok(*cost, sources@)),
{
    let ghost s = sources@;
    let mut available_delta: i16 = 0;
    let mut i: usize = 0;
    proof {
        assert(s.take(0) =~= Seq::<ManaSource>::empty());
    }
    while i < sources.len()
        invariant
            s == sources@,
            greedy_accepts(*cost, s),
            i <= sources.len(),
            available_delta == delta_sum(s.take(i as int)),
        decreases sources.len() - i,
    {
        proof {
            assert(s.take(i + 1).drop_last() =~= s.take(i as int));
            assert(-32768 <= delta_sum(s.take(i + 1)) <= 32767);
        }
        let source = &sources[i];
        if !source.is_tapped && !source.has_summoning_sickness {
            proof {
                assert(available(s[i as int]));
            }
            let d = source.production.net_delta();
            available_delta = available_delta + d as i16;
        }
        i = i + 1;
    }
    proof {
        assert(s.take(s.len() as int) =~= s);
    }
    let needed = cost.white.saturating_add(cost.blue).saturating_add(cost.black).saturating_add(
        cost.red,
    ).saturating_add(cost.green).saturating_add(cost.colorless).saturating_add(cost.generic);
    if available_delta < needed as i16 {
        return false;
    }
    let max_white = max_color_exec(sources, ManaColor::White);
    let max_blue = max_color_exec(sources, ManaColor::Blue);
    let max_black = max_color_exec(sources, ManaColor::Black);
    let max_red = max_color_exec(sources, ManaColor::Red);
    let max_green = max_color_exec(sources, ManaColor::Green);
    let max_colorless = colorless_count_exec(sources);
    !(cost.white > max_white || cost.blue > max_blue || cost.black > max_black || cost.red > max_red
        || cost.green > max_green || cost.colorless > max_colorless)
}

proof fn lemma_indices_step(s: Seq<ManaSource>, p: spec_fn(ManaSource) -> bool, i: int)
    requires
        0 <= i < s.len(),
    ensures
        indices_where(s.take(i + 1), p) == if p(s[i]) {
            indices_where(s.take(i), p).push(i)
        } else {
            indices_where(s.take(i), p)
        },
{
    assert(s.take(i + 1).drop_last() =~= s.take(i));
}

proof fn lemma_with_score_step(s: Seq<ManaSource>, idx: Seq<int>, c: ManaColor, v: int, k: int)
    requires
        0 <= k < idx.len(),
    ensures
        with_score(s, idx.take(k + 1), c, v) == if score_for(s[idx[k]].production, c) == v {
            with_score(s, idx.take(k), c, v).push(idx[k])
        } else {
            with_score(s, idx.take(k), c, v)
        },
{
    assert(idx.take(k + 1).drop_last() =~= idx.take(k));
}

/// Taps the `amount` best sources for a color: the candidates (available, not
/// yet chosen, able to produce the color) stably sorted by score.
fn tap_for_color(sources: &[ManaSource], color: ManaColor, amount: u8, tap_order: &mut Vec<CardId>) -> (ok: bool)
    ensures
        ok == (color_order(sources@, color, old(tap_order)@).len() >= amount),
        ok ==> final(tap_order)@ == old(tap_order)@ + ids_at(
            sources@,
            color_order(sources@, color, old(tap_order)@).take(amount as int),
        ),
{
    let ghost s = sources@;
    let ghost acc = tap_order@;
    let ghost p = cand_pred(color, acc);
    let mut cands: Vec<usize> = Vec::new();
    let mut i: usize = 0;
    proof {
        assert(s.take(0) =~= Seq::<ManaSource>::empty());
    }
    while i < sources.len()
        invariant
            s == sources@,
            acc == tap_order@,
            p == cand_pred(color, acc),
            i <= sources.len(),
            cands@.len() == indices_where(s.take(i as int), p).len(),
            forall|k: int| 0 <= k < cands@.len() ==> cands@[k] as int == #[trigger] indices_where(s.take(i as int), p)[k],
            forall|k: int| 0 <= k < cands@.len() ==> #[trigger] cands@[k] < i,
        decreases sources.len() - i,
    {
        proof {
            lemma_indices_step(s, p, i as int);
        }
        let source = &sources[i];
        if !source.is_tapped && !source.has_summoning_sickness && !contains_id(tap_order, source.card_id)
            && GreedyManaResolver::can_produce_color(&source.production, color) {
            cands.push(i);
        }
        i = i + 1;
    }
    proof {
        assert(s.take(s.len() as int) =~= s);
    }
    let ghost idx = indices_where(s, p);
    let mut taken: u8 = 0;
    let mut v: u16 = 0;
    proof {
        assert(sorted_below(s, idx, color, 0) =~= Seq::<int>::empty());
        assert(ids_at(s, Seq::<int>::empty()) =~= Seq::<CardId>::empty());
        assert(acc + Seq::<CardId>::empty() =~= acc);
    }
    while v < 256
        invariant
            s == sources@,
            idx == indices_where(s, p),
            cands@.len() == idx.len(),
            forall|k: int| 0 <= k < cands@.len() ==> cands@[k] as int == #[trigger] idx[k],
            forall|k: int| 0 <= k < cands@.len() ==> #[trigger] cands@[k] < sources@.len(),
            v <= 256,
            taken <= amount,
            taken as int == if amount <= sorted_below(s, idx, color, v as nat).len() {
                amount as int
            } else {
                sorted_below(s, idx, color, v as nat).len() as int
            },
            tap_order@ == acc + ids_at(s, sorted_below(s, idx, color, v as nat).take(taken as int)),
        decreases 256 - v,
    {
        let ghost before = sorted_below(s, idx, color, v as nat);
        let mut k: usize = 0;
        proof {
            assert(idx.take(0) =~= Seq::<int>::empty());
            assert(before + with_score(s, idx.take(0), color, v as int) =~= before);
        }
        while k < cands.len()
            invariant
                s == sources@,
                cands@.len() == idx.len(),
                forall|j: int| 0 <= j < cands@.len() ==> cands@[j] as int == #[trigger] idx[j],
                forall|j: int| 0 <= j < cands@.len() ==> #[trigger] cands@[j] < sources@.len(),
                k <= cands.len(),
                taken <= amount,
                taken as int == if amount <= (before + with_score(s, idx.take(k as int), color, v as int)).len() {
                    amount as int
                } else {
                    (before + with_score(s, idx.take(k as int), color, v as int)).len() as int
                },
                tap_order@ == acc + ids_at(
                    s,
                    (before + with_score(s, idx.take(k as int), color, v as int)).take(taken as int),
                ),
            decreases cands.len() - k,
        {
            let j = cands[k];
            proof {
                lemma_with_score_step(s, idx, color, v as int, k as int);
            }
            let ghost old_list = before + with_score(s, idx.take(k as int), color, v as int);
            let sc = GreedyManaResolver::score_for_color(&sources[j].production, color);
            if sc as u16 == v {
                proof {
                    assert(before + with_score(s, idx.take(k + 1), color, v as int) =~= old_list.push(j as int));
                }
                if taken < amount {
                    proof {
                        assert(old_list.push(j as int).take(taken + 1) =~= old_list.take(taken as int).push(
                            j as int,
                        ));
                        assert(ids_at(s, old_list.take(taken as int).push(j as int)) =~= ids_at(
                            s,
                            old_list.take(taken as int),
                        ).push(s[j as int].card_id));
                    }
                    tap_order.push(sources[j].card_id);
                    taken = taken + 1;
                } else {
                    proof {
                        assert(old_list.push(j as int).take(taken as int) =~= old_list.take(taken as int));
                    }
                }
            }
            k = k + 1;
        }
        proof {
            assert(idx.take(idx.len() as int) =~= idx);
        }
        v = v + 1;
    }
    taken >= amount
}

impl GreedyManaResolver {
    /// The greedy payment: returns the tap order, or `None` when some step
    /// cannot find enough sources.
    pub fn try_greedy_payment(&self, cost: &ManaCost, sources: &[ManaSource]) -> (r: Option<Vec<CardId>>)
        ensures
            match greedy_tap_order(*cost, sources@) {
                Some(t) => r is Some && r->0@ == t,
                None => r is None,
            },
    {
        let mut tap_order: Vec<CardId> = Vec::new();
        if cost.white > 0 && !tap_for_color(sources, ManaColor::White, cost.white, &mut tap_order) {
            return None;
        }
        if cost.blue > 0 && !tap_for_color(sources, ManaColor::Blue, cost.blue, &mut tap_order) {
            return None;
        }
        if cost.black > 0 && !tap_for_color(sources, ManaColor::Black, cost.black, &mut tap_order) {
            return None;
        }
        if cost.red > 0 && !tap_for_color(sources, ManaColor::Red, cost.red, &mut tap_order) {
            return None;
        }
        if cost.green > 0 && !tap_for_color(sources, ManaColor::Green, cost.green, &mut tap_order) {
            return None;
        }
        if cost.colorless > 0 {
            let t = tap_matching(sources, 5, ManaColor::White, cost.colorless, &mut tap_order);
            if t < cost.colorless {
                return None;
            }
        }
        if cost.generic > 0 {
            let t = tap_matching(sources, 7, ManaColor::White, cost.generic, &mut tap_order);
            if t < cost.generic {
                return None;
            }
        }
        Some(tap_order)
    }
}

impl ManaPaymentResolver for GreedyManaResolver {
    open spec fn accepts(&self, cost: ManaCost, sources: Seq<ManaSource>) -> bool {
        greedy_accepts(cost, sources)
    }

    open spec fn payment(&self, cost: ManaCost, sources: Seq<ManaSource>) -> PaymentView {
        greedy_payment(cost, sources)
    }

    fn check_payment(&self, cost: &ManaCost, sources: &[ManaSource]) -> (r: PaymentResult) {
        if !greedy_bounds(cost, sources) {
            return PaymentResult::No;
        }
        match self.try_greedy_payment(cost, sources) {
            Some(tap_order) => PaymentResult::Yes(tap_order),
            None => PaymentResult::Maybe,
        }
    }

    fn quick_check(&self, cost: &ManaCost, sources: &[ManaSource]) -> (r: PaymentResult)
        ensures
            r@ == greedy_quick(*cost, sources@),
    {
        if !greedy_bounds(cost, sources) {
            PaymentResult::No
        } else {
            PaymentResult::Maybe
        }
    }
}


// ---------------------------------------------------------------------------
// Laws: a `Yes` answer is a real payment
// ---------------------------------------------------------------------------

/// No two sources share a card id.
pub open spec fn distinct_ids(s: Seq<ManaSource>) -> bool {
    forall|i: int, j: int| 0 <= i < s.len() && 0 <= j < s.len() && i != j ==> s[i].card_id != s[j].card_id
}

/// What the `k`-th tapped source must provide: the first `white` sources pay
/// white, then blue, black, red, green, then colorless, and the rest generic.
pub open spec fn slot_ok(cost: ManaCost, k: int, src: ManaSource) -> bool {
    let w = cost.white as int;
    let u = w + cost.blue;
    let b = u + cost.black;
    let r = b + cost.red;
    let g = r + cost.green;
    let c = g + cost.colorless;
    if k < w {
        can_produce(src.production, ManaColor::White)
    } else if k < u {
        can_produce(src.production, ManaColor::Blue)
    } else if k < b {
        can_produce(src.production, ManaColor::Black)
    } else if k < r {
        can_produce(src.production, ManaColor::Red)
    } else if k < g {
        can_produce(src.production, ManaColor::Green)
    } else if k < c {
        is_colorless(src)
    } else {
        true
    }
}

/// The `k`-th id of `t` belongs to an available source suited to its slot.
pub open spec fn slot_filled(cost: ManaCost, s: Seq<ManaSource>, t: Seq<CardId>, k: int) -> bool {
    exists|i: int| 0 <= i < s.len() && #[trigger] s[i].card_id == t[k] && available(s[i]) && slot_ok(cost, k, s[i])
}

/// Every id of `t` is a distinct available source suited to its slot.
pub open spec fn pays_prefix(cost: ManaCost, s: Seq<ManaSource>, t: Seq<CardId>) -> bool {
    &&& t.no_duplicates()
    &&& forall|k: int| 0 <= k < t.len() ==> slot_filled(cost, s, t, k)
}

/// Tapping `t` pays `cost` exactly: one distinct available source per mana
/// symbol, each able to produce what its symbol asks for.
pub open spec fn pays(cost: ManaCost, s: Seq<ManaSource>, t: Seq<CardId>) -> bool {
    t.len() == cost.total() && pays_prefix(cost, s, t)
}

/// The ids added to `acc` by `pick` are new, distinct, and belong to sources
/// satisfying the predicate.
proof fn lemma_pick_props(s: Seq<ManaSource>, p: spec_fn(ManaSource) -> bool, n: nat, acc: Seq<CardId>)
    ensures
        ({
            let t = pick(s, p, n, acc);
            &&& t.len() >= acc.len()
            &&& t.subrange(0, acc.len() as int) == acc
            &&& forall|k: int| acc.len() <= k < t.len() ==> !acc.contains(#[trigger] t[k])
            &&& forall|k1: int, k2: int| acc.len() <= k1 < t.len() && acc.len() <= k2 < t.len() && k1 != k2 ==> t[k1] != t[k2]
            &&& forall|k: int| #![trigger t[k]] acc.len() <= k < t.len() ==> exists|i: int| 0 <= i < s.len() && #[trigger] s[i].card_id == t[k] && p(s[i])
        }),
    decreases s.len(),
{
    lemma_pick_extends(s, p, n, acc);
    if s.len() > 0 {
        let s2 = s.drop_last();
        lemma_pick_props(s2, p, n, acc);
        let prev = pick(s2, p, n, acc);
        let t = pick(s, p, n, acc);
        let x = s.last();
        assert forall|k: int| #![trigger prev[k]] acc.len() <= k < prev.len() implies exists|i: int| 0 <= i < s.len() && #[trigger] s[i].card_id == prev[k] && p(s[i]) by {
            let i = choose|i: int| 0 <= i < s2.len() && #[trigger] s2[i].card_id == prev[k] && p(s2[i]);
            assert(s[i] == s2[i]);
        }
        if prev.len() - acc.len() < n && p(x) && !prev.contains(x.card_id) {
            assert(t == prev.push(x.card_id));
            assert(t[t.len() - 1] == s[s.len() - 1].card_id);
            assert forall|k: int| acc.len() <= k < t.len() implies !acc.contains(#[trigger] t[k]) by {
                if k == t.len() - 1 {
                    if acc.contains(x.card_id) {
                        let j = choose|j: int| 0 <= j < acc.len() && acc[j] == x.card_id;
                        assert(prev.subrange(0, acc.len() as int)[j] == prev[j]);
                        assert(prev.contains(x.card_id));
                    }
                } else {
                    assert(t[k] == prev[k]);
                }
            }
            assert forall|k1: int, k2: int| acc.len() <= k1 < t.len() && acc.len() <= k2 < t.len() && k1 != k2 implies t[k1] != t[k2] by {
                if k1 == t.len() - 1 {
                    assert(t[k2] == prev[k2]);
                    assert(prev.contains(prev[k2]));
                } else if k2 == t.len() - 1 {
                    assert(t[k1] == prev[k1]);
                    assert(prev.contains(prev[k1]));
                } else {
                    assert(t[k1] == prev[k1]);
                    assert(t[k2] == prev[k2]);
                }
            }
            assert forall|k: int| #![trigger t[k]] acc.len() <= k < t.len() implies exists|i: int| 0 <= i < s.len() && #[trigger] s[i].card_id == t[k] && p(s[i]) by {
                if k == t.len() - 1 {
                    assert(s[s.len() - 1].card_id == t[k]);
                } else {
                    assert(t[k] == prev[k]);
                }
            }
        }
    }
}


/// Sources satisfying `p` whose id is not in `acc`.
pub open spec fn excl(p: spec_fn(ManaSource) -> bool, acc: Seq<CardId>) -> spec_fn(ManaSource) -> bool {
    |x: ManaSource| p(x) && !acc.contains(x.card_id)
}

proof fn lemma_count_ext(s: Seq<ManaSource>, p1: spec_fn(ManaSource) -> bool, p2: spec_fn(ManaSource) -> bool)
    requires
        forall|i: int| 0 <= i < s.len() ==> p1(#[trigger] s[i]) == p2(s[i]),
    ensures
        count(s, p1) == count(s, p2),
    decreases s.len(),
{
    if s.len() > 0 {
        let s2 = s.drop_last();
        assert forall|i: int| 0 <= i < s2.len() implies p1(#[trigger] s2[i]) == p2(s2[i]) by {
            assert(s2[i] == s[i]);
        }
        lemma_count_ext(s2, p1, p2);
        assert(s.last() == s[s.len() - 1]);
    }
}

proof fn lemma_distinct_drop_last(s: Seq<ManaSource>)
    requires
        distinct_ids(s),
        s.len() > 0,
    ensures
        distinct_ids(s.drop_last()),
        forall|i: int| 0 <= i < s.len() - 1 ==> #[trigger] s[i].card_id != s.last().card_id,
{
    let s2 = s.drop_last();
    assert forall|i: int, j: int| 0 <= i < s2.len() && 0 <= j < s2.len() && i != j implies s2[i].card_id != s2[j].card_id by {
        assert(s2[i] == s[i]);
        assert(s2[j] == s[j]);
    }
}

/// With distinct ids, `pick` adds exactly as many ids as it may (`n`) or as
/// there are eligible sources, whichever is smaller.
proof fn lemma_pick_count(s: Seq<ManaSource>, p: spec_fn(ManaSource) -> bool, n: nat, acc: Seq<CardId>)
    requires
        distinct_ids(s),
    ensures
        pick(s, p, n, acc).len() - acc.len() == if n <= count(s, excl(p, acc)) { n as int } else { count(s, excl(p, acc)) as int },
    decreases s.len(),
{
    lemma_pick_extends(s, p, n, acc);
    if s.len() > 0 {
        let s2 = s.drop_last();
        lemma_distinct_drop_last(s);
        lemma_pick_count(s2, p, n, acc);
        lemma_pick_props(s2, p, n, acc);
        let prev = pick(s2, p, n, acc);
        let x = s.last();
        if p(x) && !acc.contains(x.card_id) {
            if prev.contains(x.card_id) {
                let k = choose|k: int| 0 <= k < prev.len() && prev[k] == x.card_id;
                if k < acc.len() {
                    assert(prev.subrange(0, acc.len() as int)[k] == prev[k]);
                    assert(acc.contains(x.card_id));
                } else {
                    let i = choose|i: int| 0 <= i < s2.len() && #[trigger] s2[i].card_id == prev[k] && p(s2[i]);
                    assert(s2[i] == s[i]);
                }
            }
        } else if p(x) {
            let j = choose|j: int| 0 <= j < acc.len() && acc[j] == x.card_id;
            assert(prev.subrange(0, acc.len() as int)[j] == prev[j]);
            assert(prev.contains(x.card_id));
        }
    }
}

proof fn lemma_count_excl_none(s: Seq<ManaSource>, p: spec_fn(ManaSource) -> bool, acc: Seq<CardId>)
    requires
        forall|i: int| 0 <= i < s.len() && p(#[trigger] s[i]) ==> !acc.contains(s[i].card_id),
    ensures
        count(s, excl(p, acc)) == count(s, p),
{
    assert forall|i: int| 0 <= i < s.len() implies excl(p, acc)(#[trigger] s[i]) == p(s[i]) by {}
    lemma_count_ext(s, excl(p, acc), p);
}

proof fn lemma_count_split(s: Seq<ManaSource>, q: spec_fn(ManaSource) -> bool, e: CardId, i0: int)
    requires
        distinct_ids(s),
        0 <= i0 < s.len(),
        s[i0].card_id == e,
        q(s[i0]),
    ensures
        count(s, q) == count(s, |x: ManaSource| q(x) && x.card_id != e) + 1,
    decreases s.len(),
{
    let q2 = |x: ManaSource| q(x) && x.card_id != e;
    let s2 = s.drop_last();
    lemma_distinct_drop_last(s);
    if i0 == s.len() - 1 {
        assert forall|i: int| 0 <= i < s2.len() implies q(#[trigger] s2[i]) == q2(s2[i]) by {
            assert(s2[i] == s[i]);
        }
        lemma_count_ext(s2, q, q2);
    } else {
        assert(s2[i0] == s[i0]);
        lemma_count_split(s2, q, e, i0);
    }
}

/// Some source satisfying `p` has this id.
pub open spec fn has_source(s: Seq<ManaSource>, id: CardId, p: spec_fn(ManaSource) -> bool) -> bool {
    exists|i: int| 0 <= i < s.len() && #[trigger] s[i].card_id == id && p(s[i])
}

/// With distinct ids, excluding the ids of `acc` (distinct, all belonging to
/// sources satisfying `p`) removes exactly `acc.len()` sources.
proof fn lemma_count_excl_all(s: Seq<ManaSource>, p: spec_fn(ManaSource) -> bool, acc: Seq<CardId>)
    requires
        distinct_ids(s),
        acc.no_duplicates(),
        forall|k: int| 0 <= k < acc.len() ==> has_source(s, #[trigger] acc[k], p),
    ensures
        count(s, excl(p, acc)) + acc.len() == count(s, p),
    decreases acc.len(),
{
    if acc.len() == 0 {
        lemma_count_excl_none(s, p, acc);
    } else {
        let a2 = acc.drop_last();
        let e = acc.last();
        assert forall|k: int| 0 <= k < a2.len() implies has_source(s, #[trigger] a2[k], p) by {
            assert(a2[k] == acc[k]);
        }
        assert(a2.no_duplicates()) by {
            assert forall|i: int, j: int| 0 <= i < a2.len() && 0 <= j < a2.len() && i != j implies a2[i] != a2[j] by {
                assert(a2[i] == acc[i]);
                assert(a2[j] == acc[j]);
            }
        }
        lemma_count_excl_all(s, p, a2);
        assert(acc[acc.len() - 1] == e);
        assert(has_source(s, acc[acc.len() - 1], p));
        let i0 = choose|i: int| 0 <= i < s.len() && #[trigger] s[i].card_id == acc[acc.len() - 1] && p(s[i]);
        assert(!a2.contains(e)) by {
            if a2.contains(e) {
                let j = choose|j: int| 0 <= j < a2.len() && a2[j] == e;
                assert(acc[j] == e);
            }
        }
        lemma_count_split(s, excl(p, a2), e, i0);
        let q2 = |x: ManaSource| excl(p, a2)(x) && x.card_id != e;
        assert forall|i: int| 0 <= i < s.len() implies q2(#[trigger] s[i]) == excl(p, acc)(s[i]) by {
            let id = s[i].card_id;
            if acc.contains(id) && !a2.contains(id) {
                let j = choose|j: int| 0 <= j < acc.len() && acc[j] == id;
                if j < a2.len() {
                    assert(a2[j] == acc[j]);
                }
            }
            if a2.contains(id) {
                let j = choose|j: int| 0 <= j < a2.len() && a2[j] == id;
                assert(acc[j] == a2[j]);
            }
        }
        lemma_count_ext(s, q2, excl(p, acc));
    }
}


proof fn lemma_indices_props(s: Seq<ManaSource>, p: spec_fn(ManaSource) -> bool)
    ensures
        ({
            let r = indices_where(s, p);
            &&& forall|k: int| 0 <= k < r.len() ==> 0 <= #[trigger] r[k] < s.len() && p(s[r[k]])
            &&& forall|k1: int, k2: int| 0 <= k1 < k2 < r.len() ==> r[k1] < r[k2]
        }),
    decreases s.len(),
{
    if s.len() > 0 {
        let s2 = s.drop_last();
        lemma_indices_props(s2, p);
        let prev = indices_where(s2, p);
        assert forall|k: int| 0 <= k < prev.len() implies p(s[#[trigger] prev[k]]) by {
            assert(s2[prev[k]] == s[prev[k]]);
        }
    }
}

proof fn lemma_with_score_props(s: Seq<ManaSource>, idx: Seq<int>, c: ManaColor, v: int)
    requires
        forall|k1: int, k2: int| 0 <= k1 < k2 < idx.len() ==> idx[k1] < idx[k2],
    ensures
        ({
            let r = with_score(s, idx, c, v);
            &&& forall|k: int| 0 <= k < r.len() ==> idx.contains(#[trigger] r[k]) && score_for(s[r[k]].production, c) == v
            &&& forall|k1: int, k2: int| 0 <= k1 < k2 < r.len() ==> r[k1] < r[k2]
            &&& forall|k: int| 0 <= k < r.len() ==> #[trigger] r[k] <= idx.last()
        }),
    decreases idx.len(),
{
    if idx.len() > 0 {
        let i2 = idx.drop_last();
        assert forall|k1: int, k2: int| 0 <= k1 < k2 < i2.len() implies i2[k1] < i2[k2] by {
            assert(i2[k1] == idx[k1]);
            assert(i2[k2] == idx[k2]);
        }
        lemma_with_score_props(s, i2, c, v);
        let prev = with_score(s, i2, c, v);
        assert forall|k: int| 0 <= k < prev.len() implies idx.contains(#[trigger] prev[k]) && prev[k] < idx.last() by {
            let j = choose|j: int| 0 <= j < i2.len() && i2[j] == prev[k];
            assert(idx[j] == i2[j]);
            assert(idx[j] < idx[idx.len() - 1]);
        }
        assert(idx.contains(idx.last())) by {
            assert(idx[idx.len() - 1] == idx.last());
        }
    }
}

proof fn lemma_sorted_props(s: Seq<ManaSource>, idx: Seq<int>, c: ManaColor, v: nat)
    requires
        forall|k1: int, k2: int| 0 <= k1 < k2 < idx.len() ==> idx[k1] < idx[k2],
    ensures
        ({
            let o = sorted_below(s, idx, c, v);
            &&& o.no_duplicates()
            &&& forall|k: int| 0 <= k < o.len() ==> idx.contains(#[trigger] o[k]) && score_for(s[o[k]].production, c) < v
        }),
    decreases v,
{
    if v > 0 {
        lemma_sorted_props(s, idx, c, (v - 1) as nat);
        lemma_with_score_props(s, idx, c, v - 1);
        let a = sorted_below(s, idx, c, (v - 1) as nat);
        let b = with_score(s, idx, c, v - 1);
        let o = a + b;
        assert forall|k: int| 0 <= k < o.len() implies idx.contains(#[trigger] o[k]) && score_for(s[o[k]].production, c) < v by {
            if k < a.len() {
                assert(o[k] == a[k]);
            } else {
                assert(o[k] == b[k - a.len()]);
            }
        }
        assert forall|i: int, j: int| 0 <= i < o.len() && 0 <= j < o.len() && i != j implies o[i] != o[j] by {
            if i < a.len() && j < a.len() {
                assert(o[i] == a[i]);
                assert(o[j] == a[j]);
            } else if i >= a.len() && j >= a.len() {
                assert(o[i] == b[i - a.len()]);
                assert(o[j] == b[j - a.len()]);
                if i < j {
                    assert(b[i - a.len()] < b[j - a.len()]);
                } else {
                    assert(b[j - a.len()] < b[i - a.len()]);
                }
            } else if i < a.len() {
                assert(o[i] == a[i]);
                assert(o[j] == b[j - a.len()]);
                assert(score_for(s[o[j]].production, c) == v - 1);
            } else {
                assert(o[j] == a[j]);
                assert(o[i] == b[i - a.len()]);
                assert(score_for(s[o[i]].production, c) == v - 1);
            }
        }
    }
}

/// Extends a valid partial payment with a segment of new ids, each suited to its slot.
proof fn lemma_extend(cost: ManaCost, s: Seq<ManaSource>, a: Seq<CardId>, t: Seq<CardId>)
    requires
        pays_prefix(cost, s, a),
        t.len() >= a.len(),
        t.subrange(0, a.len() as int) == a,
        forall|k: int| a.len() <= k < t.len() ==> !a.contains(#[trigger] t[k]),
        forall|k1: int, k2: int| a.len() <= k1 < t.len() && a.len() <= k2 < t.len() && k1 != k2 ==> t[k1] != t[k2],
        forall|k: int| a.len() <= k < t.len() ==> slot_filled(cost, s, t, k),
    ensures
        pays_prefix(cost, s, t),
{
    assert forall|k: int| 0 <= k < a.len() implies t[k] == #[trigger] a[k] by {
        assert(t.subrange(0, a.len() as int)[k] == t[k]);
    }
    assert forall|k: int| 0 <= k < t.len() implies slot_filled(cost, s, t, k) by {
        if k < a.len() {
            assert(slot_filled(cost, s, a, k));
            let i = choose|i: int| 0 <= i < s.len() && #[trigger] s[i].card_id == a[k] && available(s[i]) && slot_ok(cost, k, s[i]);
            assert(s[i].card_id == t[k]);
        }
    }
    assert forall|i: int, j: int| 0 <= i < t.len() && 0 <= j < t.len() && i != j implies t[i] != t[j] by {
        if i < a.len() && j < a.len() {
            assert(t[i] == a[i]);
            assert(t[j] == a[j]);
        } else if i < a.len() {
            assert(t[i] == a[i]);
            assert(a.contains(a[i]));
        } else if j < a.len() {
            assert(t[j] == a[j]);
            assert(a.contains(a[j]));
        }
    }
}

/// A `pick` step whose eligible sources all suit the slots it fills extends a
/// valid partial payment.
proof fn lemma_pick_segment(cost: ManaCost, s: Seq<ManaSource>, p: spec_fn(ManaSource) -> bool, n: nat, a: Seq<CardId>)
    requires
        pays_prefix(cost, s, a),
        forall|src: ManaSource| #[trigger] p(src) ==> available(src) && forall|k: int| a.len() <= k < a.len() + n ==> #[trigger] slot_ok(cost, k, src),
    ensures
        pays_prefix(cost, s, pick(s, p, n, a)),
{
    let t = pick(s, p, n, a);
    lemma_pick_props(s, p, n, a);
    lemma_pick_extends(s, p, n, a);
    assert forall|k: int| a.len() <= k < t.len() implies slot_filled(cost, s, t, k) by {
        let i = choose|i: int| 0 <= i < s.len() && #[trigger] s[i].card_id == t[k] && p(s[i]);
        assert(p(s[i]));
        assert(k < a.len() + n);
        assert(available(s[i]) && slot_ok(cost, k, s[i]));
    }
    lemma_extend(cost, s, a, t);
}

/// A successful color step of the greedy resolver extends a valid partial payment.
proof fn lemma_color_segment(cost: ManaCost, s: Seq<ManaSource>, c: ManaColor, amount: u8, a: Seq<CardId>)
    requires
        distinct_ids(s),
        pays_prefix(cost, s, a),
        color_order(s, c, a).len() >= amount,
        forall|src: ManaSource| #[trigger] can_produce(src.production, c) ==> forall|k: int| a.len() <= k < a.len() + amount ==> #[trigger] slot_ok(cost, k, src),
    ensures
        pays_prefix(cost, s, a + ids_at(s, color_order(s, c, a).take(amount as int))),
{
    let p = cand_pred(c, a);
    let idx = indices_where(s, p);
    lemma_indices_props(s, p);
    lemma_sorted_props(s, idx, c, 256);
    let o = color_order(s, c, a);
    let ot = o.take(amount as int);
    let d = ids_at(s, ot);
    let t = a + d;
    assert(t.subrange(0, a.len() as int) =~= a);
    assert forall|k: int| 0 <= k < ot.len() implies 0 <= #[trigger] ot[k] < s.len() && p(s[ot[k]]) by {
        assert(ot[k] == o[k]);
        assert(idx.contains(o[k]));
        let j = choose|j: int| 0 <= j < idx.len() && idx[j] == o[k];
    }
    assert forall|k: int| a.len() <= k < t.len() implies !a.contains(#[trigger] t[k]) by {
        let m = k - a.len();
        assert(t[k] == d[m]);
        assert(d[m] == s[ot[m]].card_id);
        let i = ot[m];
        assert(0 <= i < s.len() && p(s[i]));
    }
    assert forall|k: int| a.len() <= k < t.len() implies slot_filled(cost, s, t, k) by {
        let m = k - a.len();
        assert(t[k] == d[m]);
        assert(d[m] == s[ot[m]].card_id);
        let i = ot[m];
        assert(0 <= i < s.len() && p(s[i]));
        assert(can_produce(s[i].production, c));
        assert(k < a.len() + amount);
        assert(slot_ok(cost, k, s[i]));
        assert(s[i].card_id == t[k]);
    }
    assert forall|k1: int, k2: int| a.len() <= k1 < t.len() && a.len() <= k2 < t.len() && k1 != k2 implies t[k1] != t[k2] by {
        let m1 = k1 - a.len();
        let m2 = k2 - a.len();
        assert(t[k1] == s[ot[m1]].card_id);
        assert(t[k2] == s[ot[m2]].card_id);
        assert(ot[m1] == o[m1]);
        assert(ot[m2] == o[m2]);
        assert(0 <= ot[m1] < s.len() && 0 <= ot[m2] < s.len());
    }
    lemma_extend(cost, s, a, t);
}


proof fn lemma_count_zero(s: Seq<ManaSource>, p: spec_fn(ManaSource) -> bool)
    requires
        count(s, p) == 0,
    ensures
        forall|i: int| 0 <= i < s.len() ==> !p(#[trigger] s[i]),
    decreases s.len(),
{
    if s.len() > 0 {
        let s2 = s.drop_last();
        lemma_count_zero(s2, p);
        assert forall|i: int| 0 <= i < s.len() implies !p(#[trigger] s[i]) by {
            if i < s.len() - 1 {
                assert(s2[i] == s[i]);
            }
        }
    }
}

/// Sources whose kind never suits the first `lo` slots have ids outside a valid
/// partial payment of length `lo`.
proof fn lemma_not_in_prefix(cost: ManaCost, s: Seq<ManaSource>, a: Seq<CardId>, q: spec_fn(ManaSource) -> bool)
    requires
        distinct_ids(s),
        pays_prefix(cost, s, a),
        forall|src: ManaSource| #[trigger] q(src) ==> forall|k: int| 0 <= k < a.len() ==> !#[trigger] slot_ok(cost, k, src),
    ensures
        forall|i: int| 0 <= i < s.len() && q(#[trigger] s[i]) ==> !a.contains(s[i].card_id),
{
    assert forall|i: int| 0 <= i < s.len() && q(#[trigger] s[i]) implies !a.contains(s[i].card_id) by {
        if a.contains(s[i].card_id) {
            let k = choose|k: int| 0 <= k < a.len() && a[k] == s[i].card_id;
            assert(slot_filled(cost, s, a, k));
            let j = choose|j: int| 0 <= j < s.len() && #[trigger] s[j].card_id == a[k] && available(s[j]) && slot_ok(cost, k, s[j]);
            assert(j == i);
        }
    }
}

/// A simple-resolver step that has enough eligible sources fills its slots.
proof fn lemma_simple_step(cost: ManaCost, s: Seq<ManaSource>, p: spec_fn(ManaSource) -> bool, amount: nat, a: Seq<CardId>)
    requires
        distinct_ids(s),
        pays_prefix(cost, s, a),
        amount <= count(s, p),
        forall|src: ManaSource| #[trigger] p(src) ==> available(src) && forall|k: int| a.len() <= k < a.len() + amount ==> #[trigger] slot_ok(cost, k, src),
        forall|src: ManaSource| #[trigger] p(src) ==> forall|k: int| 0 <= k < a.len() ==> !#[trigger] slot_ok(cost, k, src),
    ensures
        pays_prefix(cost, s, pick(s, p, amount, a)),
        pick(s, p, amount, a).len() == a.len() + amount,
{
    lemma_pick_segment(cost, s, p, amount, a);
    lemma_not_in_prefix(cost, s, a, p);
    lemma_count_excl_none(s, p, a);
    lemma_pick_count(s, p, amount, a);
}

/// Law: when the simple resolver answers `Yes` for sources with distinct ids,
/// tapping the returned sources pays the cost exactly.
pub proof fn lemma_simple_yes_pays(cost: ManaCost, s: Seq<ManaSource>)
    requires
        distinct_ids(s),
        simple_payment(cost, s) is Yes,
    ensures
        pays(cost, s, simple_tap_order(cost, s)),
        simple_payment(cost, s) == PaymentView::Yes(simple_tap_order(cost, s)),
{
    let w = cost.white as int;
    let u = w + cost.blue;
    let b = u + cost.black;
    let r = b + cost.red;
    let g = r + cost.green;
    let c = g + cost.colorless;
    let t0 = Seq::<CardId>::empty();
    assert(pays_prefix(cost, s, t0));
    lemma_simple_step(cost, s, fixed_pred(ManaColor::White), cost.white as nat, t0);
    let t1 = pick(s, fixed_pred(ManaColor::White), cost.white as nat, t0);
    lemma_simple_step(cost, s, fixed_pred(ManaColor::Blue), cost.blue as nat, t1);
    let t2 = pick(s, fixed_pred(ManaColor::Blue), cost.blue as nat, t1);
    lemma_simple_step(cost, s, fixed_pred(ManaColor::Black), cost.black as nat, t2);
    let t3 = pick(s, fixed_pred(ManaColor::Black), cost.black as nat, t2);
    lemma_simple_step(cost, s, fixed_pred(ManaColor::Red), cost.red as nat, t3);
    let t4 = pick(s, fixed_pred(ManaColor::Red), cost.red as nat, t3);
    lemma_simple_step(cost, s, fixed_pred(ManaColor::Green), cost.green as nat, t4);
    let t5 = pick(s, fixed_pred(ManaColor::Green), cost.green as nat, t4);
    lemma_simple_step(cost, s, colorless_pred(), cost.colorless as nat, t5);
    let t6 = pick(s, colorless_pred(), cost.colorless as nat, t5);
    assert(t6.len() == c);
    // generic part
    lemma_count_zero(s, complex_pred());
    let sp = simple_pred();
    assert forall|k: int| 0 <= k < t6.len() implies has_source(s, #[trigger] t6[k], sp) by {
        assert(slot_filled(cost, s, t6, k));
        let i = choose|i: int| 0 <= i < s.len() && #[trigger] s[i].card_id == t6[k] && available(s[i]) && slot_ok(cost, k, s[i]);
        assert(!complex_pred()(s[i]));
        assert(sp(s[i]));
    }
    assert(t6.no_duplicates());
    lemma_count_excl_all(s, sp, t6);
    lemma_simple_count(s);
    lemma_pick_segment(cost, s, simple_pred(), cost.generic as nat, t6);
    lemma_pick_count(s, simple_pred(), cost.generic as nat, t6);
}

/// One color step of the greedy resolver, when it succeeds, fills its slots.
proof fn lemma_greedy_color(cost: ManaCost, s: Seq<ManaSource>, c: ManaColor, amount: u8, a: Seq<CardId>)
    requires
        distinct_ids(s),
        pays_prefix(cost, s, a),
        greedy_color_step(s, c, amount, Some(a)) is Some,
        forall|src: ManaSource| #[trigger] can_produce(src.production, c) ==> forall|k: int| a.len() <= k < a.len() + amount ==> #[trigger] slot_ok(cost, k, src),
    ensures
        pays_prefix(cost, s, greedy_color_step(s, c, amount, Some(a))->0),
        greedy_color_step(s, c, amount, Some(a))->0.len() == a.len() + amount,
{
    if amount > 0 {
        lemma_color_segment(cost, s, c, amount, a);
    }
}

/// One input-order step of the greedy resolver, when it succeeds, fills its slots.
proof fn lemma_greedy_pick(cost: ManaCost, s: Seq<ManaSource>, p: spec_fn(ManaSource) -> bool, amount: u8, a: Seq<CardId>)
    requires
        pays_prefix(cost, s, a),
        greedy_pick_step(s, p, amount, Some(a)) is Some,
        forall|src: ManaSource| #[trigger] p(src) ==> available(src) && forall|k: int| a.len() <= k < a.len() + amount ==> #[trigger] slot_ok(cost, k, src),
    ensures
        pays_prefix(cost, s, greedy_pick_step(s, p, amount, Some(a))->0),
        greedy_pick_step(s, p, amount, Some(a))->0.len() == a.len() + amount,
{
    lemma_pick_extends(s, p, amount as nat, a);
    lemma_pick_segment(cost, s, p, amount as nat, a);
}

/// Law: when the greedy resolver answers `Yes` for sources with distinct ids,
/// tapping the returned sources pays the cost exactly.
pub proof fn lemma_greedy_yes_pays(cost: ManaCost, s: Seq<ManaSource>)
    requires
        distinct_ids(s),
        greedy_payment(cost, s) is Yes,
    ensures
        greedy_tap_order(cost, s) is Some,
        pays(cost, s, greedy_tap_order(cost, s)->0),
        greedy_payment(cost, s) == PaymentView::Yes(greedy_tap_order(cost, s)->0),
{
    let t0 = Seq::<CardId>::empty();
    assert(pays_prefix(cost, s, t0));
    let o1 = greedy_color_step(s, ManaColor::White, cost.white, Some(t0));
    let o2 = greedy_color_step(s, ManaColor::Blue, cost.blue, o1);
    let o3 = greedy_color_step(s, ManaColor::Black, cost.black, o2);
    let o4 = greedy_color_step(s, ManaColor::Red, cost.red, o3);
    let o5 = greedy_color_step(s, ManaColor::Green, cost.green, o4);
    let o6 = greedy_pick_step(s, colorless_pred(), cost.colorless, o5);
    let o7 = greedy_pick_step(s, avail_pred(), cost.generic, o6);
    assert(o7 is Some);
    lemma_greedy_color(cost, s, ManaColor::White, cost.white, t0);
    lemma_greedy_color(cost, s, ManaColor::Blue, cost.blue, o1->0);
    lemma_greedy_color(cost, s, ManaColor::Black, cost.black, o2->0);
    lemma_greedy_color(cost, s, ManaColor::Red, cost.red, o3->0);
    lemma_greedy_color(cost, s, ManaColor::Green, cost.green, o4->0);
    lemma_greedy_pick(cost, s, colorless_pred(), cost.colorless, o5->0);
    lemma_greedy_pick(cost, s, avail_pred(), cost.generic, o6->0);
}

/// Law: the greedy quick check agrees with the full check, except that a
/// found payment is reported as `Maybe`.
pub proof fn lemma_greedy_quick_agrees(cost: ManaCost, s: Seq<ManaSource>)
    ensures
        greedy_quick(cost, s) == weaken_yes(greedy_payment(cost, s)),
{
}

/// The number of indices among `idx` whose source scores below `v` for color `c`.
spec fn scored_below(s: Seq<ManaSource>, idx: Seq<int>, c: ManaColor, v: int) -> nat
    decreases idx.len(),
{
    if idx.len() == 0 {
        0
    } else {
        scored_below(s, idx.drop_last(), c, v) + if score_for(s[idx.last()].production, c) < v { 1nat } else { 0nat }
    }
}

proof fn lemma_with_score_len(s: Seq<ManaSource>, idx: Seq<int>, c: ManaColor, w: int)
    ensures
        with_score(s, idx, c, w).len() == scored_below(s, idx, c, w + 1) - scored_below(s, idx, c, w),
        scored_below(s, idx, c, w) <= scored_below(s, idx, c, w + 1),
    decreases idx.len(),
{
    if idx.len() > 0 {
        lemma_with_score_len(s, idx.drop_last(), c, w);
    }
}

proof fn lemma_scored_below_bounds(s: Seq<ManaSource>, idx: Seq<int>, c: ManaColor)
    ensures
        scored_below(s, idx, c, 0) == 0,
        scored_below(s, idx, c, 256) == idx.len(),
    decreases idx.len(),
{
    if idx.len() > 0 {
        lemma_scored_below_bounds(s, idx.drop_last(), c);
    }
}

proof fn lemma_sorted_below_len(s: Seq<ManaSource>, idx: Seq<int>, c: ManaColor, v: nat)
    ensures
        sorted_below(s, idx, c, v).len() == scored_below(s, idx, c, v as int),
    decreases v,
{
    if v == 0 {
        lemma_scored_below_bounds(s, idx, c);
    } else {
        lemma_sorted_below_len(s, idx, c, (v - 1) as nat);
        lemma_with_score_len(s, idx, c, v - 1);
    }
}

proof fn lemma_indices_len(s: Seq<ManaSource>, p: spec_fn(ManaSource) -> bool)
    ensures
        indices_where(s, p).len() == count(s, p),
    decreases s.len(),
{
    if s.len() > 0 {
        lemma_indices_len(s.drop_last(), p);
    }
}

/// Every source that can pay a color is considered for it: for any color and
/// any ids already chosen, the color step of the greedy resolver succeeds
/// exactly when at least `amount` sources are available, not yet chosen and
/// able to produce the color (a fixed source of it, a choice that lists it, or
/// an any-color source), and then it appends exactly `amount` ids.
pub proof fn law_color_step_uses_every_producer(s: Seq<ManaSource>, c: ManaColor, amount: u8, a: Seq<CardId>)
    ensures
        greedy_color_step(s, c, amount, Some(a)) is Some <==> count(
            s,
            |x: ManaSource| !x.is_tapped && !x.has_summoning_sickness && !a.contains(x.card_id) && can_produce(x.production, c),
        ) >= amount,
        greedy_color_step(s, c, amount, Some(a)) is Some ==> greedy_color_step(s, c, amount, Some(a))->0.len() == a.len()
            + amount,
{
    let usable = |x: ManaSource| !x.is_tapped && !x.has_summoning_sickness && !a.contains(x.card_id) && can_produce(x.production, c);
    let idx = indices_where(s, cand_pred(c, a));
    lemma_count_ext(s, cand_pred(c, a), usable);
    lemma_indices_len(s, cand_pred(c, a));
    lemma_sorted_below_len(s, idx, c, 256);
    lemma_scored_below_bounds(s, idx, c);
}

proof fn lemma_sorted_order(s: Seq<ManaSource>, idx: Seq<int>, c: ManaColor, v: nat)
    requires
        forall|k1: int, k2: int| 0 <= k1 < k2 < idx.len() ==> idx[k1] < idx[k2],
    ensures
        ({
            let o = sorted_below(s, idx, c, v);
            forall|k1: int, k2: int| #![trigger o[k1], o[k2]] 0 <= k1 < k2 < o.len() ==> {
                &&& score_for(s[o[k1]].production, c) <= score_for(s[o[k2]].production, c)
                &&& score_for(s[o[k1]].production, c) == score_for(s[o[k2]].production, c) ==> o[k1] < o[k2]
            }
        }),
    decreases v,
{
    if v > 0 {
        lemma_sorted_order(s, idx, c, (v - 1) as nat);
        lemma_sorted_props(s, idx, c, (v - 1) as nat);
        lemma_with_score_props(s, idx, c, v - 1);
        let a = sorted_below(s, idx, c, (v - 1) as nat);
        let b = with_score(s, idx, c, v - 1);
        let o = a + b;
        assert forall|k1: int, k2: int| #![trigger o[k1], o[k2]] 0 <= k1 < k2 < o.len() implies {
            &&& score_for(s[o[k1]].production, c) <= score_for(s[o[k2]].production, c)
            &&& score_for(s[o[k1]].production, c) == score_for(s[o[k2]].production, c) ==> o[k1] < o[k2]
        } by {
            if k2 < a.len() {
                assert(o[k1] == a[k1]);
                assert(o[k2] == a[k2]);
            } else if k1 >= a.len() {
                assert(o[k1] == b[k1 - a.len()]);
                assert(o[k2] == b[k2 - a.len()]);
            } else {
                assert(o[k1] == a[k1]);
                assert(o[k2] == b[k2 - a.len()]);
            }
        }
    }
}

/// Two productions are of the same kind, and two choices offer as many colors.
pub open spec fn equally_specific(p1: ManaProductionKind, p2: ManaProductionKind) -> bool {
    match (p1, p2) {
        (ManaProductionKind::Fixed(_), ManaProductionKind::Fixed(_)) => true,
        (ManaProductionKind::Choice(v1), ManaProductionKind::Choice(v2)) => v1@.len() == v2@.len(),
        (ManaProductionKind::AnyColor, ManaProductionKind::AnyColor) => true,
        (ManaProductionKind::Colorless, ManaProductionKind::Colorless) => true,
        _ => false,
    }
}

/// The greedy resolver taps the most specific sources of a color first: among
/// the candidates for a color (where no source offers a choice of 100 colors
/// or more), sources of exactly that color come before dual lands, dual lands
/// offering fewer colors before those offering more, and any-color sources
/// last; sources equally specific are taken in input order.
pub proof fn law_color_order_prefers_specific(s: Seq<ManaSource>, c: ManaColor, a: Seq<CardId>)
    requires
        forall|i: int| 0 <= i < s.len() ==> ((#[trigger] s[i]).production.kind matches ManaProductionKind::Choice(v) ==> v@.len() < 100),
    ensures
        ({
            let o = color_order(s, c, a);
            forall|k1: int, k2: int| #![trigger o[k1], o[k2]] 0 <= k1 < k2 < o.len() ==> {
                let p1 = s[o[k1]].production.kind;
                let p2 = s[o[k2]].production.kind;
                &&& p2 is Fixed ==> p1 is Fixed
                &&& p1 is AnyColor ==> p2 is AnyColor
                &&& p1 matches ManaProductionKind::Choice(v1) ==> (p2 matches ManaProductionKind::Choice(v2) ==> v1@.len()
                    <= v2@.len())
                &&& equally_specific(p1, p2) ==> o[k1] < o[k2]
            }
        }),
{
    let p = cand_pred(c, a);
    let idx = indices_where(s, p);
    lemma_indices_props(s, p);
    lemma_sorted_props(s, idx, c, 256);
    lemma_sorted_order(s, idx, c, 256);
    let o = color_order(s, c, a);
    assert forall|k: int| 0 <= k < o.len() implies can_produce(s[#[trigger] o[k]].production, c) && (s[o[k]].production.kind matches ManaProductionKind::Choice(v) ==> 1 <= v@.len() < 100) by {
        assert(idx.contains(o[k]));
        let j = choose|j: int| 0 <= j < idx.len() && idx[j] == o[k];
        assert(p(s[idx[j]]));
        if let ManaProductionKind::Choice(v) = s[o[k]].production.kind {
            assert(v@.contains(c));
        }
    }
    assert forall|k1: int, k2: int| #![trigger o[k1], o[k2]] 0 <= k1 < k2 < o.len() implies {
        let p1 = s[o[k1]].production.kind;
        let p2 = s[o[k2]].production.kind;
        &&& p2 is Fixed ==> p1 is Fixed
        &&& p1 is AnyColor ==> p2 is AnyColor
        &&& p1 matches ManaProductionKind::Choice(v1) ==> (p2 matches ManaProductionKind::Choice(v2) ==> v1@.len() <= v2@.len())
        &&& equally_specific(p1, p2) ==> o[k1] < o[k2]
    } by {
        let x1 = s[o[k1]].production;
        let x2 = s[o[k2]].production;
        assert(can_produce(x1, c));
        assert(can_produce(x2, c));
        assert(score_for(x1, c) <= score_for(x2, c));
        assert(score_for(x1, c) == score_for(x2, c) ==> o[k1] < o[k2]);
        match x1.kind {
            ManaProductionKind::Choice(v1) => {
                assert(score_for(x1, c) == v1@.len());
            },
            _ => {},
        }
        match x2.kind {
            ManaProductionKind::Choice(v2) => {
                assert(score_for(x2, c) == v2@.len());
            },
            _ => {},
        }
    }
}

/// The number of symbols of one color in a cost.
pub open spec fn color_part(cost: ManaCost, c: ManaColor) -> u8 {
    match c {
        ManaColor::White => cost.white,
        ManaColor::Blue => cost.blue,
        ManaColor::Black => cost.black,
        ManaColor::Red => cost.red,
        ManaColor::Green => cost.green,
    }
}

proof fn lemma_count_mono(s: Seq<ManaSource>, p1: spec_fn(ManaSource) -> bool, p2: spec_fn(ManaSource) -> bool)
    requires
        forall|i: int| 0 <= i < s.len() && p1(#[trigger] s[i]) ==> p2(s[i]),
    ensures
        count(s, p1) <= count(s, p2),
    decreases s.len(),
{
    if s.len() > 0 {
        let s2 = s.drop_last();
        assert forall|i: int| 0 <= i < s2.len() && p1(#[trigger] s2[i]) implies p2(s2[i]) by {
            assert(s2[i] == s[i]);
        }
        lemma_count_mono(s2, p1, p2);
        assert(s.last() == s[s.len() - 1]);
    }
}

proof fn lemma_delta_sum_free(s: Seq<ManaSource>)
    requires
        forall|i: int| 0 <= i < s.len() ==> (#[trigger] s[i]).production.activation_cost is None,
    ensures
        delta_sum(s) == count(s, avail_pred()),
    decreases s.len(),
{
    if s.len() > 0 {
        let s2 = s.drop_last();
        assert forall|i: int| 0 <= i < s2.len() implies (#[trigger] s2[i]).production.activation_cost is None by {
            assert(s2[i] == s[i]);
        }
        lemma_delta_sum_free(s2);
        assert(s.last() == s[s.len() - 1]);
    }
}

proof fn lemma_occurrences_contains(v: Seq<ManaColor>, c: ManaColor)
    requires
        v.contains(c),
    ensures
        occurrences(v, c) >= 1,
    decreases v.len(),
{
    if v.last() != c {
        let j = choose|j: int| 0 <= j < v.len() && v[j] == c;
        assert(v.drop_last()[j] == c);
        lemma_occurrences_contains(v.drop_last(), c);
    }
}

proof fn lemma_max_color_counts_producers(s: Seq<ManaSource>, c: ManaColor)
    ensures
        count(s, |x: ManaSource| !x.is_tapped && !x.has_summoning_sickness && can_produce(x.production, c)) <= max_color(s, c),
    decreases s.len(),
{
    if s.len() > 0 {
        lemma_max_color_counts_producers(s.drop_last(), c);
        let x = s.last();
        if available(x) && can_produce(x.production, c) {
            if let ManaProductionKind::Choice(v) = x.production.kind {
                lemma_occurrences_contains(v@, c);
            }
        }
    }
}

/// A cost of a single color is found payable whenever enough sources make
/// that color: with sources that need no mana to activate, the greedy resolver
/// answers `Yes` for a cost made only of `n` symbols of one color exactly when
/// at least `n` available sources can produce that color, dual lands and
/// any-color lands included.
pub proof fn law_single_color_cost_found(cost: ManaCost, s: Seq<ManaSource>, c: ManaColor)
    requires
        cost.generic == 0,
        cost.colorless == 0,
        forall|d: ManaColor| d != c ==> #[trigger] color_part(cost, d) == 0,
        forall|i: int| 0 <= i < s.len() ==> (#[trigger] s[i]).production.activation_cost is None,
    ensures
        greedy_payment(cost, s) is Yes <==> count(
            s,
            |x: ManaSource| !x.is_tapped && !x.has_summoning_sickness && can_produce(x.production, c),
        ) >= color_part(cost, c),
{
    let producers = |x: ManaSource| !x.is_tapped && !x.has_summoning_sickness && can_produce(x.production, c);
    let e = Seq::<CardId>::empty();
    let usable = |x: ManaSource| !x.is_tapped && !x.has_summoning_sickness && !e.contains(x.card_id) && can_produce(x.production, c);
    let n = color_part(cost, c);
    law_color_step_uses_every_producer(s, c, n, e);
    lemma_count_ext(s, usable, producers);
    lemma_count_mono(s, producers, avail_pred());
    lemma_delta_sum_free(s);
    lemma_max_color_counts_producers(s, c);
    assert(color_part(cost, ManaColor::White) == 0 || c == ManaColor::White);
    assert(color_part(cost, ManaColor::Blue) == 0 || c == ManaColor::Blue);
    assert(color_part(cost, ManaColor::Black) == 0 || c == ManaColor::Black);
    assert(color_part(cost, ManaColor::Red) == 0 || c == ManaColor::Red);
    assert(color_part(cost, ManaColor::Green) == 0 || c == ManaColor::Green);
    assert(cost.total() == n);
}

} // verus!

verus! {

/// The kind of source the `k`-th tapped source of a simple payment is: the
/// first `white` slots white sources, then blue, black, red, green, then
/// colorless ones; none is fixed for the generic slots.
pub open spec fn simple_slot_kind(cost: ManaCost, k: int) -> Option<ManaProductionKind> {
    let w = cost.white as int;
    let u = w + cost.blue;
    let b = u + cost.black;
    let r = b + cost.red;
    let g = r + cost.green;
    let c = g + cost.colorless;
    if k < w {
        Some(ManaProductionKind::Fixed(ManaColor::White))
    } else if k < u {
        Some(ManaProductionKind::Fixed(ManaColor::Blue))
    } else if k < b {
        Some(ManaProductionKind::Fixed(ManaColor::Black))
    } else if k < r {
        Some(ManaProductionKind::Fixed(ManaColor::Red))
    } else if k < g {
        Some(ManaProductionKind::Fixed(ManaColor::Green))
    } else if k < c {
        Some(ManaProductionKind::Colorless)
    } else {
        None
    }
}

/// Law: when the simple resolver answers `Yes` for sources with distinct ids,
/// the tapped sources are distinct and available, as many as the cost's
/// symbols, and per color: `white` of them are white sources, then `blue`
/// blue ones, `black` black, `red` red, `green` green, `colorless`
/// colorless sources, the rest (the generic part) any single-kind source.
pub proof fn law_simple_yes_per_color(cost: ManaCost, s: Seq<ManaSource>)
    requires
        distinct_ids(s),
        simple_payment(cost, s) is Yes,
    ensures
        ({
            let t = simple_tap_order(cost, s);
            &&& t.len() == cost.total()
            &&& t.no_duplicates()
            &&& forall|k: int|
                #![trigger t[k]]
                0 <= k < t.len() ==> exists|i: int|
                    0 <= i < s.len() && #[trigger] s[i].card_id == t[k] && available(s[i]) && !is_complex(s[i])
                        && match simple_slot_kind(cost, k) {
                        Some(kind) => s[i].production.kind == kind,
                        None => true,
                    }
        }),
{
    lemma_simple_yes_pays(cost, s);
    lemma_count_zero(s, complex_pred());
    let t = simple_tap_order(cost, s);
    assert forall|k: int|
        #![trigger t[k]]
        0 <= k < t.len() implies exists|i: int|
            0 <= i < s.len() && #[trigger] s[i].card_id == t[k] && available(s[i]) && !is_complex(s[i])
                && match simple_slot_kind(cost, k) {
                Some(kind) => s[i].production.kind == kind,
                None => true,
            } by {
        assert(slot_filled(cost, s, t, k));
        let i = choose|i: int|
            0 <= i < s.len() && #[trigger] s[i].card_id == t[k] && available(s[i]) && slot_ok(cost, k, s[i]);
        assert(!complex_pred()(s[i]));
    }
}

} // verus!
