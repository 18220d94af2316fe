//! Deck lists in the `.dck` text format.

use vstd::prelude::*;
use crate::error::MtgError;
use crate::text::{
    chars_of, split_any, split_any_in, find_any, find_any_in, trimmed, trim_range, substring,
    parse_unsigned, parse_unsigned_in, seq_contains, contains_seq,
};

verus! {

/// Reads deck lists.
pub struct DeckLoader;

/// One line of a deck list: a card name and how many copies.
#[derive(Debug, Clone)]
pub struct DeckEntry {
    pub card_name: String,
    pub count: u8,
}

impl View for DeckEntry {
    type V = (Seq<char>, u8);

    open spec fn view(&self) -> (Seq<char>, u8) {
        (self.card_name@, self.count)
    }
}

/// A deck: the main deck and the sideboard, each a list of entries.
#[derive(Debug, Clone)]
pub struct DeckList {
    pub main_deck: Vec<DeckEntry>,
    pub sideboard: Vec<DeckEntry>,
}

/// The entries of a list, by value.
pub open spec fn entries_view(v: Seq<DeckEntry>) -> Seq<(Seq<char>, u8)> {
    v.map_values(|e: DeckEntry| e@)
}

impl View for DeckList {
    type V = (Seq<(Seq<char>, u8)>, Seq<(Seq<char>, u8)>);

    open spec fn view(&self) -> (Seq<(Seq<char>, u8)>, Seq<(Seq<char>, u8)>) {
        (entries_view(self.main_deck@), entries_view(self.sideboard@))
    }
}

/// A trimmed line that holds no entry: empty, a `#` comment or a `[section]` header.
pub open spec fn is_marker_line(t: Seq<char>) -> bool {
    t.len() == 0 || t[0] == '#' || t[0] == '['
}

/// The entry on a trimmed line of the form `COUNT NAME` or `COUNT NAME|SET`,
/// where COUNT parses as a `u8`; none otherwise.
pub open spec fn deck_line_entry(t: Seq<char>) -> Option<(Seq<char>, u8)> {
    match find_any(t, seq![' ']) {
        None => None,
        Some(i) => match parse_unsigned(t.take(i), 255) {
            None => None,
            Some(n) => {
                let rest = t.skip(i + 1);
                let name = match find_any(rest, seq!['|']) {
                    Some(j) => trimmed(rest.take(j)),
                    None => trimmed(rest),
                };
                Some((name, n as u8))
            },
        },
    }
}

/// After reading some lines: whether the sideboard has begun, the main deck
/// entries and the sideboard entries.
pub open spec fn deck_scan(lines: Seq<Seq<char>>) -> (bool, Seq<(Seq<char>, u8)>, Seq<(Seq<char>, u8)>)
    decreases lines.len(),
{
    if lines.len() == 0 {
        (false, Seq::empty(), Seq::empty())
    } else {
        let prev = deck_scan(lines.drop_last());
        let t = trimmed(lines.last());
        if is_marker_line(t) {
            (prev.0 || seq_contains(t, "Sideboard"@), prev.1, prev.2)
        } else {
            match deck_line_entry(t) {
                None => prev,
                Some(e) => if prev.0 {
                    (prev.0, prev.1, prev.2.push(e))
                } else {
                    (prev.0, prev.1.push(e), prev.2)
                },
            }
        }
    }
}

/// The reading of a whole deck file, line by line (a `\r` before a line
/// break is whitespace and trimmed with the line).
pub open spec fn deck_read(content: Seq<char>) -> (bool, Seq<(Seq<char>, u8)>, Seq<(Seq<char>, u8)>) {
    deck_scan(split_any(content, seq!['\n']))
}

/// The sum of the counts of a list of entries.
pub open spec fn count_sum(entries: Seq<(Seq<char>, u8)>) -> int
    decreases entries.len(),
{
    if entries.len() == 0 {
        0
    } else {
        count_sum(entries.drop_last()) + entries.last().1
    }
}

/// Reads the entry of one trimmed line, if it has one.
fn read_deck_line(line: &str) -> (r: Option<DeckEntry>)
    ensures
        match r {
            Some(e) => deck_line_entry(line@) == Some(e@),
            None => deck_line_entry(line@) is None,
        },
{
    let v = chars_of(line);
    let space: Vec<char> = vec![' '];
    let bar: Vec<char> = vec!['|'];
    proof {
        assert(v@.subrange(0, v@.len() as int) =~= v@);
        assert(space@ =~= seq![' ']);
        assert(bar@ =~= seq!['|']);
    }
    let i = match find_any_in(&v, 0, v.len(), &space) {
        None => return None,
        Some(i) => i,
    };
    proof {
        assert(v@.subrange(0, i as int) =~= v@.take(i as int));
    }
    let count = match parse_unsigned_in(&v, 0, i, 255) {
        None => return None,
        Some(n) => n as u8,
    };
    let ghost rest = v@.skip(i + 1);
    proof {
        assert(v@.subrange(i + 1, v@.len() as int) =~= rest);
    }
    let end = match find_any_in(&v, i + 1, v.len(), &bar) {
        Some(j) => {
            proof {
                assert(v@.subrange(i + 1, j as int) =~= rest.take(j - (i + 1)));
            }
            j
        },
        None => v.len(),
    };
    let (a, b) = trim_range(&v, i + 1, end);
    let name = substring(line, &v, a, b);
    Some(DeckEntry { card_name: name, count })
}

impl DeckLoader {
    /// Parses the text of a deck file. Lines are trimmed; empty lines, `#`
    /// comments and `[section]` headers hold no entry, and once such a line
    /// mentions `Sideboard` the following entries go to the sideboard. An entry
    /// is `COUNT NAME` or `COUNT NAME|SET`; other lines are ignored. A deck with
    /// no main-deck entry is refused.
    #[verifier::rlimit(60)]
    pub fn parse(content: &str) -> (r: Result<DeckList, MtgError>)
        ensures
            match r {
                Ok(d) => deck_read(content@).1.len() > 0 && d@ == (deck_read(content@).1, deck_read(
                    content@,
                ).2),
                Err(MtgError::InvalidDeckFormat(m)) => deck_read(content@).1.len() == 0 && m@
                    == "Empty deck"@,
                Err(_) => false,
            },
    {
        let v = chars_of(content);
        let newline: Vec<char> = vec!['\n'];
        let lines = split_any_in(&v, 0, v.len(), &newline);
        let ghost pieces = split_any(content@, seq!['\n']);
        proof {
            assert(v@.subrange(0, v@.len() as int) =~= v@);
            assert(newline@ =~= seq!['\n']);
        }
        let sideboard_word: Vec<char> = chars_of("Sideboard");
        let mut main_deck: Vec<DeckEntry> = Vec::new();
        let mut sideboard: Vec<DeckEntry> = Vec::new();
        let mut in_sideboard = false;
        let mut i: usize = 0;
        while i < lines.len()
            invariant
                i <= lines.len(),
                v@ == content@,
                sideboard_word@ == "Sideboard"@,
                pieces == split_any(content@, seq!['\n']),
                lines.len() == pieces.len(),
                forall|k: int|
                    0 <= k < lines.len() ==> (#[trigger] lines@[k]).0 <= lines@[k].1 <= v.len() && v@.subrange(
                        lines@[k].0 as int,
                        lines@[k].1 as int,
                    ) == pieces[k],
                deck_scan(pieces.take(i as int)) == (in_sideboard, entries_view(main_deck@), entries_view(
                    sideboard@,
                )),
            decreases lines.len() - i,
        {
            let (a, b) = lines[i];
            let (ta, tb) = trim_range(&v, a, b);
            let line = substring(content, &v, ta, tb);
            let lv = chars_of(line.as_str());
            proof {
                assert(pieces.take(i + 1).drop_last() =~= pieces.take(i as int));
                assert(pieces.take(i + 1).last() == pieces[i as int]);
            }
            if lv.len() == 0 || lv[0] == '#' || lv[0] == '[' {
                if contains_seq(&lv, &sideboard_word) {
                    in_sideboard = true;
                }
            } else {
                match read_deck_line(line.as_str()) {
                    None => {},
                    Some(e) => {
                        if in_sideboard {
                            sideboard.push(e);
                        } else {
                            main_deck.push(e);
                        }
                    },
                }
            }
            i = i + 1;
        }
        proof {
            assert(pieces.take(pieces.len() as int) =~= pieces);
        }
        if main_deck.len() == 0 {
            return Err(MtgError::InvalidDeckFormat("Empty deck".to_owned()));
        }
        Ok(DeckList { main_deck, sideboard })
    }
}

impl DeckList {
    /// The number of cards in the main deck.
    pub fn total_cards(&self) -> (r: usize)
        requires
            count_sum(self@.0) <= usize::MAX,
        ensures
            r == count_sum(self@.0),
    {
        sum_counts(&self.main_deck)
    }

    /// The number of cards in the sideboard.
    pub fn sideboard_size(&self) -> (r: usize)
        requires
            count_sum(self@.1) <= usize::MAX,
        ensures
            r == count_sum(self@.1),
    {
        sum_counts(&self.sideboard)
    }
}

proof fn lemma_count_sum_prefix(e: Seq<(Seq<char>, u8)>, k: int)
    requires
        0 <= k <= e.len(),
    ensures
        0 <= count_sum(e.take(k)) <= count_sum(e),
    decreases e.len() - k,
{
    if k < e.len() {
        lemma_count_sum_prefix(e, k + 1);
        assert(e.take(k + 1).drop_last() =~= e.take(k));
    } else {
        assert(e.take(k) =~= e);
    }
    lemma_count_sum_nonneg(e.take(k));
}

proof fn lemma_count_sum_nonneg(e: Seq<(Seq<char>, u8)>)
    ensures
        count_sum(e) >= 0,
    decreases e.len(),
{
    if e.len() > 0 {
        lemma_count_sum_nonneg(e.drop_last());
    }
}

fn sum_counts(entries: &Vec<DeckEntry>) -> (r: usize)
    requires
        count_sum(entries_view(entries@)) <= usize::MAX,
    ensures
        r == count_sum(entries_view(entries@)),
{
    let ghost ev = entries_view(entries@);
    let mut total: usize = 0;
    let mut i: usize = 0;
    while i < entries.len()
        invariant
            i <= entries.len(),
            ev == entries_view(entries@),
            count_sum(ev) <= usize::MAX,
            total == count_sum(ev.take(i as int)),
        decreases entries.len() - i,
    {
        proof {
            assert(ev.take(i + 1).drop_last() =~= ev.take(i as int));
            lemma_count_sum_prefix(ev, i + 1);
        }
        total = total + entries[i].count as usize;
        i = i + 1;
    }
    proof {
        assert(ev.take(ev.len() as int) =~= ev);
    }
    total
}

} // verus!
