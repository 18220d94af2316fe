//! Opening hands chosen by card name, for testing scenarios.

use vstd::prelude::*;
use crate::error::MtgError;
use crate::text::{chars_of, split_any, split_any_in, trimmed, trim_range, substring, decimal_string, decimal_text, concat3};

verus! {

/// The card names to put in a player's opening hand.
#[derive(Debug, Clone)]
pub struct HandSetup {
    pub specific_cards: Vec<String>,
}

impl View for HandSetup {
    type V = Seq<Seq<char>>;

    open spec fn view(&self) -> Seq<Seq<char>> {
        self.specific_cards@.map_values(|c: String| c@)
    }
}

/// The trimmed pieces that are not empty, in order.
pub open spec fn kept_names(parts: Seq<Seq<char>>) -> Seq<Seq<char>>
    decreases parts.len(),
{
    if parts.len() == 0 {
        Seq::empty()
    } else {
        let rest = kept_names(parts.drop_last());
        let t = trimmed(parts.last());
        if t.len() > 0 {
            rest.push(t)
        } else {
            rest
        }
    }
}

/// The card names of a `;`-separated list, each trimmed, empty ones dropped.
pub open spec fn hand_names(s: Seq<char>) -> Seq<Seq<char>> {
    kept_names(split_any(s, seq![';']))
}

/// The message when the list names no card.
pub open spec fn empty_hand_message() -> Seq<char> {
    "Hand setup must contain at least one card"@
}

/// The message when the list names more than seven cards.
pub open spec fn large_hand_message(n: nat) -> Seq<char> {
    "Hand setup cannot contain more than 7 cards (got "@ + decimal_text(n) + ")"@
}

impl HandSetup {
    /// Parses `;`-separated card names: between one and seven of them.
    #[verifier::rlimit(60)]
    pub fn parse(input: &str) -> (r: Result<Self, MtgError>)
        ensures
            match r {
                Ok(h) => 1 <= hand_names(input@).len() <= 7 && h@ == hand_names(input@),
                Err(MtgError::InvalidAction(m)) => {
                    ||| hand_names(input@).len() == 0 && m@ == empty_hand_message()
                    ||| hand_names(input@).len() > 7 && m@ == large_hand_message(
                        hand_names(input@).len(),
                    )
                },
                Err(_) => false,
            },
    {
        let v = chars_of(input);
        let semi: Vec<char> = vec![';'];
        let parts = split_any_in(&v, 0, v.len(), &semi);
        let ghost pieces = split_any(input@, seq![';']);
        proof {
            assert(v@.subrange(0, v@.len() as int) =~= v@);
            assert(semi@ =~= seq![';']);
        }
        let mut cards: Vec<String> = Vec::new();
        let mut i: usize = 0;
        while i < parts.len()
            invariant
                i <= parts.len(),
                v@ == input@,
                pieces == split_any(input@, seq![';']),
                parts.len() == pieces.len(),
                forall|k: int|
                    0 <= k < parts.len() ==> (#[trigger] parts@[k]).0 <= parts@[k].1 <= v.len() && v@.subrange(
                        parts@[k].0 as int,
                        parts@[k].1 as int,
                    ) == pieces[k],
                cards.len() == kept_names(pieces.take(i as int)).len(),
                forall|k: int| 0 <= k < cards.len() ==> (#[trigger] cards@[k])@ == kept_names(pieces.take(i as int))[k],
            decreases parts.len() - i,
        {
            let (a, b) = parts[i];
            let (ta, tb) = trim_range(&v, a, b);
            proof {
                assert(pieces.take(i + 1).drop_last() =~= pieces.take(i as int));
                assert(pieces.take(i + 1).last() == pieces[i as int]);
            }
            if ta < tb {
                let name = substring(input, &v, ta, tb);
                cards.push(name);
            }
            i = i + 1;
        }
        proof {
            assert(pieces.take(pieces.len() as int) =~= pieces);
            assert(cards@.map_values(|c: String| c@) =~= hand_names(input@));
        }
        if cards.len() == 0 {
            return Err(MtgError::InvalidAction("Hand setup must contain at least one card".to_owned()));
        }
        if cards.len() > 7 {
            let count = decimal_string(cards.len());
            return Err(
                MtgError::InvalidAction(
                    concat3("Hand setup cannot contain more than 7 cards (got ", count.as_str(), ")"),
                ),
            );
        }
        Ok(HandSetup { specific_cards: cards })
    }
}

} // verus!

verus! {

/// The names written one after another, separated by `sep`.
pub open spec fn joined(names: Seq<Seq<char>>, sep: char) -> Seq<char>
    decreases names.len(),
{
    if names.len() <= 1 {
        if names.len() == 0 { Seq::empty() } else { names[0] }
    } else {
        names[0] + seq![sep] + joined(names.drop_first(), sep)
    }
}

/// A name that reads back as itself: not empty, no `;` in it, and no
/// whitespace at either end.
pub open spec fn plain_name(n: Seq<char>) -> bool {
    &&& n.len() > 0
    &&& forall|i: int| 0 <= i < n.len() ==> n[i] != ';'
    &&& !crate::text::is_ws(n[0])
    &&& !crate::text::is_ws(n.last())
}

proof fn lemma_split_joined(names: Seq<Seq<char>>)
    requires
        names.len() >= 1,
        forall|i: int| 0 <= i < names.len() ==> plain_name(#[trigger] names[i]),
    ensures
        split_any(joined(names, ';'), seq![';']) == names,
    decreases names.len(),
{
    let semi = seq![';'];
    assert(semi.contains(';')) by {
        assert(semi[0] == ';');
    }
    let first = names[0];
    assert(plain_name(first));
    assert forall|i: int| 0 <= i < first.len() implies !semi.contains(#[trigger] first[i]) by {
        if semi.contains(first[i]) {
            assert(semi[0] == ';');
        }
    }
    if names.len() == 1 {
        crate::text::lemma_split_none(first, semi);
        assert(names =~= seq![first]);
    } else {
        let rest = names.drop_first();
        assert forall|i: int| 0 <= i < rest.len() implies plain_name(#[trigger] rest[i]) by {
            assert(rest[i] == names[i + 1]);
        }
        lemma_split_joined(rest);
        crate::text::lemma_split_first(first, ';', joined(rest, ';'), semi);
        assert(names =~= seq![first] + rest);
    }
}

proof fn lemma_plain_trimmed(n: Seq<char>)
    requires
        plain_name(n),
    ensures
        trimmed(n) == n,
{
    assert(crate::text::trim_start(n) == n);
    assert(crate::text::trim_end(n) == n);
}

proof fn lemma_kept_plain(names: Seq<Seq<char>>)
    requires
        forall|i: int| 0 <= i < names.len() ==> plain_name(#[trigger] names[i]),
    ensures
        kept_names(names) == names,
    decreases names.len(),
{
    if names.len() > 0 {
        let init = names.drop_last();
        assert forall|i: int| 0 <= i < init.len() implies plain_name(#[trigger] init[i]) by {
            assert(init[i] == names[i]);
        }
        lemma_kept_plain(init);
        assert(plain_name(names[names.len() - 1]));
        lemma_plain_trimmed(names.last());
        assert(names =~= init.push(names.last()));
    }
}

/// Names written with `;` between them read back as the same names, in order.
pub proof fn law_hand_names_read_back(names: Seq<Seq<char>>)
    requires
        names.len() >= 1,
        forall|i: int| 0 <= i < names.len() ==> plain_name(#[trigger] names[i]),
    ensures
        hand_names(joined(names, ';')) == names,
{
    lemma_split_joined(names);
    lemma_kept_plain(names);
}

} // verus!
