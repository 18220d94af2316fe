//! When to stop a game and save a snapshot, counted in player choices.

use vstd::prelude::*;
use crate::ids::PlayerId;
use crate::text::{chars_of, split_any, split_any_in, parse_unsigned, parse_unsigned_in, str_eq, substring, concat3};

verus! {

/// Whose choices count toward the stop condition.
#[derive(Debug, Clone, Copy, PartialEq, Eq, Structural)]
pub enum StopPlayer {
    /// Only player 1's choices.
    P1,
    /// Only player 2's choices.
    P2,
    /// The choices of both players.
    Both,
}

/// Stop after a number of choices of the chosen player or players.
#[derive(Debug, Clone, Copy)]
pub struct StopCondition {
    pub player: StopPlayer,
    pub choice_count: usize,
}

/// The message for a choice count that does not parse.
pub open spec fn bad_count_message(count: Seq<char>) -> Seq<char> {
    "invalid choice count '"@ + count + "'"@
}

/// The message for a player that is neither `p1` nor `p2`.
pub open spec fn bad_player_message(player: Seq<char>) -> Seq<char> {
    "invalid player '"@ + player + "' (expected: p1 or p2)"@
}

/// The message for text with more than one colon.
pub open spec fn bad_format_message(s: Seq<char>) -> Seq<char> {
    "invalid format '"@ + s + "' (expected: <NUM> or <NUM>:[p1|p2])"@
}

/// The reading of `<NUM>` or `<NUM>:p1` or `<NUM>:p2`: the player and count,
/// or the error message.
pub open spec fn stop_parse(s: Seq<char>) -> Result<(StopPlayer, int), Seq<char>> {
    let parts = split_any(s, seq![':']);
    if parts.len() == 1 {
        match parse_unsigned(parts[0], usize::MAX as int) {
            Some(n) => Ok((StopPlayer::Both, n)),
            None => Err(bad_count_message(parts[0])),
        }
    } else if parts.len() == 2 {
        match parse_unsigned(parts[0], usize::MAX as int) {
            None => Err(bad_count_message(parts[0])),
            Some(n) => if parts[1] == "p1"@ {
                Ok((StopPlayer::P1, n))
            } else if parts[1] == "p2"@ {
                Ok((StopPlayer::P2, n))
            } else {
                Err(bad_player_message(parts[1]))
            },
        }
    } else {
        Err(bad_format_message(s))
    }
}

impl StopCondition {
    pub fn new(player: StopPlayer, choice_count: usize) -> (r: Self)
        ensures
            r.player == player,
            r.choice_count == choice_count,
    {
        StopCondition { player, choice_count }
    }

    /// Parses `<NUM>` (both players), `<NUM>:p1` or `<NUM>:p2`.
    pub fn parse(s: &str) -> (r: Result<Self, String>)
        ensures
            match (r, stop_parse(s@)) {
                (Ok(c), Ok((p, n))) => c.player == p && c.choice_count == n,
                (Err(m), Err(e)) => m@ == e,
                _ => false,
            },
    {
        let v = chars_of(s);
        let colon: Vec<char> = vec![':'];
        let parts = split_any_in(&v, 0, v.len(), &colon);
        proof {
            assert(v@.subrange(0, v@.len() as int) =~= v@);
            assert(colon@ =~= seq![':']);
        }
        if parts.len() == 1 || parts.len() == 2 {
            let (a, b) = parts[0];
            let count = match parse_unsigned_in(&v, a, b, usize::MAX as u64) {
                Some(n) => n as usize,
                None => {
                    let text = substring(s, &v, a, b);
                    return Err(concat3("invalid choice count '", text.as_str(), "'"));
                },
            };
            if parts.len() == 1 {
                return Ok(StopCondition { player: StopPlayer::Both, choice_count: count });
            }
            let (c, d) = parts[1];
            let who = substring(s, &v, c, d);
            if str_eq(who.as_str(), "p1") {
                Ok(StopCondition { player: StopPlayer::P1, choice_count: count })
            } else if str_eq(who.as_str(), "p2") {
                Ok(StopCondition { player: StopPlayer::P2, choice_count: count })
            } else {
                Err(concat3("invalid player '", who.as_str(), "' (expected: p1 or p2)"))
            }
        } else {
            Err(concat3("invalid format '", s, "' (expected: <NUM> or <NUM>:[p1|p2])"))
        }
    }

    /// Whether a choice by `player_id` counts, player 1 being `p1_id`.
    pub fn applies_to(&self, p1_id: PlayerId, player_id: PlayerId) -> (r: bool)
        ensures
            r == match self.player {
                StopPlayer::P1 => player_id == p1_id,
                StopPlayer::P2 => player_id != p1_id,
                StopPlayer::Both => true,
            },
    {
        match self.player {
            StopPlayer::P1 => player_id == p1_id,
            StopPlayer::P2 => player_id != p1_id,
            StopPlayer::Both => true,
        }
    }
}

} // verus!

verus! {

/// Reading what `<NUM>`, `<NUM>:p1` and `<NUM>:p2` write: the decimal text of
/// a count reads back as that count, for both players, for player 1 and for
/// player 2.
pub proof fn law_parse_written_count(n: usize)
    ensures
        stop_parse(crate::text::decimal_text(n as nat)) == Ok::<(StopPlayer, int), Seq<char>>((StopPlayer::Both, n as int)),
        stop_parse(crate::text::decimal_text(n as nat) + ":p1"@) == Ok::<(StopPlayer, int), Seq<char>>((StopPlayer::P1, n as int)),
        stop_parse(crate::text::decimal_text(n as nat) + ":p2"@) == Ok::<(StopPlayer, int), Seq<char>>((StopPlayer::P2, n as int)),
{
    let t = crate::text::decimal_text(n as nat);
    crate::text::lemma_decimal_text(n as nat);
    reveal_strlit(":p1");
    reveal_strlit(":p2");
    reveal_strlit("p1");
    reveal_strlit("p2");
    let colon = seq![':'];
    assert forall|i: int| 0 <= i < t.len() implies !colon.contains(#[trigger] t[i]) by {
        assert(crate::text::is_digit(t[i]));
        if colon.contains(t[i]) {
            assert(colon[0] == ':');
        }
    }
    crate::text::lemma_split_none(t, colon);
    assert(t[0] != '+') by {
        assert(crate::text::is_digit(t[0]));
    }
    assert(colon.contains(':')) by {
        assert(colon[0] == ':');
    }
    let p1 = seq!['p', '1'];
    let p2 = seq!['p', '2'];
    assert(":p1"@ =~= seq![':'] + p1);
    assert(":p2"@ =~= seq![':'] + p2);
    assert(t + ":p1"@ =~= t + seq![':'] + p1);
    assert(t + ":p2"@ =~= t + seq![':'] + p2);
    crate::text::lemma_split_first(t, ':', p1, colon);
    crate::text::lemma_split_first(t, ':', p2, colon);
    assert forall|i: int| 0 <= i < p1.len() implies !colon.contains(#[trigger] p1[i]) by {
        if colon.contains(p1[i]) {
            assert(colon[0] == ':');
        }
    }
    assert forall|i: int| 0 <= i < p2.len() implies !colon.contains(#[trigger] p2[i]) by {
        if colon.contains(p2[i]) {
            assert(colon[0] == ':');
        }
    }
    crate::text::lemma_split_none(p1, colon);
    crate::text::lemma_split_none(p2, colon);
    assert(split_any(t + ":p1"@, seq![':']) =~= seq![t, p1]);
    assert(split_any(t + ":p2"@, seq![':']) =~= seq![t, p2]);
    assert(p1 =~= "p1"@);
    assert(p2 =~= "p2"@);
    assert(p2 != "p1"@) by {
        assert(p2[1] != "p1"@[1]);
    }
}

} // verus!

verus! {

/// Whether a choice by `who` counts toward the condition, player 1 being `p1`.
pub open spec fn counts_for(c: StopCondition, p1: PlayerId, who: PlayerId) -> bool {
    match c.player {
        StopPlayer::P1 => who == p1,
        StopPlayer::P2 => who != p1,
        StopPlayer::Both => true,
    }
}

/// How many of the recorded choices, given by who made them, count toward
/// the condition.
pub open spec fn counted_choices(c: StopCondition, p1: PlayerId, choosers: Seq<PlayerId>) -> nat
    decreases choosers.len(),
{
    if choosers.len() == 0 {
        0
    } else {
        counted_choices(c, p1, choosers.drop_last()) + if counts_for(c, p1, choosers.last()) {
            1nat
        } else {
            0nat
        }
    }
}

impl StopCondition {
    /// The choices that count toward the condition among those recorded
    /// (given by who made each), less the `baseline` already made before a
    /// resume, and no fewer than zero.
    pub fn count_filtered_choices(&self, p1_id: PlayerId, choosers: &[PlayerId], baseline: usize) -> (r: usize)
        ensures
            r == if counted_choices(*self, p1_id, choosers@) >= baseline {
                counted_choices(*self, p1_id, choosers@) - baseline
            } else {
                0
            },
    {
        let mut total: usize = 0;
        let mut i: usize = 0;
        while i < choosers.len()
            invariant
                i <= choosers.len(),
                total == counted_choices(*self, p1_id, choosers@.take(i as int)),
                total <= i,
            decreases choosers.len() - i,
        {
            proof {
                assert(choosers@.take(i + 1).drop_last() =~= choosers@.take(i as int));
                assert(choosers@.take(i + 1).last() == choosers@[i as int]);
            }
            if self.applies_to(p1_id, choosers[i]) {
                total = total + 1;
            }
            i = i + 1;
        }
        proof {
            assert(choosers@.take(choosers@.len() as int) =~= choosers@);
        }
        total.saturating_sub(baseline)
    }

    /// Whether the game stops before a choice by `player_id`: the choice
    /// counts toward the condition and the counted choices since the resume
    /// have reached the condition's count.
    pub fn should_stop(&self, p1_id: PlayerId, player_id: PlayerId, choosers: &[PlayerId], baseline: usize) -> (r: bool)
        ensures
            r == (counts_for(*self, p1_id, player_id) && (if counted_choices(*self, p1_id, choosers@) >= baseline {
                counted_choices(*self, p1_id, choosers@) - baseline
            } else {
                0
            }) >= self.choice_count),
    {
        self.applies_to(p1_id, player_id) && self.count_filtered_choices(p1_id, choosers, baseline)
            >= self.choice_count
    }
}

} // verus!
