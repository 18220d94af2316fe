//! How a game ended.

use vstd::prelude::*;
use crate::ids::PlayerId;

verus! {

/// The result of running a game to completion.
#[derive(Debug, Clone, Copy)]
pub struct GameResult {
    /// The winner, if there is one.
    pub winner: Option<PlayerId>,
    /// The number of turns played.
    pub turns_played: u32,
    /// Why the game ended.
    pub end_reason: GameEndReason,
}

/// Why a game ended.
#[derive(Debug, Clone, Copy, PartialEq, Eq, Structural)]
pub enum GameEndReason {
    /// A player won by reducing the opponent's life to 0 or less.
    PlayerDeath(PlayerId),
    /// A player won by decking the opponent.
    Decking(PlayerId),
    /// The game reached the turn limit.
    TurnLimit,
    /// The game was a draw.
    Draw,
    /// The game was ended by hand.
    Manual,
    /// The game was stopped to save a snapshot.
    Snapshot,
}

} // verus!
