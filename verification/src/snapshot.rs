//! Game snapshots: the saved game, the choices to replay, and the errors of saving and loading.

use vstd::prelude::*;
use crate::text::concat2;
use crate::fixed_script_controller::FixedScriptController;
use crate::random_controller::RandomController;
use crate::ids::PlayerId;
use crate::game_state::GameState;
use crate::replay_controller::{copy_choice, ChoiceView, ReplayChoice};

verus! {

/// The state of a controller kept across a snapshot and its resumption:
/// only the fixed-script and random controllers have state to keep.
#[derive(Debug, Clone)]
pub enum ControllerState {
    /// A fixed-script controller, with its position in the script.
    Fixed(FixedScriptController),
    /// A random controller, with its generator.
    Random(RandomController),
}

/// An error of a snapshot operation.
#[derive(Debug, Clone)]
pub enum SnapshotError {
    Serialization(String),
    Deserialization(String),
    Io(String),
    InvalidState(String),
}

/// The message of a snapshot error.
pub open spec fn snapshot_error_text(e: SnapshotError) -> Seq<char> {
    match e {
        SnapshotError::Serialization(m) => "Failed to serialize snapshot: "@ + m@,
        SnapshotError::Deserialization(m) => "Failed to deserialize snapshot: "@ + m@,
        SnapshotError::Io(m) => "I/O error: "@ + m@,
        SnapshotError::InvalidState(m) => "Invalid snapshot state: "@ + m@,
    }
}

impl SnapshotError {
    /// The message describing the error.
    pub fn message(&self) -> (r: String)
        ensures
            r@ == snapshot_error_text(*self),
    {
        match self {
            SnapshotError::Serialization(m) => concat2("Failed to serialize snapshot: ", m.as_str()),
            SnapshotError::Deserialization(m) => concat2("Failed to deserialize snapshot: ", m.as_str()),
            SnapshotError::Io(m) => concat2("I/O error: ", m.as_str()),
            SnapshotError::InvalidState(m) => concat2("Invalid snapshot state: ", m.as_str()),
        }
    }
}

} // verus!

verus! {

/// A choice point recorded during a turn: who chose, the choice's number,
/// and what was chosen, when that was recorded.
#[derive(Debug, Clone)]
pub struct ChoicePoint {
    pub player_id: PlayerId,
    pub choice_id: u32,
    pub choice: Option<ReplayChoice>,
}

/// The recorded choices of the choice points by `who` (of every player when
/// `who` is none), in order; choice points without a recorded choice give
/// nothing.
pub open spec fn replay_views(log: Seq<ChoicePoint>, who: Option<PlayerId>) -> Seq<ChoiceView>
    decreases log.len(),
{
    if log.len() == 0 {
        Seq::empty()
    } else {
        let prev = replay_views(log.drop_last(), who);
        let last = log.last();
        let mine = match who {
            Some(p) => last.player_id == p,
            None => true,
        };
        match last.choice {
            Some(c) => if mine {
                prev.push(c@)
            } else {
                prev
            },
            None => prev,
        }
    }
}

fn extract(log: &[ChoicePoint], who: Option<PlayerId>) -> (r: Vec<ReplayChoice>)
    ensures
        r@.map_values(|c: ReplayChoice| c@) == replay_views(log@, who),
{
    let mut r: Vec<ReplayChoice> = Vec::new();
    let mut i: usize = 0;
    while i < log.len()
        invariant
            i <= log.len(),
            r@.map_values(|c: ReplayChoice| c@) == replay_views(log@.take(i as int), who),
        decreases log.len() - i,
    {
        proof {
            assert(log@.take(i + 1).drop_last() =~= log@.take(i as int));
        }
        let mine = match who {
            Some(p) => log[i].player_id == p,
            None => true,
        };
        match &log[i].choice {
            Some(c) => {
                if mine {
                    let ghost before = r@;
                    r.push(copy_choice(c));
                    proof {
                        assert(r@.map_values(|c: ReplayChoice| c@) =~= before.map_values(|c: ReplayChoice| c@).push(
                            r@.last()@,
                        ));
                    }
                }
            },
            None => {},
        }
        i = i + 1;
    }
    proof {
        assert(log@.take(log@.len() as int) =~= log@);
    }
    r
}

/// The recorded choices of a turn's choice points, in order, to replay them
/// on resume.
pub fn extract_replay_choices(intra_turn_choices: &[ChoicePoint]) -> (r: Vec<ReplayChoice>)
    ensures
        r@.map_values(|c: ReplayChoice| c@) == replay_views(intra_turn_choices@, None),
{
    extract(intra_turn_choices, None)
}

/// The recorded choices made by one player, in order: each controller
/// replays only its own choices.
pub fn extract_replay_choices_for_player(intra_turn_choices: &[ChoicePoint], player_id: PlayerId) -> (r: Vec<
    ReplayChoice,
>)
    ensures
        r@.map_values(|c: ReplayChoice| c@) == replay_views(intra_turn_choices@, Some(player_id)),
{
    extract(intra_turn_choices, Some(player_id))
}

} // verus!

verus! {

/// In a two-player game the choices replayed by each player together are
/// all the recorded choices: none is lost, none replayed twice.
pub proof fn law_player_choices_partition_log(log: Seq<ChoicePoint>, p1: PlayerId, p2: PlayerId)
    requires
        p1 != p2,
        forall|i: int| 0 <= i < log.len() ==> (#[trigger] log[i]).player_id == p1 || log[i].player_id == p2,
    ensures
        replay_views(log, Some(p1)).len() + replay_views(log, Some(p2)).len() == replay_views(log, None).len(),
    decreases log.len(),
{
    if log.len() > 0 {
        let pre = log.drop_last();
        assert forall|i: int| 0 <= i < pre.len() implies (#[trigger] pre[i]).player_id == p1 || pre[i].player_id
            == p2 by {
            assert(pre[i] == log[i]);
        }
        law_player_choices_partition_log(pre, p1, p2);
        assert(log.last() == log[log.len() - 1]);
    }
}

} // verus!

verus! {

/// A game saved at the start of a turn, with the choices made during the
/// turn so far (replayed on resume) and the controllers' states.
pub struct GameSnapshot {
    /// The game at the start of the turn.
    pub game_state: GameState,
    /// The turn the snapshot was taken in.
    pub turn_number: u32,
    /// The choice points of this turn up to the stop, oldest first.
    pub intra_turn_choices: Vec<ChoicePoint>,
    pub p1_controller_state: Option<ControllerState>,
    pub p2_controller_state: Option<ControllerState>,
}

impl GameSnapshot {
    /// A snapshot with no controller state.
    pub fn new(game_state: GameState, turn_number: u32, intra_turn_choices: Vec<ChoicePoint>) -> (r: Self)
        ensures
            r.game_state == game_state,
            r.turn_number == turn_number,
            r.intra_turn_choices == intra_turn_choices,
            r.p1_controller_state is None,
            r.p2_controller_state is None,
    {
        GameSnapshot { game_state, turn_number, intra_turn_choices, p1_controller_state: None, p2_controller_state: None }
    }

    /// A snapshot that keeps the controllers' states.
    pub fn with_controller_state(
        game_state: GameState,
        turn_number: u32,
        intra_turn_choices: Vec<ChoicePoint>,
        p1_controller_state: Option<ControllerState>,
        p2_controller_state: Option<ControllerState>,
    ) -> (r: Self)
        ensures
            r.game_state == game_state,
            r.turn_number == turn_number,
            r.intra_turn_choices == intra_turn_choices,
            r.p1_controller_state == p1_controller_state,
            r.p2_controller_state == p2_controller_state,
    {
        GameSnapshot { game_state, turn_number, intra_turn_choices, p1_controller_state, p2_controller_state }
    }

    /// The number of choice points recorded this turn.
    pub fn choice_count(&self) -> (r: usize)
        ensures
            r == self.intra_turn_choices@.len(),
    {
        self.intra_turn_choices.len()
    }

    /// Whether choices were made this turn before the snapshot.
    pub fn has_intra_turn_state(&self) -> (r: bool)
        ensures
            r == (self.intra_turn_choices@.len() > 0),
    {
        self.intra_turn_choices.len() > 0
    }

    /// The recorded choices of the turn, in order, to replay on resume.
    pub fn extract_replay_choices(&self) -> (r: Vec<ReplayChoice>)
        ensures
            r@.map_values(|c: ReplayChoice| c@) == replay_views(self.intra_turn_choices@, None),
    {
        extract_replay_choices(self.intra_turn_choices.as_slice())
    }

    /// The recorded choices of one player, in order.
    pub fn extract_replay_choices_for_player(&self, player_id: PlayerId) -> (r: Vec<ReplayChoice>)
        ensures
            r@.map_values(|c: ReplayChoice| c@) == replay_views(self.intra_turn_choices@, Some(player_id)),
    {
        extract_replay_choices_for_player(self.intra_turn_choices.as_slice(), player_id)
    }
}

} // verus!
