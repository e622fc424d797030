//! What session operations report when they cannot do their work.
use vstd::prelude::*;

verus! {

#[derive(Clone, Copy, Debug, PartialEq, Eq)]
pub enum Error {
    /// The session already holds as many participants as it takes.
    MaxPlayers,
    /// The participant's board could not be generated.
    BoardGenerationError,
    /// No session has this id.
    NotFound { game_id: u32 },
    /// The host already runs the session `game_id`.
    OngoingGame { host: u64, game_id: u32 },
}

} // verus!
