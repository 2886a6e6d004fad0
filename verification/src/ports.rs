//! Values exchanged with the engine's host.
//!
//! The engine never talks to a scheduler or a random source itself.  When it
//! needs deferred work it returns [`PortRequest`] values; the host performs
//! them (schedules the timer, cancels it) and later feeds the outcome back in
//! as an ordinary engine call.  Rejected actions are reported as a
//! [`GameError`] and leave the state untouched.

use vstd::prelude::*;

verus! {

/// Why an action was rejected.  No action is ever partially applied: on any
/// of these the state is returned unchanged.
#[derive(Clone, Copy, PartialEq, Eq, Structural, Debug)]
pub enum GameError {
    /// The proposed play fails a serve-validation or card-transfer check.
    InvalidPlay,
    /// The actor is seated but it is another player's turn.
    NotYourTurn,
    /// The actor is not seated at the table.
    UnknownPlayer,
    /// A selection does not answer an outstanding prompt, its size does
    /// not match the pile in play, or a play or pass arrived while a
    /// selection is still owed.
    PromptMismatch,
}

/// The terminal pile a flush moves the play stack into.
#[derive(Clone, Copy, PartialEq, Eq, Structural, Debug)]
pub enum FlushTarget {
    /// The ordinary discard pile.
    Trushes,
    /// The exclusion pile; cards here only return via a rank-13 prompt.
    Excluded,
}

/// What an outstanding prompt asks of a player.
#[derive(Clone, Copy, PartialEq, Eq, Structural, Debug)]
pub enum PromptKind {
    /// Pick cards from the discard pile into the hand (rank-4 effect).
    Trushes,
    /// Pick cards from the exclusion pile into the hand (rank-13 effect).
    Excluded,
    /// Gift cards from the own hand to the seat before the actor (rank-7
    /// effect).
    Passes,
}

/// Work the host must perform on the engine's behalf.
#[derive(Clone, PartialEq, Eq, Debug)]
pub enum PortRequest {
    /// Run a flush of the play stack into `to` after `delay_ms` milliseconds,
    /// on behalf of `player_id`, unless the task is canceled first.  The
    /// engine names the task itself; `task_id` is fresh per request.
    Schedule { player_id: String, to: FlushTarget, task_id: u64, delay_ms: u32 },
    /// Cancel a previously scheduled task.  Canceling a task that already
    /// fired or was already canceled is a no-op for the host as well.
    Cancel { task_id: u64 },
}

} // verus!
