//! Proof driver: the decision core of the prove-and-verify pipeline.
//!
//! The pipeline runs `Idle → Configured → Setup → Proved → Saved →
//! Verified`, with a failure exit from every stage to `Failed` and a
//! documented alternate entry `Configured → Executed` that runs the
//! outcome engine without proving. The outside work of each stage —
//! parsing the input, deriving keys, proving, persisting the artifact,
//! verifying — happens elsewhere; its result comes back as a
//! `DriverEvent`, and `step` decides the next state from state and event
//! alone. An event a state is not waiting on leaves the state unchanged,
//! and the terminal states `Verified`, `Executed` and `Failed` absorb
//! every event.

use vstd::prelude::*;
use crate::{compute_winner, copy_rounds, outcome_of, rounds_valid, all_moves_valid};

verus! {

/// Outcome of a finished game, as the outcome code names it.
#[derive(Debug, Clone, Copy, PartialEq, Eq, Structural)]
pub enum GameOutcome {
    UserWon,
    ComputerWon,
    Tie,
}

/// The pipeline stage in which a failure arose.
#[derive(Debug, Clone, Copy, PartialEq, Eq, Structural)]
pub enum Stage {
    Parse,
    Setup,
    Prove,
    Save,
    Verify,
}

/// Why a run failed: malformed input text, an illegal move, a fault of
/// the proving backend, a persistence fault, a proof that did not verify,
/// a caller-initiated cancellation, or an outcome code outside 0..=2.
#[derive(Debug, Clone, Copy, PartialEq, Eq, Structural)]
pub enum DriverError {
    InputParse,
    InvalidMove,
    ProvingBackend,
    Persistence,
    VerificationFailure,
    Cancelled,
    InvalidOutcomeCode,
}

impl GameOutcome {
    /// Reads an outcome code: 0 names the player, 1 the computer, 2
    /// nobody as winner. Any other code is rejected as
    /// `InvalidOutcomeCode` rather than aborting the run.
    pub fn from_win_count(count: u32) -> (r: Result<GameOutcome, DriverError>)
        ensures
            count == 0 ==> r == Ok::<GameOutcome, DriverError>(GameOutcome::UserWon),
            count == 1 ==> r == Ok::<GameOutcome, DriverError>(GameOutcome::ComputerWon),
            count == 2 ==> r == Ok::<GameOutcome, DriverError>(GameOutcome::Tie),
            count > 2 ==> r == Err::<GameOutcome, DriverError>(DriverError::InvalidOutcomeCode),
    {
        match count {
            0 => Ok(GameOutcome::UserWon),
            1 => Ok(GameOutcome::ComputerWon),
            2 => Ok(GameOutcome::Tie),
            _ => Err(DriverError::InvalidOutcomeCode),
        }
    }
}

/// A state of one proof run. Every state past `Idle` that is still on the
/// happy path carries the game it works on.
#[derive(Debug, PartialEq, Eq)]
pub enum DriverState {
    Idle,
    Configured { game: Vec<[u32; 2]> },
    Setup { game: Vec<[u32; 2]> },
    Proved { game: Vec<[u32; 2]> },
    Saved { game: Vec<[u32; 2]> },
    Verified { game: Vec<[u32; 2]> },
    Executed { game: Vec<[u32; 2]>, win_count: u32 },
    Failed { stage: Stage, error: DriverError },
}

/// What the outside world reports back to the driver.
#[derive(Debug, PartialEq, Eq)]
pub enum DriverEvent {
    ParseOk { game: Vec<[u32; 2]> },
    ParseFailed,
    ExecuteRequested,
    SetupOk,
    SetupFailed,
    ProveOk,
    ProveFailed,
    SaveOk,
    SaveFailed,
    VerifyOk,
    VerifyFailed,
    Cancelled,
}

/// True of `Verified`, `Executed` and `Failed`: a run ends there.
pub open spec fn is_terminal(s: DriverState) -> bool {
    match s {
        DriverState::Verified { .. } => true,
        DriverState::Executed { .. } => true,
        DriverState::Failed { .. } => true,
        _ => false,
    }
}

/// The transition relation of the driver: `state_step(pre, event, post)`
/// holds exactly when `step(pre, event)` may return `post`. It is a
/// function of `pre` and `event`; the relation form only spares the
/// caller from naming the whole next state.
pub open spec fn state_step(pre: DriverState, event: DriverEvent, post: DriverState) -> bool {
    if is_terminal(pre) {
        post == pre
    } else {
        match (pre, event) {
            (DriverState::Idle, DriverEvent::ParseOk { game }) => if rounds_valid(game@) {
                post == (DriverState::Configured { game })
            } else {
                post == (DriverState::Failed {
                    stage: Stage::Parse,
                    error: DriverError::InvalidMove,
                })
            },
            (DriverState::Idle, DriverEvent::ParseFailed) => post == (DriverState::Failed {
                stage: Stage::Parse,
                error: DriverError::InputParse,
            }),
            (DriverState::Idle, DriverEvent::Cancelled) => post == (DriverState::Failed {
                stage: Stage::Parse,
                error: DriverError::Cancelled,
            }),
            (DriverState::Configured { game }, DriverEvent::SetupOk) => post == (DriverState::Setup {
                game,
            }),
            (DriverState::Configured { .. }, DriverEvent::SetupFailed) => post == (DriverState::Failed {
                stage: Stage::Setup,
                error: DriverError::ProvingBackend,
            }),
            (DriverState::Configured { game }, DriverEvent::ExecuteRequested) => post == (DriverState::Executed {
                game,
                win_count: outcome_of(game@),
            }),
            (DriverState::Configured { .. }, DriverEvent::Cancelled) => post == (DriverState::Failed {
                stage: Stage::Setup,
                error: DriverError::Cancelled,
            }),
            (DriverState::Setup { game }, DriverEvent::ProveOk) => post == (DriverState::Proved {
                game,
            }),
            (DriverState::Setup { .. }, DriverEvent::ProveFailed) => post == (DriverState::Failed {
                stage: Stage::Prove,
                error: DriverError::ProvingBackend,
            }),
            (DriverState::Setup { .. }, DriverEvent::Cancelled) => post == (DriverState::Failed {
                stage: Stage::Prove,
                error: DriverError::Cancelled,
            }),
            (DriverState::Proved { game }, DriverEvent::SaveOk) => post == (DriverState::Saved {
                game,
            }),
            (DriverState::Proved { .. }, DriverEvent::SaveFailed) => post == (DriverState::Failed {
                stage: Stage::Save,
                error: DriverError::Persistence,
            }),
            (DriverState::Proved { .. }, DriverEvent::Cancelled) => post == (DriverState::Failed {
                stage: Stage::Save,
                error: DriverError::Cancelled,
            }),
            (DriverState::Saved { game }, DriverEvent::VerifyOk) => post == (DriverState::Verified {
                game,
            }),
            (DriverState::Saved { .. }, DriverEvent::VerifyFailed) => post == (DriverState::Failed {
                stage: Stage::Verify,
                error: DriverError::VerificationFailure,
            }),
            (DriverState::Saved { .. }, DriverEvent::Cancelled) => post == (DriverState::Failed {
                stage: Stage::Verify,
                error: DriverError::Cancelled,
            }),
            (pre2, _) => post == pre2,
        }
    }
}

/// Decides the next state of a run from the current state and what the
/// outside world reported: exactly the transition that `state_step`
/// describes, including the input validation on `ParseOk` and the local
/// run of the outcome engine on `ExecuteRequested`.
pub fn step(state: DriverState, event: DriverEvent) -> (next: DriverState)
    ensures
        state_step(state, event, next),
{
    match (state, event) {
        (DriverState::Idle, DriverEvent::ParseOk { game }) => {
            if all_moves_valid(&game) {
                DriverState::Configured { game }
            } else {
                DriverState::Failed { stage: Stage::Parse, error: DriverError::InvalidMove }
            }
        },
        (DriverState::Idle, DriverEvent::ParseFailed) => DriverState::Failed {
            stage: Stage::Parse,
            error: DriverError::InputParse,
        },
        (DriverState::Idle, DriverEvent::Cancelled) => DriverState::Failed {
            stage: Stage::Parse,
            error: DriverError::Cancelled,
        },
        (DriverState::Configured { game }, DriverEvent::SetupOk) => DriverState::Setup { game },
        (DriverState::Configured { .. }, DriverEvent::SetupFailed) => DriverState::Failed {
            stage: Stage::Setup,
            error: DriverError::ProvingBackend,
        },
        (DriverState::Configured { game }, DriverEvent::ExecuteRequested) => {
            let win_count = compute_winner(copy_rounds(&game));
            DriverState::Executed { game, win_count }
        },
        (DriverState::Configured { .. }, DriverEvent::Cancelled) => DriverState::Failed {
            stage: Stage::Setup,
            error: DriverError::Cancelled,
        },
        (DriverState::Setup { game }, DriverEvent::ProveOk) => DriverState::Proved { game },
        (DriverState::Setup { .. }, DriverEvent::ProveFailed) => DriverState::Failed {
            stage: Stage::Prove,
            error: DriverError::ProvingBackend,
        },
        (DriverState::Setup { .. }, DriverEvent::Cancelled) => DriverState::Failed {
            stage: Stage::Prove,
            error: DriverError::Cancelled,
        },
        (DriverState::Proved { game }, DriverEvent::SaveOk) => DriverState::Saved { game },
        (DriverState::Proved { .. }, DriverEvent::SaveFailed) => DriverState::Failed {
            stage: Stage::Save,
            error: DriverError::Persistence,
        },
        (DriverState::Proved { .. }, DriverEvent::Cancelled) => DriverState::Failed {
            stage: Stage::Save,
            error: DriverError::Cancelled,
        },
        (DriverState::Saved { game }, DriverEvent::VerifyOk) => DriverState::Verified { game },
        (DriverState::Saved { .. }, DriverEvent::VerifyFailed) => DriverState::Failed {
            stage: Stage::Verify,
            error: DriverError::VerificationFailure,
        },
        (DriverState::Saved { .. }, DriverEvent::Cancelled) => DriverState::Failed {
            stage: Stage::Verify,
            error: DriverError::Cancelled,
        },
        (s, _) => s,
    }
}

} // verus!
