use calculate_winner::driver::{
    step, DriverError, DriverEvent, DriverState, GameOutcome, Stage,
};

#[test]
fn from_win_count_reads_each_code() {
    assert_eq!(GameOutcome::from_win_count(0), Ok(GameOutcome::UserWon));
    assert_eq!(GameOutcome::from_win_count(1), Ok(GameOutcome::ComputerWon));
    assert_eq!(GameOutcome::from_win_count(2), Ok(GameOutcome::Tie));
    assert_eq!(
        GameOutcome::from_win_count(3),
        Err(DriverError::InvalidOutcomeCode)
    );
}

#[test]
fn happy_path_reaches_verified() {
    let game = vec![[0u32, 1u32], [2, 0]];
    let s = step(DriverState::Idle, DriverEvent::ParseOk { game: game.clone() });
    assert_eq!(s, DriverState::Configured { game: game.clone() });
    let s = step(s, DriverEvent::SetupOk);
    assert_eq!(s, DriverState::Setup { game: game.clone() });
    let s = step(s, DriverEvent::ProveOk);
    assert_eq!(s, DriverState::Proved { game: game.clone() });
    let s = step(s, DriverEvent::SaveOk);
    assert_eq!(s, DriverState::Saved { game: game.clone() });
    let s = step(s, DriverEvent::VerifyOk);
    assert_eq!(s, DriverState::Verified { game });
}

#[test]
fn execute_path_runs_the_engine() {
    let game = vec![[0u32, 2u32], [1, 0], [2, 1]];
    let s = step(DriverState::Idle, DriverEvent::ParseOk { game: game.clone() });
    let s = step(s, DriverEvent::ExecuteRequested);
    assert_eq!(s, DriverState::Executed { game, win_count: 0 });
}

#[test]
fn parse_failure_fails_the_run() {
    let s = step(DriverState::Idle, DriverEvent::ParseFailed);
    assert_eq!(
        s,
        DriverState::Failed { stage: Stage::Parse, error: DriverError::InputParse }
    );
}

#[test]
fn an_illegal_move_is_rejected_at_the_boundary() {
    let s = step(DriverState::Idle, DriverEvent::ParseOk { game: vec![[0, 3]] });
    assert_eq!(
        s,
        DriverState::Failed { stage: Stage::Parse, error: DriverError::InvalidMove }
    );
}

#[test]
fn each_stage_failure_names_its_stage() {
    let game = || vec![[0u32, 1u32]];
    assert_eq!(
        step(DriverState::Configured { game: game() }, DriverEvent::SetupFailed),
        DriverState::Failed { stage: Stage::Setup, error: DriverError::ProvingBackend }
    );
    assert_eq!(
        step(DriverState::Setup { game: game() }, DriverEvent::ProveFailed),
        DriverState::Failed { stage: Stage::Prove, error: DriverError::ProvingBackend }
    );
    assert_eq!(
        step(DriverState::Proved { game: game() }, DriverEvent::SaveFailed),
        DriverState::Failed { stage: Stage::Save, error: DriverError::Persistence }
    );
    assert_eq!(
        step(DriverState::Saved { game: game() }, DriverEvent::VerifyFailed),
        DriverState::Failed { stage: Stage::Verify, error: DriverError::VerificationFailure }
    );
}

#[test]
fn cancellation_fails_with_the_awaited_stage() {
    let game = || vec![[1u32, 1u32]];
    assert_eq!(
        step(DriverState::Idle, DriverEvent::Cancelled),
        DriverState::Failed { stage: Stage::Parse, error: DriverError::Cancelled }
    );
    assert_eq!(
        step(DriverState::Setup { game: game() }, DriverEvent::Cancelled),
        DriverState::Failed { stage: Stage::Prove, error: DriverError::Cancelled }
    );
    assert_eq!(
        step(DriverState::Saved { game: game() }, DriverEvent::Cancelled),
        DriverState::Failed { stage: Stage::Verify, error: DriverError::Cancelled }
    );
}

#[test]
fn terminal_states_absorb_every_event() {
    let failed = DriverState::Failed { stage: Stage::Prove, error: DriverError::ProvingBackend };
    assert_eq!(step(failed, DriverEvent::ProveOk), DriverState::Failed {
        stage: Stage::Prove,
        error: DriverError::ProvingBackend,
    });
    let verified = DriverState::Verified { game: vec![[0, 1]] };
    assert_eq!(
        step(verified, DriverEvent::Cancelled),
        DriverState::Verified { game: vec![[0, 1]] }
    );
    let executed = DriverState::Executed { game: vec![], win_count: 2 };
    assert_eq!(
        step(executed, DriverEvent::SetupOk),
        DriverState::Executed { game: vec![], win_count: 2 }
    );
}

#[test]
fn an_unawaited_event_leaves_the_state_unchanged() {
    let s = step(DriverState::Idle, DriverEvent::SaveOk);
    assert_eq!(s, DriverState::Idle);
    let s = step(
        DriverState::Configured { game: vec![[2, 2]] },
        DriverEvent::VerifyOk,
    );
    assert_eq!(s, DriverState::Configured { game: vec![[2, 2]] });
}
