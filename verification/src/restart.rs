//! Restarting the Codex app.

use vstd::prelude::*;
use crate::error::{AppError, Fault};
use crate::text;

verus! {

/// A step of restarting the Codex app.
#[derive(Clone, Copy, Debug, PartialEq, Eq, Structural)]
pub enum RestartStage {
    /// See whether the app is running.
    Probe,
    /// Ask it to quit.
    Quit,
    /// Open it.
    Open,
    Done,
}

/// What came of a step.
#[derive(Debug)]
pub enum RestartEvent {
    Running(bool),
    /// The command ended, and whether with success.
    Ended(bool),
    /// The command could not be run.
    NotRun(String),
}

/// Begins to restart the Codex app, which is possible on macOS alone.
pub fn restart_codex_app(on_macos: bool) -> (r: Result<RestartStage, AppError>)
    ensures
        if on_macos {
            r == Ok::<RestartStage, AppError>(RestartStage::Probe)
        } else {
            r matches Err(error) && error@ == Fault::Message(
                "Restarting Codex App is currently supported on macOS only."@,
            )
        },
{
    if on_macos {
        Ok(RestartStage::Probe)
    } else {
        Err(
            AppError::Message(
                "Restarting Codex App is currently supported on macOS only.".to_owned(),
            ),
        )
    }
}

/// What is to be done next, or why the restart failed. An event that does not
/// answer the stage leaves it.
pub open spec fn restart_after(stage: RestartStage, event: RestartEvent) -> Result<
    RestartStage,
    Fault,
> {
    match (stage, event) {
        (RestartStage::Probe, RestartEvent::Running(true)) => Ok(RestartStage::Quit),
        (RestartStage::Probe, RestartEvent::Running(false)) => Ok(RestartStage::Open),
        (RestartStage::Quit, RestartEvent::Ended(true)) => Ok(RestartStage::Open),
        (RestartStage::Quit, RestartEvent::Ended(false)) => Err(
            Fault::Message("Codex did not accept the quit request."@),
        ),
        (RestartStage::Quit, RestartEvent::NotRun(error)) => Err(
            Fault::Message("Failed to quit Codex: "@ + error@),
        ),
        (RestartStage::Open, RestartEvent::Ended(true)) => Ok(RestartStage::Done),
        (RestartStage::Open, RestartEvent::Ended(false)) => Err(
            Fault::Message("Codex did not accept the open request."@),
        ),
        (RestartStage::Open, RestartEvent::NotRun(error)) => Err(
            Fault::Message("Failed to open Codex: "@ + error@),
        ),
        _ => Ok(stage),
    }
}

/// What is to be done next, or why the restart failed.
pub fn restart_step(stage: RestartStage, event: RestartEvent) -> (r: Result<RestartStage, AppError>)
    ensures
        match r {
            Ok(next) => restart_after(stage, event) == Ok::<RestartStage, Fault>(next),
            Err(error) => restart_after(stage, event) == Err::<RestartStage, Fault>(error@),
        },
{
    match (stage, event) {
        (RestartStage::Probe, RestartEvent::Running(running)) => {
            if running {
                Ok(RestartStage::Quit)
            } else {
                Ok(RestartStage::Open)
            }
        },
        (RestartStage::Quit, RestartEvent::Ended(success)) => {
            if success {
                Ok(RestartStage::Open)
            } else {
                Err(AppError::Message("Codex did not accept the quit request.".to_owned()))
            }
        },
        (RestartStage::Quit, RestartEvent::NotRun(error)) => Err(
            AppError::Message(text::joined("Failed to quit Codex: ", error.as_str())),
        ),
        (RestartStage::Open, RestartEvent::Ended(success)) => {
            if success {
                Ok(RestartStage::Done)
            } else {
                Err(AppError::Message("Codex did not accept the open request.".to_owned()))
            }
        },
        (RestartStage::Open, RestartEvent::NotRun(error)) => Err(
            AppError::Message(text::joined("Failed to open Codex: ", error.as_str())),
        ),
        _ => Ok(stage),
    }
}

/// A restart quits the app where it runs and then opens it, and where it does
/// not run, opens it at once; a step that does not succeed ends the restart
/// with what went wrong.
pub proof fn law_restart_goes_step_by_step(error: String)
    ensures
        restart_after(RestartStage::Probe, RestartEvent::Running(true)) == Ok::<
            RestartStage,
            Fault,
        >(RestartStage::Quit),
        restart_after(RestartStage::Probe, RestartEvent::Running(false)) == Ok::<
            RestartStage,
            Fault,
        >(RestartStage::Open),
        restart_after(RestartStage::Quit, RestartEvent::Ended(true)) == Ok::<RestartStage, Fault>(
            RestartStage::Open,
        ),
        restart_after(RestartStage::Open, RestartEvent::Ended(true)) == Ok::<RestartStage, Fault>(
            RestartStage::Done,
        ),
        restart_after(RestartStage::Quit, RestartEvent::Ended(false)) == Err::<RestartStage, Fault>(
            Fault::Message("Codex did not accept the quit request."@),
        ),
        restart_after(RestartStage::Open, RestartEvent::Ended(false)) == Err::<RestartStage, Fault>(
            Fault::Message("Codex did not accept the open request."@),
        ),
        restart_after(RestartStage::Quit, RestartEvent::NotRun(error)) == Err::<RestartStage, Fault>(
            Fault::Message("Failed to quit Codex: "@ + error@),
        ),
        restart_after(RestartStage::Open, RestartEvent::NotRun(error)) == Err::<RestartStage, Fault>(
            Fault::Message("Failed to open Codex: "@ + error@),
        ),
{
}

} // verus!
