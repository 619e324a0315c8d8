//! Operator recovery of a faulted task: `skip` clears a skippable error and
//! moves on without retrying, `resume` retries the step that failed. Either
//! names the outside work the caller must then perform; the task's own state
//! changes are decided and applied here.

use vstd::prelude::*;

use crate::task::{RuntimeTaskErrorKind, State, Status, TaskError, TaskValue};

verus! {

/// The outside work a recovery asks its caller to perform.
#[derive(Debug, Clone, Copy, PartialEq, Eq, Structural)]
pub enum RecoveryAction {
    /// Submit the upload job for the current part again.
    RelaunchUpload,
    /// Run the advance-to-next-part step again.
    AddNextPart,
    /// Re-add the cached torrent and launch the current part.
    ReAddCurrent,
    /// Delete the torrent entry (keeping its files), then re-add the cached
    /// torrent and launch the current part.
    DeleteThenReAddCurrent,
}

/// The retry each error kind calls for.
pub open spec fn spec_resume_action(kind: RuntimeTaskErrorKind) -> RecoveryAction {
    match kind {
        RuntimeTaskErrorKind::LaunchUpload => RecoveryAction::RelaunchUpload,
        RuntimeTaskErrorKind::RuntimeUpload => RecoveryAction::RelaunchUpload,
        RuntimeTaskErrorKind::AddNextPart => RecoveryAction::AddNextPart,
        RuntimeTaskErrorKind::Download => RecoveryAction::DeleteThenReAddCurrent,
        RuntimeTaskErrorKind::TorrentNotFound => RecoveryAction::ReAddCurrent,
    }
}

/// Retry the failed step: a failed upload launch or check re-submits the
/// upload, a failed advance re-runs the advance, a download fault re-adds
/// the cached torrent after deleting the broken entry, and a lost torrent
/// re-adds it directly. The task itself changes only once the retried work
/// reports back.
pub fn resume_from_error(kind: RuntimeTaskErrorKind) -> (r: RecoveryAction)
    ensures
        r == spec_resume_action(kind),
{
    match kind {
        RuntimeTaskErrorKind::LaunchUpload | RuntimeTaskErrorKind::RuntimeUpload => {
            RecoveryAction::RelaunchUpload
        },
        RuntimeTaskErrorKind::AddNextPart => RecoveryAction::AddNextPart,
        RuntimeTaskErrorKind::Download => RecoveryAction::DeleteThenReAddCurrent,
        RuntimeTaskErrorKind::TorrentNotFound => RecoveryAction::ReAddCurrent,
    }
}

/// Skip a faulted step. A failed upload is written off: the part counts as
/// complete (`Finished`) and the error is cleared. A lost torrent is
/// re-added, which is the same work as resuming. Skipping any other kind is
/// a user error: `NotSkippable` comes back and the task is left exactly as
/// it was — whatever state the task is in.
pub fn skip_task(task: &mut TaskValue, kind: RuntimeTaskErrorKind) -> (r: Result<
    Option<RecoveryAction>,
    TaskError,
>)
    requires
        old(task).wf(),
    ensures
        final(task).wf(),
        !kind.spec_skipable() ==> (r matches Err(e) && e is NotSkippable) && *final(task) == *old(
            task,
        ),
        kind is RuntimeUpload ==> (r matches Ok(a) && a is None) && *final(task) == (TaskValue {
            error_info: None,
            state: (State { status: Status::Finished, ..old(task).state }),
            ..*old(task)
        }),
        kind is TorrentNotFound ==> (r matches Ok(a) && a == Some(RecoveryAction::ReAddCurrent))
            && *final(task) == *old(task),
{
    match kind {
        RuntimeTaskErrorKind::TorrentNotFound => Ok(Some(RecoveryAction::ReAddCurrent)),
        RuntimeTaskErrorKind::RuntimeUpload => {
            task.state.status = Status::Finished;
            task.error_info = None;
            Ok(None)
        },
        _ => Err(TaskError::NotSkippable),
    }
}

/// What the operator's start command amounts to.
#[derive(Debug, Clone, Copy, PartialEq, Eq, Structural)]
pub enum StartDecision {
    /// Tell qBittorrent to start the torrent and mark the task downloading.
    Start,
    /// Recover the faulted task: skip or retry per `resume`.
    Resume { kind: RuntimeTaskErrorKind, skip: bool },
}

/// Decide the operator's start command: a paused task is simply started; a
/// faulted task is resumed — skipping when forced, but only a skippable
/// kind may be forced; any other state is a user error.
pub fn start_task(task: &TaskValue, forced: bool) -> (r: Result<StartDecision, TaskError>)
    requires
        task.wf(),
    ensures
        task.state.status is Paused ==> r == Ok::<StartDecision, TaskError>(StartDecision::Start),
        (task.state.status is Error && forced && !task.error_info.unwrap().kind.spec_skipable())
            ==> (r matches Err(e) && e is NotSkippable),
        (task.state.status is Error && !(forced
            && !task.error_info.unwrap().kind.spec_skipable())) ==> r == Ok::<
            StartDecision,
            TaskError,
        >(StartDecision::Resume { kind: task.error_info.unwrap().kind, skip: forced }),
        !(task.state.status is Paused || task.state.status is Error) ==> (r matches Err(e)
            && e is Common),
{
    match task.state.status {
        Status::Paused => Ok(StartDecision::Start),
        Status::Error => {
            let kind = match &task.error_info {
                Some(e) => e.kind,
                None => {
                    proof {
                        assert(false);
                    }
                    return Err(TaskError::NotSkippable);
                },
            };
            if forced && !kind.skipable() {
                Err(TaskError::NotSkippable)
            } else {
                Ok(StartDecision::Resume { kind, skip: forced })
            }
        },
        _ => Err(TaskError::Common(String::from_str("task is not in a paused or error state"))),
    }
}

/// Resume a task from `Error`: with `skip` the faulted step is skipped where
/// its kind allows, otherwise the step is retried. The result names the
/// outside work still to perform, if any.
pub fn resume(task: &mut TaskValue, kind: RuntimeTaskErrorKind, skip: bool) -> (r: Result<
    Option<RecoveryAction>,
    TaskError,
>)
    requires
        old(task).wf(),
        old(task).state.status is Error,
    ensures
        final(task).wf(),
        skip && !kind.spec_skipable() ==> (r matches Err(e) && e is NotSkippable) && *final(task)
            == *old(task),
        skip && kind is RuntimeUpload ==> (r matches Ok(a) && a is None) && *final(task) == (
        TaskValue {
            error_info: None,
            state: (State { status: Status::Finished, ..old(task).state }),
            ..*old(task)
        }),
        skip && kind is TorrentNotFound ==> (r matches Ok(a) && a == Some(
            RecoveryAction::ReAddCurrent,
        )) && *final(task) == *old(task),
        !skip ==> (r matches Ok(a) && a == Some(spec_resume_action(kind))) && *final(task) == *old(
            task,
        ),
{
    if skip {
        skip_task(task, kind)
    } else {
        Ok(Some(resume_from_error(kind)))
    }
}

} // verus!
