//! What the actions on a process come to: messages, refreshes and results.
use vstd::prelude::*;

use super::commands::ProcCommand;
use super::page::ProcessPageState;
use super::tree::{ProcessTreePrepareError, ProcessTreeTerminationOutcome};
use crate::text::{append_chars, append_text, chars_of, copy_of, decimal_chars, decimal_text, string_of};
use crate::utf16::{decode_lossy, decoded_lossy};
use crate::win32::{ERROR_FILE_NOT_FOUND, ERROR_INVALID_HANDLE};

verus! {

pub const IDYES: i32 = 6;

/// What a message says was not possible.
#[derive(Clone, Copy, Debug, PartialEq, Eq, Structural)]
pub enum FailureText {
    CannotEnd,
    CannotEndTree,
    CannotDebug,
    CannotOpenFileLocation,
    CannotChangePriority,
    CannotSetAffinity,
}

/// A message to the user.
#[derive(Clone, Copy, Debug, PartialEq, Eq, Structural)]
pub enum ActionMessage {
    Failure(FailureText, u32),
    /// Some process of a tree could not be ended.
    TreeIncomplete,
}

/// What an action comes to.
#[derive(Clone, Copy, Debug, PartialEq, Eq, Structural)]
pub struct ActionReport {
    pub succeeded: bool,
    /// The page goes on refreshing from now on.
    pub unpauses: bool,
    pub refreshes: bool,
    pub message: Option<ActionMessage>,
}

pub open spec fn failure(text: FailureText, error: u32) -> ActionReport {
    ActionReport {
        succeeded: false,
        unpauses: false,
        refreshes: false,
        message: Some(ActionMessage::Failure(text, error)),
    }
}

/// Whether the user is asked before an action.
pub open spec fn asks_first(command: ProcCommand) -> bool {
    command is Terminate || command is TerminateTree || command is Debug || command is SetPriority
}

/// Whether the user has to be asked before an action: never if confirmations are switched off.
pub fn needs_confirmation(page: &ProcessPageState, command: ProcCommand) -> (needed: bool)
    ensures
        needed == (page.confirmations && asks_first(command)),
{
    page.confirmations && match command {
        ProcCommand::Terminate
        | ProcCommand::TerminateTree
        | ProcCommand::Debug
        | ProcCommand::SetPriority(_) => true,
        _ => false,
    }
}

/// Whether an action goes on. `answer` is what the user said, if there was a question.
pub fn quick_confirm(answer: Option<i32>) -> (confirmed: bool)
    ensures
        confirmed == match answer {
            None => true,
            Some(answer) => answer == IDYES,
        },
{
    match answer {
        None => true,
        Some(answer) => answer == IDYES,
    }
}

/// What is said if an action on one process fails.
pub open spec fn failure_text(command: ProcCommand) -> FailureText {
    match command {
        ProcCommand::Terminate => FailureText::CannotEnd,
        ProcCommand::TerminateTree => FailureText::CannotEndTree,
        ProcCommand::Debug => FailureText::CannotDebug,
        ProcCommand::OpenFileLocation => FailureText::CannotOpenFileLocation,
        ProcCommand::Affinity => FailureText::CannotSetAffinity,
        ProcCommand::SetPriority(_) => FailureText::CannotChangePriority,
        ProcCommand::PickColumns => FailureText::CannotEnd,
    }
}

/// What an action on one process comes to. After the end of a process, a new priority or new
/// processors the page is refreshed, and after the first two it no longer pauses.
pub fn conclude_action(command: ProcCommand, outcome: Result<(), u32>) -> (report: ActionReport)
    requires
        !(command is TerminateTree),
        !(command is PickColumns),
    ensures
        report == match outcome {
            Err(error) => failure(failure_text(command), error),
            Ok(_) => (ActionReport {
                succeeded: true,
                unpauses: command is Terminate || command is SetPriority,
                refreshes: command is Terminate || command is SetPriority || command is Affinity,
                message: None,
            }),
        },
{
    let text = match command {
        ProcCommand::Terminate => FailureText::CannotEnd,
        ProcCommand::TerminateTree => FailureText::CannotEndTree,
        ProcCommand::Debug => FailureText::CannotDebug,
        ProcCommand::OpenFileLocation => FailureText::CannotOpenFileLocation,
        ProcCommand::Affinity => FailureText::CannotSetAffinity,
        ProcCommand::SetPriority(_) => FailureText::CannotChangePriority,
        ProcCommand::PickColumns => FailureText::CannotEnd,
    };
    match outcome {
        Err(error) => ActionReport {
            succeeded: false,
            unpauses: false,
            refreshes: false,
            message: Some(ActionMessage::Failure(text, error)),
        },
        Ok(_) => {
            let restarts = match command {
                ProcCommand::Terminate | ProcCommand::SetPriority(_) => true,
                _ => false,
            };
            let refreshes = match command {
                ProcCommand::Affinity => true,
                _ => restarts,
            };
            ActionReport { succeeded: true, unpauses: restarts, refreshes, message: None }
        },
    }
}

/// What the end of a tree of processes comes to.
pub fn kill_process_tree(
    outcome: Result<ProcessTreeTerminationOutcome, ProcessTreePrepareError>,
) -> (report: ActionReport)
    ensures
        match outcome {
            Err(ProcessTreePrepareError::Root(error)) => report == failure(
                FailureText::CannotEnd,
                error,
            ),
            Err(ProcessTreePrepareError::Tree(error)) => report == failure(
                FailureText::CannotEndTree,
                error,
            ),
            Ok(outcome) => {
                &&& report.unpauses == outcome.any_completed
                &&& report.refreshes == outcome.any_completed
                &&& report.message == if outcome.root_error != 0 && !outcome.any_success {
                    Some(ActionMessage::Failure(FailureText::CannotEnd, outcome.root_error))
                } else if outcome.any_failure {
                    Some(ActionMessage::TreeIncomplete)
                } else {
                    None
                }
                &&& report.succeeded == (report.message is None && outcome.any_completed)
            },
        },
{
    match outcome {
        Err(ProcessTreePrepareError::Root(error)) => ActionReport {
            succeeded: false,
            unpauses: false,
            refreshes: false,
            message: Some(ActionMessage::Failure(FailureText::CannotEnd, error)),
        },
        Err(ProcessTreePrepareError::Tree(error)) => ActionReport {
            succeeded: false,
            unpauses: false,
            refreshes: false,
            message: Some(ActionMessage::Failure(FailureText::CannotEndTree, error)),
        },
        Ok(outcome) => {
            let mut report = ActionReport {
                succeeded: false,
                unpauses: outcome.any_completed,
                refreshes: outcome.any_completed,
                message: None,
            };
            if outcome.root_error != 0 && !outcome.any_success() {
                report.message = Some(
                    ActionMessage::Failure(FailureText::CannotEnd, outcome.root_error),
                );
            } else if outcome.any_failure() {
                report.message = Some(ActionMessage::TreeIncomplete);
            } else {
                report.succeeded = outcome.completed_without_failure();
            }
            report
        },
    }
}

impl ProcessPageState {
    /// Takes over what an action came to, and tells whether the rows are sampled anew.
    pub fn finish_action(&mut self, report: ActionReport) -> (refresh: bool)
        ensures
            refresh == report.refreshes,
            *final(self) == (ProcessPageState {
                paused: old(self).paused && !report.unpauses,
                ..*old(self)
            }),
    {
        if report.unpauses {
            self.paused = false;
        }
        report.refreshes
    }
}

/// The title of a message about a failure.
pub fn failure_title(warning: &str) -> (title: String)
    ensures
        title@ == if warning@.len() == 0 {
            "Task Manager"@
        } else {
            warning@
        },
{
    if chars_of(warning).len() == 0 {
        copy_of("Task Manager")
    } else {
        copy_of(warning)
    }
}

/// The text of a message about a failure.
pub fn failure_message(body: &str, error: u32) -> (message: String)
    ensures
        message@ == body@ + "\r\n\r\nWin32 error: "@ + decimal_text(error as nat),
{
    let mut message = chars_of(body);
    append_text(&mut message, "\r\n\r\nWin32 error: ");
    append_chars(&mut message, decimal_chars(error as u64).as_slice());
    string_of(message.as_slice())
}

/// A started program has a process and a thread.
pub fn own_created_process_handles(has_process: bool, has_thread: bool) -> (outcome: Result<
    (),
    u32,
>)
    ensures
        outcome == if has_process && has_thread {
            Ok::<(), u32>(())
        } else {
            Err(ERROR_INVALID_HANDLE)
        },
{
    if has_process && has_thread {
        Ok(())
    } else {
        Err(ERROR_INVALID_HANDLE)
    }
}

/// The path of a program out of the buffer that the system wrote it into.
pub fn query_process_image_path(queried: Result<(), u32>, buffer: &Vec<u16>, length: usize) -> (outcome:
    Result<String, u32>)
    requires
        length <= buffer@.len(),
    ensures
        match queried {
            Err(error) => outcome == Err::<String, u32>(error),
            Ok(_) => outcome matches Ok(path) && path@ == decoded_lossy(
                buffer@.take(length as int),
            ),
        },
{
    if let Err(error) = queried {
        return Err(error);
    }
    let units = vstd::slice::slice_subrange(buffer.as_slice(), 0, length);
    assert(units@ =~= buffer@.take(length as int));
    Ok(decode_lossy(units))
}

/// The path of a program that is shown in its directory: there has to be such a file.
pub fn image_to_show(image_path: Result<String, u32>, exists: bool) -> (outcome: Result<String, u32>)
    ensures
        outcome == match image_path {
            Err(error) => Err::<String, u32>(error),
            Ok(path) => if exists {
                Ok(path)
            } else {
                Err(ERROR_FILE_NOT_FOUND)
            },
        },
{
    match image_path {
        Err(error) => Err(error),
        Ok(path) => if exists {
            Ok(path)
        } else {
            Err(ERROR_FILE_NOT_FOUND)
        },
    }
}

/// What to do after the question for the directory of the system.
pub enum DirectoryStep {
    Done(String),
    /// Ask again, with room for this many units.
    Grow(usize),
    Fail(u32),
}

/// Decides on the length that the system returned. It counts the terminator if the room was too
/// small.
pub fn query_windows_directory(length: usize, error: u32, buffer: &Vec<u16>) -> (step: DirectoryStep)
    ensures
        if length == 0 {
            step == DirectoryStep::Fail(error)
        } else if length < buffer@.len() {
            step matches DirectoryStep::Done(path) && path@ == decoded_lossy(
                buffer@.take(length as int),
            )
        } else {
            step == DirectoryStep::Grow(
                if length < usize::MAX {
                    (length + 1) as usize
                } else {
                    usize::MAX
                },
            )
        },
{
    if length == 0 {
        return DirectoryStep::Fail(error);
    }
    if length < buffer.len() {
        let units = vstd::slice::slice_subrange(buffer.as_slice(), 0, length);
        assert(units@ =~= buffer@.take(length as int));
        return DirectoryStep::Done(decode_lossy(units));
    }
    DirectoryStep::Grow(length.saturating_add(1))
}

} // verus!
