//! The way to a debugger that is attached to a process, step by step.
//!
//! Every step asks the system for one thing. What it answers decides what is asked for next, or
//! what is said to the user.
use vstd::prelude::*;

use super::actions::{
    conclude_action, failure, own_created_process_handles, quick_confirm, ActionMessage,
    ActionReport, FailureText, IDYES,
};
use super::commands::ProcCommand;
use super::debugger::{
    debugger_registry_view_for_machines, debugger_to_attach, filled, format_debugger_template,
    registry_view, template_error, DebuggerCommand, DebuggerRegistryView,
};
use crate::text::{copy_of, decimal_text};
use crate::win32::{ERROR_FILE_NOT_FOUND, ERROR_INVALID_HANDLE, ERROR_NOT_SUPPORTED};

verus! {

/// What was asked for last.
pub enum AttachState {
    Confirmation,
    Process,
    Machines,
    Command,
    /// Whether the program of this debugger is a file.
    Program(DebuggerCommand),
    /// The event that this debugger signals.
    Event(DebuggerCommand),
    /// The attributes that hand the event to a program with this path and command line.
    Attributes(String, String),
    Start,
}

/// What the system answered.
pub enum AttachEvent {
    Confirmation(i32),
    Process(Result<(), u32>),
    /// The machine of the process, and that of the system.
    Machines(Result<(u16, u16), u32>),
    Command(Result<Option<DebuggerCommand>, u32>),
    Program(bool),
    /// The handle of the event.
    Event(Result<u64, u32>),
    Attributes(Result<(), u32>),
    /// Whether there is a process, and whether there is a thread.
    Start(Result<(bool, bool), u32>),
}

/// What is asked for.
pub enum AttachAction {
    Confirm,
    OpenProcess,
    QueryMachines,
    LoadCommand(DebuggerRegistryView),
    CheckProgram(String),
    CreateEvent,
    PrepareAttributes(u64),
    /// A program with this path and this command line.
    Start(String, String),
}

pub enum AttachStep {
    Next(AttachState, AttachAction),
    Done(ActionReport),
}

/// Whether an answer belongs to what was asked for.
pub open spec fn answers(state: AttachState, event: AttachEvent) -> bool {
    match (state, event) {
        (AttachState::Confirmation, AttachEvent::Confirmation(_)) => true,
        (AttachState::Process, AttachEvent::Process(_)) => true,
        (AttachState::Machines, AttachEvent::Machines(_)) => true,
        (AttachState::Command, AttachEvent::Command(_)) => true,
        (AttachState::Program(_), AttachEvent::Program(_)) => true,
        (AttachState::Event(_), AttachEvent::Event(_)) => true,
        (AttachState::Attributes(_, _), AttachEvent::Attributes(_)) => true,
        (AttachState::Start, AttachEvent::Start(_)) => true,
        _ => false,
    }
}

/// Nothing happens because the user does not want it.
pub open spec fn declined() -> ActionReport {
    ActionReport { succeeded: false, unpauses: false, refreshes: false, message: None }
}

pub open spec fn attached() -> ActionReport {
    ActionReport { succeeded: true, unpauses: false, refreshes: false, message: None }
}

pub open spec fn cannot_debug(error: u32) -> AttachStep {
    AttachStep::Done(failure(FailureText::CannotDebug, error))
}

/// The first thing that is asked for: the user, unless confirmations are switched off.
pub fn attach_debugger(confirmations: bool) -> (step: (AttachState, AttachAction))
    ensures
        step == if confirmations {
            (AttachState::Confirmation, AttachAction::Confirm)
        } else {
            (AttachState::Process, AttachAction::OpenProcess)
        },
{
    if confirmations {
        (AttachState::Confirmation, AttachAction::Confirm)
    } else {
        (AttachState::Process, AttachAction::OpenProcess)
    }
}

fn give_up(error: u32) -> (step: AttachStep)
    ensures
        step == cannot_debug(error),
{
    AttachStep::Done(conclude_action(ProcCommand::Debug, Err(error)))
}

/// Whether a step follows from an answer.
pub open spec fn follows(state: AttachState, event: AttachEvent, pid: u32, step: AttachStep) -> bool {
    match (state, event) {
        (_, AttachEvent::Confirmation(answer)) => step == if answer == IDYES {
            AttachStep::Next(AttachState::Process, AttachAction::OpenProcess)
        } else {
            AttachStep::Done(declined())
        },
        (_, AttachEvent::Process(opened)) => step == match opened {
            Ok(_) => AttachStep::Next(AttachState::Machines, AttachAction::QueryMachines),
            Err(error) => cannot_debug(error),
        },
        (_, AttachEvent::Machines(machines)) => step == match machines {
            Err(error) => cannot_debug(error),
            Ok((process, native)) => match registry_view(process, native) {
                Ok(view) => AttachStep::Next(
                    AttachState::Command,
                    AttachAction::LoadCommand(view),
                ),
                Err(error) => cannot_debug(error),
            },
        },
        (_, AttachEvent::Command(found)) => match found {
            Err(error) => step == cannot_debug(error),
            Ok(None) => step == cannot_debug(ERROR_FILE_NOT_FOUND),
            Ok(Some(command)) => {
                &&& step matches AttachStep::Next(
                    AttachState::Program(kept),
                    AttachAction::CheckProgram(program),
                )
                &&& kept == command
                &&& program@ == command.executable@
            },
        },
        (AttachState::Program(command), AttachEvent::Program(is_file)) => step == if is_file {
            AttachStep::Next(AttachState::Event(command), AttachAction::CreateEvent)
        } else {
            cannot_debug(ERROR_FILE_NOT_FOUND)
        },
        (AttachState::Event(command), AttachEvent::Event(event)) => match event {
            Err(error) => step == cannot_debug(error),
            Ok(handle) => match template_error(command.template@) {
                Some(error) => step == cannot_debug(error),
                None => {
                    &&& step matches AttachStep::Next(
                        AttachState::Attributes(program, command_line),
                        AttachAction::PrepareAttributes(handed),
                    )
                    &&& program == command.executable
                    &&& command_line@ == filled(
                        command.template@,
                        seq![decimal_text(pid as nat), decimal_text(handle as nat)],
                        0,
                    )
                    &&& handed == handle
                },
            },
        },
        (
            AttachState::Attributes(program, command_line),
            AttachEvent::Attributes(prepared),
        ) => step == match prepared {
            Ok(_) => AttachStep::Next(
                AttachState::Start,
                AttachAction::Start(program, command_line),
            ),
            Err(error) => cannot_debug(error),
        },
        (_, AttachEvent::Start(started)) => step == match started {
            Ok((true, true)) => AttachStep::Done(attached()),
            Ok(_) => cannot_debug(ERROR_INVALID_HANDLE),
            Err(error) => cannot_debug(error),
        },
        _ => true,
    }
}

/// What follows from an answer. `pid` is the process that the debugger is attached to.
pub fn attach_step(state: AttachState, event: AttachEvent, pid: u32) -> (step: AttachStep)
    requires
        answers(state, event),
    ensures
        follows(state, event, pid, step),
{
    match (state, event) {
        (AttachState::Confirmation, AttachEvent::Confirmation(answer)) => {
            if quick_confirm(Some(answer)) {
                AttachStep::Next(AttachState::Process, AttachAction::OpenProcess)
            } else {
                AttachStep::Done(
                    ActionReport {
                        succeeded: false,
                        unpauses: false,
                        refreshes: false,
                        message: None,
                    },
                )
            }
        },
        (AttachState::Process, AttachEvent::Process(opened)) => match opened {
            Ok(_) => AttachStep::Next(AttachState::Machines, AttachAction::QueryMachines),
            Err(error) => give_up(error),
        },
        (AttachState::Machines, AttachEvent::Machines(machines)) => match machines {
            Err(error) => give_up(error),
            Ok((process, native)) => match debugger_registry_view_for_machines(process, native) {
                Ok(view) => AttachStep::Next(AttachState::Command, AttachAction::LoadCommand(view)),
                Err(error) => give_up(error),
            },
        },
        (AttachState::Command, AttachEvent::Command(found)) => match debugger_to_attach(
            found,
            true,
        ) {
            Ok(command) => {
                let program = copy_of(command.executable.as_str());
                AttachStep::Next(
                    AttachState::Program(command),
                    AttachAction::CheckProgram(program),
                )
            },
            Err(error) => give_up(error),
        },
        (AttachState::Program(command), AttachEvent::Program(is_file)) => match debugger_to_attach(
            Ok(Some(command)),
            is_file,
        ) {
            Ok(command) => AttachStep::Next(AttachState::Event(command), AttachAction::CreateEvent),
            Err(error) => give_up(error),
        },
        (AttachState::Event(command), AttachEvent::Event(event)) => match event {
            Err(error) => give_up(error),
            Ok(handle) => match format_debugger_template(command.template.as_str(), pid, handle) {
                Err(error) => give_up(error),
                Ok(command_line) => AttachStep::Next(
                    AttachState::Attributes(command.executable, command_line),
                    AttachAction::PrepareAttributes(handle),
                ),
            },
        },
        (
            AttachState::Attributes(program, command_line),
            AttachEvent::Attributes(prepared),
        ) => match prepared {
            Ok(_) => AttachStep::Next(
                AttachState::Start,
                AttachAction::Start(program, command_line),
            ),
            Err(error) => give_up(error),
        },
        (_, AttachEvent::Start(started)) => {
            let outcome: Result<(), u32> = match started {
                Ok((has_process, has_thread)) => own_created_process_handles(
                    has_process,
                    has_thread,
                ),
                Err(error) => Err(error),
            };
            AttachStep::Done(conclude_action(ProcCommand::Debug, outcome))
        },
        _ => give_up(ERROR_NOT_SUPPORTED),
    }
}

/// How far the way has come.
pub open spec fn stage(state: AttachState) -> int {
    match state {
        AttachState::Confirmation => 0,
        AttachState::Process => 1,
        AttachState::Machines => 2,
        AttachState::Command => 3,
        AttachState::Program(_) => 4,
        AttachState::Event(_) => 5,
        AttachState::Attributes(_, _) => 6,
        AttachState::Start => 7,
    }
}

/// The stage in which something is asked for.
pub open spec fn stage_of(action: AttachAction) -> int {
    match action {
        AttachAction::Confirm => 0,
        AttachAction::OpenProcess => 1,
        AttachAction::QueryMachines => 2,
        AttachAction::LoadCommand(_) => 3,
        AttachAction::CheckProgram(_) => 4,
        AttachAction::CreateEvent => 5,
        AttachAction::PrepareAttributes(_) => 6,
        AttachAction::Start(_, _) => 7,
    }
}

/// The error that an answer reports.
pub open spec fn reported_error(event: AttachEvent) -> Option<u32> {
    match event {
        AttachEvent::Process(Err(error)) => Some(error),
        AttachEvent::Machines(Err(error)) => Some(error),
        AttachEvent::Command(Err(error)) => Some(error),
        AttachEvent::Event(Err(error)) => Some(error),
        AttachEvent::Attributes(Err(error)) => Some(error),
        AttachEvent::Start(Err(error)) => Some(error),
        _ => None,
    }
}

/// Nothing is asked for out of turn, so that no program is started before the user has agreed,
/// the process was opened for its identity, and the program was found. The way ends with its last
/// stage at the latest.
pub proof fn debugger_is_attached_in_order(
    state: AttachState,
    event: AttachEvent,
    pid: u32,
    step: AttachStep,
)
    requires
        answers(state, event),
        follows(state, event, pid, step),
    ensures
        step matches AttachStep::Next(next, action) ==> stage(next) == stage(state) + 1 && stage_of(
            action,
        ) == stage(next),
        stage(state) == 7 ==> step is Done,
        step matches AttachStep::Done(report) ==> (report.succeeded ==> stage(state) == 7),
{
}

/// The first answer that reports an error ends the way, and the user is told that error.
pub proof fn first_failure_is_told(
    state: AttachState,
    event: AttachEvent,
    pid: u32,
    step: AttachStep,
    error: u32,
)
    requires
        answers(state, event),
        follows(state, event, pid, step),
        reported_error(event) == Some(error),
    ensures
        step matches AttachStep::Done(report) && !report.succeeded && report.message == Some(
            ActionMessage::Failure(FailureText::CannotDebug, error),
        ),
{
}

} // verus!
