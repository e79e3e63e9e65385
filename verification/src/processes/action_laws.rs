//! What decisions come to, told from the answers that they are made on.
use vstd::prelude::*;

use super::actions::{
    conclude_action, failure_text, image_to_show, kill_process_tree, needs_confirmation,
    quick_confirm, ActionMessage, ActionReport, FailureText,
};
use super::affinity::{group_capacity, thread_is_gone};
use super::attach::{answers, follows, AttachAction, AttachEvent, AttachState, AttachStep};
use super::commands::{build_context_menu, ContextMenu, ProcCommand};
use super::debugger::{file_name, filled, is_legacy_debugger};
use super::model::{ProcEntry, ProcStaticMetadata};
use super::page::ProcessPageState;
use super::sampler::{
    cpu_percent_from_delta, current_system_time, kb_from_bytes, needs_wts, signed_kb_delta,
    system_time_delta, walk_step, WalkStep,
};
use super::tree::{
    classify_failed_termination, terminate_prepared_process_tree, validate_snapshot_root_identity,
    FailedTerminationOutcome, ProcessTreePrepareError, ProcessTreeTerminationOutcome,
    TerminationAttempt,
};
use crate::process_identity::ProcIdentity;
use crate::text::{decimal_text, lower};
use crate::win32::{ERROR_FILE_NOT_FOUND, ERROR_NO_MORE_FILES};

verus! {

/// The user is asked before anything that ends a process, stops it or slows it down, unless
/// confirmations are switched off; only a yes lets it go on.
pub proof fn harmful_actions_are_confirmed(
    page: ProcessPageState,
    command: ProcCommand,
    answer: i32,
)
    ensures
        forall|needed: bool| #[trigger]
            call_ensures(needs_confirmation, (&page, command), needed) ==> {
                &&& !page.confirmations ==> !needed
                &&& page.confirmations && (command is Terminate || command is TerminateTree
                    || command is Debug || command is SetPriority) ==> needed
                &&& command is OpenFileLocation || command is Affinity || command is PickColumns
                    ==> !needed
            },
        forall|confirmed: bool| #[trigger]
            call_ensures(quick_confirm, (Some(answer),), confirmed) ==> (confirmed
                <==> answer == 6),
        forall|confirmed: bool| #[trigger]
            call_ensures(quick_confirm, (None::<i32>,), confirmed) ==> confirmed,
{
}

/// An action that failed is told with its error and with what was not possible, and changes
/// nothing on the page; one that succeeded is told by nothing but the refresh.
pub proof fn failed_actions_are_told(command: ProcCommand, error: u32)
    requires
        !(command is TerminateTree),
        !(command is PickColumns),
    ensures
        forall|report: ActionReport| #[trigger]
            call_ensures(conclude_action, (command, Err::<(), u32>(error)), report) ==> {
                &&& !report.succeeded && !report.refreshes && !report.unpauses
                &&& report.message == Some(ActionMessage::Failure(failure_text(command), error))
            },
        forall|report: ActionReport| #[trigger]
            call_ensures(conclude_action, (command, Ok::<(), u32>(())), report) ==> {
                &&& report.succeeded && report.message is None
                &&& report.refreshes <==> command is Terminate || command is SetPriority || command
                    is Affinity
                &&& report.unpauses <==> command is Terminate || command is SetPriority
            },
        failure_text(ProcCommand::Terminate) == FailureText::CannotEnd,
        failure_text(ProcCommand::TerminateTree) == FailureText::CannotEndTree,
        failure_text(ProcCommand::Debug) == FailureText::CannotDebug,
        failure_text(ProcCommand::OpenFileLocation) == FailureText::CannotOpenFileLocation,
        failure_text(ProcCommand::Affinity) == FailureText::CannotSetAffinity,
        command is SetPriority ==> failure_text(command) == FailureText::CannotChangePriority,
{
}

/// The end of a tree has succeeded exactly if something ended and nothing failed. Where nothing at
/// all could be ended because of the root, its error is told; where something was left, that.
pub proof fn ended_trees_are_reported(outcome: ProcessTreeTerminationOutcome, error: u32)
    ensures
        forall|report: ActionReport| #[trigger]
            call_ensures(
                kill_process_tree,
                (Ok::<ProcessTreeTerminationOutcome, ProcessTreePrepareError>(outcome),),
                report,
            ) ==> {
                &&& report.refreshes <==> outcome.any_completed
                &&& report.succeeded ==> outcome.any_completed && report.message is None
                &&& outcome.any_completed && !outcome.any_failure && outcome.root_error == 0
                    ==> report.succeeded
                &&& outcome.root_error != 0 && !outcome.any_success ==> report.message == Some(
                    ActionMessage::Failure(FailureText::CannotEnd, outcome.root_error),
                )
                &&& outcome.any_failure && (outcome.root_error == 0 || outcome.any_success)
                    ==> report.message == Some(ActionMessage::TreeIncomplete)
            },
        forall|report: ActionReport| #[trigger]
            call_ensures(
                kill_process_tree,
                (Err::<ProcessTreeTerminationOutcome, ProcessTreePrepareError>(
                    ProcessTreePrepareError::Root(error),
                ),),
                report,
            ) ==> !report.succeeded && report.message == Some(
                ActionMessage::Failure(FailureText::CannotEnd, error),
            ),
        forall|report: ActionReport| #[trigger]
            call_ensures(
                kill_process_tree,
                (Err::<ProcessTreeTerminationOutcome, ProcessTreePrepareError>(
                    ProcessTreePrepareError::Tree(error),
                ),),
                report,
            ) ==> !report.succeeded && report.message == Some(
                ActionMessage::Failure(FailureText::CannotEndTree, error),
            ),
{
}

/// A process that could not be ended, but has ended when it is waited for, counts as completed and
/// not as a failure.
pub proof fn processes_that_ended_by_themselves_are_no_failure(error: u32, wait_result: u32)
    ensures
        forall|outcome: FailedTerminationOutcome| #[trigger]
            call_ensures(classify_failed_termination, (error, wait_result), outcome) ==> {
                &&& wait_result == 0 ==> outcome == FailedTerminationOutcome::AlreadyTerminated
                &&& wait_result != 0 ==> outcome == FailedTerminationOutcome::Failed(error)
            },
{
}

/// Every attempt counts: one that worked is a success, one on a process that had ended is complete,
/// and any other is a failure.
pub proof fn every_attempt_counts(root_pid: u32, attempts: Vec<TerminationAttempt>, i: int)
    requires
        0 <= i < attempts@.len(),
    ensures
        forall|outcome: ProcessTreeTerminationOutcome| #[trigger]
            call_ensures(terminate_prepared_process_tree, (root_pid, &attempts), outcome) ==> {
                &&& attempts@[i].failure is None ==> outcome.any_success && outcome.any_completed
                &&& attempts@[i].failure matches Some((_, wait_result)) ==> if wait_result == 0 {
                    outcome.any_completed
                } else {
                    outcome.any_failure
                }
            },
{
    assert(attempts@[i] == attempts@[i]);
}

/// A tree is walked only from the process that was meant: its identity is known, and it is still
/// the one.
pub proof fn only_the_meant_root_is_walked(expected: ProcIdentity, observed: ProcIdentity)
    ensures
        forall|outcome: Result<(), u32>| #[trigger]
            call_ensures(validate_snapshot_root_identity, (expected, observed), outcome)
                ==> (outcome
                is Ok <==> expected.creation_time_100ns != 0 && expected.pid == observed.pid
                && expected.creation_time_100ns == observed.creation_time_100ns),
{
}

/// The time that passed is the difference of two readings, where there are two and it did not go
/// back.
pub proof fn time_that_passed_is_the_difference(current: u64, earlier: u64)
    ensures
        forall|delta: Option<u64>| #[trigger]
            call_ensures(system_time_delta, (current, Some(earlier)), delta) ==> {
                &&& earlier <= current ==> (delta matches Some(passed)
                    && earlier + passed == current)
                &&& earlier > current ==> delta is None
            },
        forall|delta: Option<u64>| #[trigger]
            call_ensures(system_time_delta, (current, None::<u64>), delta) ==> delta is None,
{
}

/// The time of the system is that in the kernel and in user mode together.
pub proof fn system_time_is_kernel_and_user_time(kernel: u64, user: u64, error: u32)
    ensures
        forall|outcome: Result<u64, u32>| #[trigger]
            call_ensures(
                current_system_time,
                (Ok::<Option<(u64, u64)>, u32>(Some((kernel, user))),),
                outcome,
            ) ==> {
                &&& kernel + user <= u64::MAX ==> (outcome matches Ok(time)
                    && time == kernel + user)
                &&& kernel + user > u64::MAX ==> outcome is Err
            },
        forall|outcome: Result<u64, u32>| #[trigger]
            call_ensures(
                current_system_time,
                (Err::<Option<(u64, u64)>, u32>(error),),
                outcome,
            ) ==> outcome is Err && (error != 0 ==> outcome == Err::<u64, u32>(error)),
{
}

/// A share is that of the time in percent, to the nearest one; bytes are counted in whole
/// kilobytes, and a difference leads from one amount to the other.
pub proof fn amounts_are_computed_exactly(first: u64, second: u64)
    ensures
        forall|percent: u8| #[trigger]
            call_ensures(cpu_percent_from_delta, (first, second), percent) ==> {
                &&& percent <= 100
                &&& second == 0 ==> percent == 0
                &&& second > 0 && first >= second ==> percent == 100
            },
        forall|kilobytes: u64| #[trigger]
            call_ensures(kb_from_bytes, (first,), kilobytes) ==> kilobytes * 1024 <= first
                < kilobytes * 1024 + 1024,
        forall|delta: i64| #[trigger]
            call_ensures(signed_kb_delta, (first, second), delta) ==> {
                &&& -i64::MAX <= first - second <= i64::MAX ==> second + delta == first
                &&& first >= second <==> delta >= 0
            },
{
    if second > 0 && first >= second {
        super::sampler::cpu_percent_is_monotone(second as int, first as int, second as int);
    }
}

/// A walk over the processes visits what it is given, ends where there is no more, and fails with
/// any other error.
pub proof fn walks_end_where_there_is_no_more(succeeded: bool, error: u32)
    ensures
        forall|step: WalkStep| #[trigger]
            call_ensures(walk_step, (succeeded, error), step) ==> {
                &&& succeeded <==> step == WalkStep::Visit
                &&& !succeeded && error == ERROR_NO_MORE_FILES <==> step == WalkStep::Finish
                &&& !succeeded && error != ERROR_NO_MORE_FILES && error != 0 ==> step
                    == WalkStep::Fail(error)
            },
{
}

/// A process is asked for unless it is the idle one, or its user was resolved for this very
/// process.
pub proof fn unresolved_users_are_asked_for(
    entry: ProcEntry,
    metadata: Map<ProcIdentity, ProcStaticMetadata>,
)
    ensures
        entry.pid == 0 ==> !needs_wts(entry, metadata),
        entry.pid != 0 && entry.identity.creation_time_100ns == 0 ==> needs_wts(entry, metadata),
        entry.pid != 0 && entry.identity.creation_time_100ns != 0 ==> (needs_wts(entry, metadata)
            <==> !(metadata.contains_key(entry.identity)
            && metadata[entry.identity].user_identity_resolved)),
{
}

/// Nothing can be done to a process whose identity is not known; a debugger is offered only where
/// there is one, and the choice of processors only where there are several.
pub proof fn menus_offer_what_can_be_done(
    identity: ProcIdentity,
    class: u32,
    has_debugger: bool,
    processor_count: usize,
)
    ensures
        forall|menu: ContextMenu| #[trigger]
            call_ensures(
                build_context_menu,
                (identity, class, has_debugger, processor_count),
                menu,
            ) ==> {
                &&& menu.commands@.len() == 4 && menu.priorities@.len() == 6
                &&& forall|i: int|
                    0 <= i < 4 ==> ((#[trigger] menu.commands@[i]).enabled ==> identity.verified())
                &&& forall|i: int|
                    0 <= i < 6 ==> ((#[trigger] menu.priorities@[i]).enabled
                        <==> identity.verified())
                &&& menu.commands@[0].command == ProcCommand::Terminate
                    && (menu.commands@[0].enabled
                    <==> identity.verified())
                &&& menu.commands@[1].command == ProcCommand::TerminateTree
                &&& menu.commands@[2].command == ProcCommand::OpenFileLocation
                &&& menu.commands@[3].command == ProcCommand::Debug && (menu.commands@[3].enabled
                    <==> identity.verified() && has_debugger)
                &&& menu.affinity is Some <==> processor_count > 1
            },
{
}

/// A file is shown in its directory only if it is there.
pub proof fn only_files_that_are_there_are_shown(path: String, error: u32)
    ensures
        forall|outcome: Result<String, u32>| #[trigger]
            call_ensures(image_to_show, (Ok::<String, u32>(path), true), outcome)
                ==> outcome == Ok::<
                String,
                u32,
            >(path),
        forall|outcome: Result<String, u32>| #[trigger]
            call_ensures(image_to_show, (Ok::<String, u32>(path), false), outcome) ==> outcome
                == Err::<String, u32>(ERROR_FILE_NOT_FOUND),
{
}

/// A thread that cannot be opened because it is gone is passed over.
pub proof fn threads_that_are_gone_are_passed_over(error: u32)
    ensures
        thread_is_gone(error) <==> error == 6 || error == 87,
{
}

/// Groups are stored in pairs: there is room for all that are required, and for at most one more.
pub proof fn groups_are_stored_in_pairs(required: u16)
    ensures
        group_capacity(required) % 2 == 0,
        required <= group_capacity(required) <= required + 1,
{
}

/// The debugger of old systems is known by the name of its file, with or without the suffix, in any
/// case.
pub proof fn old_debuggers_are_known_by_name(path: Seq<char>)
    ensures
        lower(file_name(path)) == lower("drwtsn32"@) ==> is_legacy_debugger(path),
        lower(file_name(path)) == lower("drwtsn32.exe"@) ==> is_legacy_debugger(path),
        lower(file_name(path)) != lower("drwtsn32"@) && lower(file_name(path)) != lower(
            "drwtsn32.exe"@,
        ) ==> !is_legacy_debugger(path),
{
}

/// On the way to a debugger nothing is lost: the command that was found is the one that is checked,
/// prepared and started, for the part of the registry that fits the process.
pub proof fn the_found_debugger_is_started(
    state: AttachState,
    event: AttachEvent,
    pid: u32,
    step: AttachStep,
)
    requires
        answers(state, event),
        follows(state, event, pid, step),
    ensures
        event matches AttachEvent::Confirmation(answer) ==> (step is Next <==> answer == 6),
        event matches AttachEvent::Command(Ok(Some(command))) ==> (step matches AttachStep::Next(
            AttachState::Program(kept),
            AttachAction::CheckProgram(program),
        ) && kept == command && program@ == command.executable@),
        event matches AttachEvent::Command(Ok(None)) ==> step is Done,
        state matches AttachState::Program(command) ==> (event matches AttachEvent::Program(is_file)
            ==> (step is Next <==> is_file) && (is_file ==> step == AttachStep::Next(
            AttachState::Event(command),
            AttachAction::CreateEvent,
        ))),
        state matches AttachState::Event(command) ==> (event matches AttachEvent::Event(Ok(handle))
            ==> (step is Next ==> (step matches AttachStep::Next(
            AttachState::Attributes(program, line),
            AttachAction::PrepareAttributes(handed),
        ) && program == command.executable && handed == handle && line@ == filled(
            command.template@,
            seq![decimal_text(pid as nat), decimal_text(handle as nat)],
            0,
        )))),
        state matches AttachState::Attributes(program, line) ==> (event
            matches AttachEvent::Attributes(Ok(_)) ==> step == AttachStep::Next(
            AttachState::Start,
            AttachAction::Start(program, line),
        )),
        event matches AttachEvent::Start(Ok((has_process, has_thread))) ==> (step
            matches AttachStep::Done(report) && (report.succeeded <==> has_process && has_thread)),
{
}

} // verus!
