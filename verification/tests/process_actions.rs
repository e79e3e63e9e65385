use taskmgr::process_identity::{check_open_request, check_opened_process, ProcIdentity};
use taskmgr::processes::actions::{
    conclude_action, failure_message, failure_title, image_to_show, kill_process_tree,
    needs_confirmation, own_created_process_handles, query_process_image_path,
    query_windows_directory, quick_confirm, ActionMessage, DirectoryStep, FailureText,
};
use taskmgr::processes::affinity::{
    affinity_is_within_selection, affinity_target_for_thread, announced_room, first_group_answer,
    first_selected_group, group_answer, initial_affinity_masks, plan_affinity, process_threads,
    sets_to_restore, skip_unopened_thread, AffinityChoice, AffinityGroup, AffinityPlan,
    AffinityStage, GroupQueryStep, SnapshotThread, ThreadAssignment,
};
use taskmgr::processes::attach::{
    attach_debugger, attach_step, AttachAction, AttachEvent, AttachState, AttachStep,
};
use taskmgr::processes::command_line::{explorer_command_line, quote_command_line_arg};
use taskmgr::processes::commands::{ProcCommand, ProcPriority};
use taskmgr::processes::debugger::{
    debugger_registry_view_for_machines, expand_environment_variables, load_debugger_path,
    normalize_debugger_command, open_step, parse_debugger_command, parse_expanded_debugger_command,
    read_aedebug_string, size_step, validate_debugger_template, DebuggerRegistryView,
    FoundDebugger, RegistryAnswer, RegistryStep,
};
use taskmgr::processes::page::ProcessPageState;
use taskmgr::processes::tree::{
    classify_descendant_process_result, classify_failed_termination,
    prepare_process_tree_termination, terminate_prepared_process_tree, DescendantProcessOutcome,
    FailedTerminationOutcome, ProcessTreePrepareError, SnapshotProcess, TerminationAttempt,
    TreeStep, TreeWalk,
};

#[test]
fn only_the_instance_that_is_meant_is_opened() {
    assert_eq!(check_open_request(ProcIdentity::pid_only(4)), Err(87));
    assert_eq!(check_open_request(ProcIdentity::new(4, 9)), Ok(()));
    assert_eq!(check_opened_process(ProcIdentity::new(4, 9), Ok(9)), Ok(()));
    assert_eq!(check_opened_process(ProcIdentity::new(4, 9), Ok(8)), Err(87));
    assert_eq!(check_opened_process(ProcIdentity::new(4, 9), Err(5)), Err(5));
}

#[test]
fn processes_below_the_root_are_classified() {
    assert_eq!(
        classify_descendant_process_result(Ok(3), |value| *value == 3),
        DescendantProcessOutcome::Verified(3)
    );
    assert_eq!(
        classify_descendant_process_result(Ok(4), |value| *value == 3),
        DescendantProcessOutcome::GoneOrReused
    );
    assert_eq!(
        classify_descendant_process_result::<u32, _>(Err(87), |_| true),
        DescendantProcessOutcome::GoneOrReused
    );
    assert_eq!(
        classify_descendant_process_result::<u32, _>(Err(5), |_| true),
        DescendantProcessOutcome::Fatal(5)
    );
    assert_eq!(
        classify_failed_termination(5, 0),
        FailedTerminationOutcome::AlreadyTerminated
    );
    assert_eq!(
        classify_failed_termination(5, 258),
        FailedTerminationOutcome::Failed(5)
    );
}

fn process(pid: u32, parent_pid: u32) -> SnapshotProcess {
    SnapshotProcess { pid, parent_pid }
}

fn walk_order(
    processes: Vec<SnapshotProcess>,
    created: impl Fn(u32) -> Result<u64, u32>,
) -> Result<Vec<u32>, u32> {
    let mut walk = TreeWalk::new(ProcIdentity::new(1, 100), processes, 1000);
    loop {
        match walk.step() {
            TreeStep::Continue => {}
            TreeStep::Finished => break,
            TreeStep::Ask(pid) => walk.answer(created(pid))?,
        }
    }
    Ok(walk.order.iter().map(|identity| identity.pid).collect())
}

#[test]
fn tree_is_left_from_the_leaves_up() {
    let processes = vec![
        process(1, 0),
        process(2, 1),
        process(3, 1),
        process(4, 2),
        process(5, 3),
        process(9, 7),
    ];
    assert_eq!(
        walk_order(processes.clone(), |pid| Ok(100 + u64::from(pid))),
        Ok(vec![4, 2, 5, 3, 1])
    );
    // A process that is older than its parent, newer than the snapshot or gone is left out.
    assert_eq!(
        walk_order(processes.clone(), |pid| match pid {
            2 => Ok(50),
            5 => Ok(2000),
            _ => Ok(200),
        }),
        Ok(vec![3, 1])
    );
    assert_eq!(
        walk_order(processes.clone(), |pid| if pid == 3 { Err(87) } else { Ok(200) }),
        Ok(vec![4, 2, 1])
    );
    assert_eq!(
        walk_order(processes, |pid| if pid == 4 { Err(5) } else { Ok(200) }),
        Err(5)
    );
    // A process that names itself or its descendant as its parent is visited once.
    assert_eq!(
        walk_order(vec![process(1, 2), process(2, 1), process(2, 2)], |_| Ok(200)),
        Ok(vec![2, 1])
    );
}

#[test]
fn nothing_is_ended_unless_everything_can_be() {
    let root = ProcIdentity::new(1, 100);
    let order = vec![
        ProcIdentity::new(3, 120),
        ProcIdentity::new(2, 110),
        root,
    ];
    assert_eq!(
        prepare_process_tree_termination(
            root,
            Ok(()),
            Ok(&order),
            &vec![Err(87), Ok(()), Ok(())]
        ),
        Ok(vec![1, 2])
    );
    assert_eq!(
        prepare_process_tree_termination(root, Ok(()), Ok(&order), &vec![Ok(()), Err(5), Ok(())]),
        Err(ProcessTreePrepareError::Tree(5))
    );
    assert_eq!(
        prepare_process_tree_termination(root, Err(6), Ok(&order), &vec![Ok(()), Ok(()), Ok(())]),
        Err(ProcessTreePrepareError::Root(6))
    );
    assert_eq!(
        prepare_process_tree_termination(root, Ok(()), Ok(&Vec::new()), &Vec::new()),
        Err(ProcessTreePrepareError::Tree(31))
    );
    assert_eq!(
        prepare_process_tree_termination(root, Ok(()), Ok(&vec![root, root]), &vec![Ok(()); 2]),
        Err(ProcessTreePrepareError::Tree(13))
    );
    assert_eq!(
        prepare_process_tree_termination(root, Ok(()), Err(8), &Vec::new()),
        Err(ProcessTreePrepareError::Tree(8))
    );
}

fn attempt(pid: u32, failure: Option<(u32, u32)>) -> TerminationAttempt {
    TerminationAttempt { pid, failure }
}

#[test]
fn end_of_a_tree_is_summed_up() {
    let all = terminate_prepared_process_tree(1, &vec![attempt(2, None), attempt(1, None)]);
    assert!(all.completed_without_failure());
    let report = kill_process_tree(Ok(all));
    assert!(report.succeeded && report.refreshes && report.unpauses);
    assert_eq!(report.message, None);

    let some =
        terminate_prepared_process_tree(1, &vec![attempt(2, None), attempt(1, Some((5, 258)))]);
    assert!(some.any_success() && some.any_failure());
    assert_eq!(some.root_error, 5);
    let report = kill_process_tree(Ok(some));
    assert!(!report.succeeded && report.refreshes);
    assert_eq!(report.message, Some(ActionMessage::TreeIncomplete));

    let none = terminate_prepared_process_tree(1, &vec![attempt(1, Some((5, 258)))]);
    assert_eq!(
        kill_process_tree(Ok(none)).message,
        Some(ActionMessage::Failure(FailureText::CannotEnd, 5))
    );
    let gone = terminate_prepared_process_tree(1, &vec![attempt(1, Some((5, 0)))]);
    assert!(gone.completed_without_failure() && !gone.any_success());

    assert_eq!(
        kill_process_tree(Err(ProcessTreePrepareError::Tree(9))).message,
        Some(ActionMessage::Failure(FailureText::CannotEndTree, 9))
    );
    assert_eq!(
        kill_process_tree(Err(ProcessTreePrepareError::Root(9))).message,
        Some(ActionMessage::Failure(FailureText::CannotEnd, 9))
    );
}

#[test]
fn actions_say_what_failed() {
    let mut page = ProcessPageState::new();
    page.confirmations = true;
    assert!(needs_confirmation(&page, ProcCommand::Terminate));
    assert!(!needs_confirmation(&page, ProcCommand::Affinity));
    page.confirmations = false;
    assert!(!needs_confirmation(&page, ProcCommand::Terminate));
    assert!(quick_confirm(None) && quick_confirm(Some(6)) && !quick_confirm(Some(7)));

    page.paused = true;
    let report = conclude_action(ProcCommand::SetPriority(ProcPriority::High), Ok(()));
    assert!(page.finish_action(report));
    assert!(!page.paused);
    let report = conclude_action(ProcCommand::Affinity, Ok(()));
    assert!(report.refreshes && !report.unpauses);
    let report = conclude_action(ProcCommand::OpenFileLocation, Err(2));
    assert_eq!(
        report.message,
        Some(ActionMessage::Failure(
            FailureText::CannotOpenFileLocation,
            2
        ))
    );
    assert!(!page.finish_action(report));

    assert_eq!(failure_title(""), "Task Manager");
    assert_eq!(failure_title("Warning"), "Warning");
    assert_eq!(
        failure_message("Cannot end", 5),
        "Cannot end\r\n\r\nWin32 error: 5"
    );
    assert_eq!(own_created_process_handles(true, false), Err(6));
    assert_eq!(own_created_process_handles(true, true), Ok(()));
    assert_eq!(image_to_show(Ok("x".to_string()), false), Err(2));
    assert_eq!(image_to_show(Ok("x".to_string()), true), Ok("x".to_string()));
    let units: Vec<u16> = "C:\\a".encode_utf16().collect();
    assert_eq!(
        query_process_image_path(Ok(()), &units, 3),
        Ok("C:\\".to_string())
    );
    assert_eq!(query_process_image_path(Err(5), &units, 3), Err(5));
}

#[test]
fn directory_of_the_system_is_asked_for_with_enough_room() {
    let units: Vec<u16> = "C:\\Windows\0".encode_utf16().collect();
    assert!(matches!(
        query_windows_directory(10, 0, &units),
        DirectoryStep::Done(path) if path == "C:\\Windows"
    ));
    assert!(matches!(
        query_windows_directory(11, 0, &units),
        DirectoryStep::Grow(12)
    ));
    assert!(matches!(
        query_windows_directory(0, 7, &units),
        DirectoryStep::Fail(7)
    ));
}

#[test]
fn arguments_are_quoted_where_they_need_it() {
    assert_eq!(quote_command_line_arg(r"C:\plain\path"), r"C:\plain\path");
    assert_eq!(quote_command_line_arg(r"C:\a b\"), r#""C:\a b\\""#);
    assert_eq!(quote_command_line_arg(r#"say "hi""#), r#""say \"hi\"""#);
    assert_eq!(quote_command_line_arg(r#"a\\"b"#), r#""a\\\\\"b""#);
    assert_eq!(quote_command_line_arg("a\tb"), "\"a\tb\"");
    assert_eq!(
        explorer_command_line(r"C:\Windows", r"C:\a b.exe"),
        r#"C:\Windows\explorer.exe /select,"C:\a b.exe""#
    );
}

#[test]
fn registry_answers_are_checked() {
    assert_eq!(open_step(2), RegistryStep::Absent);
    assert_eq!(open_step(3), RegistryStep::Absent);
    assert_eq!(open_step(5), RegistryStep::Fail(5));
    assert_eq!(open_step(0), RegistryStep::Proceed);
    assert_eq!(size_step(2, 0, 0, 0), RegistryStep::Absent);
    assert_eq!(size_step(2, 0, 0, 9), RegistryStep::Fail(9));
    assert_eq!(size_step(0, 1, 8, 0), RegistryStep::Proceed);
    assert_eq!(size_step(0, 4, 8, 0), RegistryStep::Fail(13));
    assert_eq!(size_step(0, 1, 7, 0), RegistryStep::Fail(13));
    assert_eq!(size_step(0, 1, 1024 * 1024 + 2, 0), RegistryStep::Fail(13));
    let mut answer = RegistryAnswer {
        read_status: 0,
        close_status: 0,
        value_type: 1,
        value_size: 8,
        actual_size: 8,
        buffer: "dbg\0".encode_utf16().collect(),
    };
    assert_eq!(read_aedebug_string(&answer), Ok("dbg".to_string()));
    answer.actual_size = 6;
    assert_eq!(read_aedebug_string(&answer), Err(13));
    answer.close_status = 6;
    assert_eq!(read_aedebug_string(&answer), Err(6));
    answer.read_status = 234;
    assert_eq!(read_aedebug_string(&answer), Err(234));
    let units: Vec<u16> = "C:\\x\0".encode_utf16().collect();
    assert_eq!(
        expand_environment_variables(5, 5, 0, &units),
        Ok("C:\\x".to_string())
    );
    assert_eq!(expand_environment_variables(5, 6, 0, &units), Err(31));
    assert_eq!(expand_environment_variables(0, 0, 8, &units), Err(8));
}

fn executable(command_line: &str) -> Option<String> {
    parse_expanded_debugger_command(command_line)
        .unwrap()
        .map(|command| command.executable)
}

#[test]
fn debugger_is_named_by_an_absolute_path() {
    for path in [
        r"C:\dbg.exe",
        "c:/dbg.exe",
        r"\\server\share\dbg.exe",
        r"\\?\C:\dbg.exe",
        r"\\.\pipe\dbg",
    ] {
        assert_eq!(
            executable(&format!("{path} %ld %ld")).as_deref(),
            Some(path)
        );
    }
    for path in [r"C:dbg.exe", r"\dbg.exe", "dbg.exe", r"\\server", r"\\server\\x", "1:\\x"] {
        assert_eq!(executable(&format!("{path} %ld %ld")), None);
    }
    for path in [r"C:\Windows\DrWtsn32.EXE", r"C:\Windows\drwtsn32\", r"C:/drwtsn32"] {
        assert_eq!(executable(&format!("{path} %ld %ld")), None);
    }
    assert_eq!(executable("   "), None);
}

#[test]
fn debugger_command_depends_on_the_type_of_its_value() {
    let raw = r"C:\a.exe %ld %ld";
    let expanded = r"C:\b.exe %ld %ld".to_string();
    let executable = |value_type| {
        parse_debugger_command(raw, value_type, Ok(expanded.clone()))
            .map(|command| command.unwrap().executable)
    };
    assert_eq!(executable(1), Ok(r"C:\a.exe".to_string()));
    assert_eq!(executable(2), Ok(r"C:\b.exe".to_string()));
    assert_eq!(parse_debugger_command(raw, 3, Ok(expanded.clone())), Err(13));
    assert_eq!(parse_debugger_command(raw, 2, Err(8)), Err(8));
    assert_eq!(normalize_debugger_command(raw, 3, &expanded), None);
    assert_eq!(validate_debugger_template("%ld %LD"), Ok(()));
    assert_eq!(validate_debugger_template("%ld %ld %"), Err(13));
    assert_eq!(validate_debugger_template("%ld %lx"), Err(13));
    assert_eq!(validate_debugger_template("%P"), Err(50));
}

#[test]
fn first_usable_debugger_is_offered() {
    let found = |path: &str, is_file| {
        Ok(Some(FoundDebugger {
            executable: path.to_string(),
            is_file,
        }))
    };
    assert_eq!(
        load_debugger_path(&vec![Err(5), found("a", false), found("b", true), found("c", true)]),
        Ok(Some("b".to_string()))
    );
    assert_eq!(
        load_debugger_path(&vec![Ok(None), Err(5), Err(6)]),
        Err(5)
    );
    assert_eq!(load_debugger_path(&vec![Ok(None), found("a", false)]), Ok(None));
    assert_eq!(debugger_registry_view_for_machines(0, 1), Err(50));
    assert_eq!(DebuggerRegistryView::Registry32.access_mask(), 0x200);
    assert_eq!(DebuggerRegistryView::Registry64.access_mask(), 0x100);
    assert_eq!(DebuggerRegistryView::Native.access_mask(), 0);
}

#[test]
fn debugger_is_attached_step_by_step() {
    let next = |state, event| match attach_step(state, event, 42) {
        AttachStep::Next(state, action) => (state, action),
        AttachStep::Done(report) => panic!("{report:?}"),
    };
    let (state, action) = attach_debugger(true);
    assert!(matches!(action, AttachAction::Confirm));
    let (state, action) = next(state, AttachEvent::Confirmation(6));
    assert!(matches!(action, AttachAction::OpenProcess));
    let (state, action) = next(state, AttachEvent::Process(Ok(())));
    assert!(matches!(action, AttachAction::QueryMachines));
    let (state, action) = next(state, AttachEvent::Machines(Ok((0x14C, 0x8664))));
    assert!(matches!(
        action,
        AttachAction::LoadCommand(DebuggerRegistryView::Registry32)
    ));
    let command = parse_expanded_debugger_command(r"C:\dbg.exe -p %ld -e %ld");
    let (state, action) = next(state, AttachEvent::Command(command));
    assert!(matches!(action, AttachAction::CheckProgram(path) if path == r"C:\dbg.exe"));
    let (state, action) = next(state, AttachEvent::Program(true));
    assert!(matches!(action, AttachAction::CreateEvent));
    let (state, action) = next(state, AttachEvent::Event(Ok(7)));
    assert!(matches!(action, AttachAction::PrepareAttributes(7)));
    let (state, action) = next(state, AttachEvent::Attributes(Ok(())));
    assert!(matches!(
        action,
        AttachAction::Start(path, line) if path == r"C:\dbg.exe" && line == r"C:\dbg.exe -p 42 -e 7"
    ));
    match attach_step(state, AttachEvent::Start(Ok((true, true))), 42) {
        AttachStep::Done(report) => assert!(report.succeeded && report.message.is_none()),
        AttachStep::Next(..) => panic!("the debugger was started"),
    }
}

#[test]
fn failed_attachment_says_why() {
    let message = |state, event| match attach_step(state, event, 42) {
        AttachStep::Done(report) => report.message,
        AttachStep::Next(..) => panic!("the attachment failed"),
    };
    let cannot = |error| Some(ActionMessage::Failure(FailureText::CannotDebug, error));
    assert_eq!(message(AttachState::Confirmation, AttachEvent::Confirmation(7)), None);
    assert_eq!(message(AttachState::Process, AttachEvent::Process(Err(5))), cannot(5));
    assert_eq!(
        message(AttachState::Machines, AttachEvent::Machines(Ok((1, 1)))),
        cannot(50)
    );
    assert_eq!(message(AttachState::Command, AttachEvent::Command(Ok(None))), cannot(2));
    let command = parse_expanded_debugger_command(r"C:\dbg.exe %ld %ld").unwrap().unwrap();
    assert_eq!(
        message(AttachState::Program(command.clone()), AttachEvent::Program(false)),
        cannot(2)
    );
    assert_eq!(
        message(AttachState::Event(command), AttachEvent::Event(Err(8))),
        cannot(8)
    );
    assert_eq!(
        message(AttachState::Start, AttachEvent::Start(Ok((true, false)))),
        cannot(6)
    );
}

fn group(number: u16, processor_mask: usize, assignable_mask: usize) -> AffinityGroup {
    AffinityGroup {
        number,
        processor_mask,
        assignable_mask,
    }
}

#[test]
fn choice_starts_with_what_the_process_has() {
    let groups = vec![group(0, 0b1111, 0b1110), group(1, 0b11, 0b11)];
    assert_eq!(
        initial_affinity_masks(&groups, Some(Ok(vec![1, 2])), &vec![0], Err(5)),
        Ok(vec![1, 2])
    );
    assert_eq!(
        initial_affinity_masks(&groups, None, &vec![0, 1], Err(5)),
        Ok(vec![0b1110, 0b11])
    );
    assert_eq!(
        initial_affinity_masks(&groups, None, &vec![1], Ok((0b01, 0b11))),
        Ok(vec![0, 0b01])
    );
    assert_eq!(
        initial_affinity_masks(&groups, None, &Vec::new(), Ok((0b0110, 0b1111))),
        Ok(vec![0b0110, 0])
    );
    assert_eq!(initial_affinity_masks(&groups, None, &vec![0], Err(5)), Err(5));
    assert_eq!(
        initial_affinity_masks(&groups, None, &vec![9], Ok((1, 1))),
        Err(13)
    );
    assert_eq!(
        initial_affinity_masks(&groups, None, &vec![0], Ok((1, 1))),
        Err(50)
    );
    assert_eq!(
        initial_affinity_masks(&Vec::new(), None, &Vec::new(), Ok((1, 1))),
        Err(50)
    );
    assert_eq!(first_selected_group(&vec![0, 0, 4]), 2);
    assert_eq!(first_selected_group(&vec![0, 0]), 0);
}

#[test]
fn selection_takes_effect_by_process_or_by_thread() {
    let one = vec![group(0, 3, 3)];
    assert!(matches!(
        plan_affinity(Ok(vec![10]), &one, &vec![2]),
        Ok(AffinityPlan::Process(2))
    ));
    assert!(matches!(plan_affinity(Ok(Vec::new()), &one, &vec![0]), Err(87)));
    assert!(matches!(plan_affinity(Err(8), &one, &vec![0]), Err(8)));
    let two = vec![group(0, 3, 3), group(4, 3, 3), group(5, 3, 3)];
    match plan_affinity(Ok(vec![10, 20]), &two, &vec![2, 0, 1]) {
        Ok(AffinityPlan::Threads(ids, selected)) => {
            assert_eq!(ids, vec![10, 20]);
            assert_eq!(selected, vec![(0, 2), (5, 1)]);
        }
        _ => panic!("there are several groups"),
    }
}

#[test]
fn threads_are_spread_over_the_selection() {
    let selected = [(0u16, 2usize), (5, 1)];
    assert_eq!(affinity_target_for_thread(0, &selected), Some((0, 2)));
    assert_eq!(affinity_target_for_thread(3, &selected), Some((5, 1)));
    assert_eq!(affinity_target_for_thread(3, &[]), None);
    assert!(affinity_is_within_selection(0, 2, &selected));
    assert!(!affinity_is_within_selection(0, 3, &selected));
    assert!(!affinity_is_within_selection(0, 0, &selected));
    assert!(!affinity_is_within_selection(9, 1, &selected));

    assert!(ThreadAssignment::new(Vec::new()).is_err());
    let mut assignment = ThreadAssignment::new(selected.to_vec()).ok().unwrap();
    assert_eq!(assignment.check_moved(), Err(50));
    assert_eq!(assignment.target(7, 7), Ok((0, 2)));
    assert_eq!(assignment.record(70, Ok((3, 9))), Ok(()));
    assert_eq!(assignment.target(7, 7), Ok((5, 1)));
    assert_eq!(assignment.record(71, Err(6)), Ok(()));
    assert_eq!(assignment.record(72, Err(5)), Err(5));
    assert_eq!(assignment.target(7, 8), Err(13));
    assert_eq!(assignment.check_moved(), Ok(()));
    assert!(!assignment.needs_check(70));
    assert!(assignment.needs_check(71));
    assert_eq!(assignment.check_racing_thread(7, 7, Ok((5, 1))), Ok(()));
    assert_eq!(assignment.check_racing_thread(7, 7, Ok((5, 3))), Err(170));
    assert_eq!(assignment.check_racing_thread(7, 7, Err(5)), Err(5));
    assert_eq!(assignment.check_racing_thread(7, 8, Ok((5, 1))), Err(13));
    assert_eq!(skip_unopened_thread(87), Ok(()));
    assert_eq!(assignment.record(73, Ok((4, 8))), Ok(()));
    assert!(assignment.moves_to_undo(Ok(())).is_empty());
    let undo: Vec<(u32, (u16, usize))> = assignment
        .moves_to_undo(Err(5))
        .iter()
        .map(|moved| (moved.thread_id, moved.previous))
        .collect();
    assert_eq!(undo, vec![(73, (4, 8)), (70, (3, 9))]);
    let original = vec![1, 2];
    let restore = |stage, outcome| sets_to_restore(stage, outcome, &original);
    assert_eq!(restore(AffinityStage::DefaultSets, Err(5)), None);
    assert_eq!(restore(AffinityStage::Processors, Ok(())), None);
    assert_eq!(
        restore(AffinityStage::Processors, Err(5)),
        Some(vec![1, 2])
    );
    assert!(AffinityPlan::Process(1).default_sets().is_empty());
    assert_eq!(
        AffinityPlan::Threads(vec![3, 4], Vec::new()).default_sets(),
        vec![3, 4]
    );
    assert_eq!(skip_unopened_thread(5), Err(5));
}

#[test]
fn threads_and_groups_are_listed_once() {
    let thread = |thread_id, owner_id| SnapshotThread {
        thread_id,
        owner_id,
    };
    assert_eq!(
        process_threads(
            &vec![thread(9, 1), thread(3, 1), thread(4, 2), thread(9, 1)],
            1
        ),
        vec![3, 9]
    );
    assert!(matches!(
        first_group_answer(false, 122, 3),
        GroupQueryStep::Ask(3)
    ));
    assert!(matches!(first_group_answer(true, 0, 3), GroupQueryStep::Fail(13)));
    assert!(matches!(first_group_answer(false, 0, 3), GroupQueryStep::Fail(31)));
    assert_eq!(announced_room(3), 4);
    assert_eq!(announced_room(u16::MAX), u16::MAX);
    assert!(matches!(
        group_answer(true, 0, 3, 3, &vec![2, 0, 2, 7]),
        GroupQueryStep::Done(groups) if groups == vec![0, 2]
    ));
    assert!(matches!(
        group_answer(true, 0, 3, 0, &vec![0; 4]),
        GroupQueryStep::Fail(13)
    ));
    assert!(matches!(
        group_answer(false, 122, 3, 9, &vec![0; 4]),
        GroupQueryStep::Ask(9)
    ));
    assert!(matches!(
        group_answer(false, 122, 3, 3, &vec![0; 4]),
        GroupQueryStep::Fail(122)
    ));
}

#[test]
fn boxes_show_and_take_the_selection() {
    let mut choice = AffinityChoice {
        groups: vec![group(0, 0b1111, 0b0111), group(2, 0b11, 0b11)],
        selected_masks: vec![0b1101, 0],
        selected_group_index: 0,
    };
    assert_eq!(choice.group_labels(), vec!["G0 (4)", "G2 (2)"]);
    let boxes = choice.render_affinity_group();
    assert_eq!(boxes.len(), 64);
    assert_eq!(boxes[1].label, "G0:CPU 1");
    assert!(boxes[0].enabled && boxes[0].checked);
    assert!(boxes[1].enabled && !boxes[1].checked);
    assert!(!boxes[3].enabled && !boxes[3].checked);
    let checked: Vec<bool> = boxes.iter().map(|shown| shown.checked).collect();
    choice.save_affinity_group(&checked);
    assert_eq!(choice.selected_masks, vec![0b0101, 0]);
    assert!(choice.choose_group(1));
    assert!(!choice.choose_group(2));
    assert!(!choice.choose_group(-1));
    choice.save_affinity_group(&vec![true; 64]);
    assert_eq!(choice.selected_masks, vec![0b0101, 0b11]);
    assert!(choice.selects_something());
    choice.selected_masks = vec![0, 0];
    assert!(!choice.selects_something());
    choice.groups.truncate(1);
    choice.selected_masks.truncate(1);
    choice.selected_group_index = 0;
    assert_eq!(choice.group_labels(), vec!["G0"]);
    assert_eq!(choice.render_affinity_group()[63].label, "CPU 63");
}

#[test]
fn program_is_named_by_the_end_of_its_path() {
    let program = |text: &str| normalize_debugger_command(text, 1, text);
    assert_eq!(program(r"C:\old\DRWTSN32.exe"), None);
    assert_eq!(program(r"C:\old\drwtsn32.exe\."), None);
    assert_eq!(program(r"C:\old\drwtsn32\.\\"), None);
    assert_eq!(program("C:drwtsn32.exe"), None);
    assert_eq!(program("drwtsn32/./"), None);
    assert!(program(r"C:\drwtsn32.exe\..").is_some());
    assert!(program(r"\\server\drwtsn32.exe").is_some());
    assert_eq!(program(r"\\server\share\drwtsn32.exe"), None);
    assert!(program(r"\\.\drwtsn32.exe").is_some());
    assert!(program(r"\\?\drwtsn32.exe").is_some());
    assert_eq!(program(r"\\?\C:\drwtsn32.exe"), None);
    assert!(program(r"\\?\C:\drwtsn32.exe\.").is_some());
    assert!(program(r"\\?\C:\old/drwtsn32.exe").is_some());
    assert_eq!(program(r"\\?\C:/drwtsn32.exe"), None);
    assert!(program(r"\\?\UNC\server\drwtsn32.exe").is_some());
    assert_eq!(program(r"\\?\UNC\server\share\drwtsn32.exe"), None);
    assert!(program(".").is_some());
}

#[test]
fn program_needs_an_absolute_path() {
    let found = |path: &str| {
        parse_expanded_debugger_command(&format!("{path} %ld %ld"))
            .unwrap()
            .is_some()
    };
    assert!(found(r"C:\dbg.exe") && found("C:/dbg.exe"));
    assert!(!found("C:dbg.exe") && !found(r"\dbg.exe") && !found("dbg.exe"));
    assert!(found(r"\\server\share") && !found(r"\\server") && !found(r"\\server\"));
    assert!(found(r"\\?\") && found(r"\\?\dbg.exe") && found("//./"));
    assert!(!found("//?/") && !found(r"\\?/") && found("//?/C:/dbg.exe"));
}
