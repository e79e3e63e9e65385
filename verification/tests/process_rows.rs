use std::cmp::Ordering;

use taskmgr::options::{Options, UPDATE_SPEED_PAUSED};
use taskmgr::process_identity::ProcIdentity;
use taskmgr::processes::accounts::AccountNameCache;
use taskmgr::processes::columns::{
    apply_selected_columns, choose_columns, column_id_from_i32, columns_from_options, shown_width,
    ColumnId, DirtyColumns,
};
use taskmgr::processes::commands::{
    build_context_menu, handle_command, priority_from_class, CommandAction, ProcCommand,
    ProcPriority,
};
use taskmgr::processes::events::ListNotification;
use taskmgr::processes::model::{
    column_text, format_elapsed_time, format_kilobytes, format_signed_kilobytes,
    update_process_entry, PriorityNames, ProcEntry,
};
use taskmgr::processes::page::{size_page, DirtyRowRange, FindOutcome, ProcessPageState};
use taskmgr::processes::sampler::{
    account_name_step, account_size_step, check_token_user, collect_process_identity_map,
    current_system_time, delivered_account_name, enumerated_entry, kb_from_bytes,
    token_user_bytes, walk_step, well_known_service_name, AccountStep, ProcWorkerSnapshot,
    ProcWorkerState, ProcessMemory, ProcessTimes, ProcessWalk, RawProcess, RowAnswers, WalkStep,
    WtsRow,
};
use taskmgr::processes::snapshot::merge_snapshot;
use taskmgr::processes::sort::{compare_entries, sort_entries};
use taskmgr::rect::Rect;
use taskmgr::resource::{IDC_TERMINATE, IDM_PROCCOLS, IDM_PROC_HIGH, IDM_PROC_TERMINATE};

fn units(text: &str) -> Vec<u16> {
    text.encode_utf16().collect()
}

fn row(pid: u32, image_name: &str, cpu: u8) -> ProcEntry {
    let mut entry = enumerated_entry(&RawProcess {
        pid,
        thread_count: 3,
        image: units(image_name),
    });
    entry.identity = ProcIdentity::new(pid, u64::from(pid) + 100);
    entry.cpu = cpu;
    entry
}

fn names() -> PriorityNames {
    PriorityNames {
        low: "Low".to_string(),
        below_normal: "Below Normal".to_string(),
        normal: "Normal".to_string(),
        above_normal: "Above Normal".to_string(),
        high: "High".to_string(),
        realtime: "Realtime".to_string(),
        unknown: "N/A".to_string(),
    }
}

#[test]
fn enumerated_process_has_a_lower_case_name() {
    let entry = enumerated_entry(&RawProcess {
        pid: 0,
        thread_count: 4,
        image: units("ÄÖ.EXE\0rest"),
    });
    assert_eq!(entry.image_name, "ÄÖ.EXE");
    assert_eq!(entry.image_name_lower, "äö.exe");
    assert_eq!(entry.user_name, "SYSTEM");
    assert_eq!(entry.user_name_lower, "system");
    assert_eq!(entry.session_id, Some(0));
    assert_eq!(entry.thread_count, 4);
}

#[test]
fn columns_have_texts() {
    let mut entry = row(42, "a.exe", 7);
    entry.is_32_bit = Some(true);
    entry.display_cpu_time_100ns = 36_610_000_000;
    entry.mem_usage_kb = 2048;
    entry.mem_diff_kb = -12;
    entry.page_faults_diff = -3;
    entry.rebuild_display_columns(&[
        ColumnId::ImageName,
        ColumnId::Pid,
        ColumnId::Cpu,
        ColumnId::CpuTime,
        ColumnId::MemUsage,
        ColumnId::MemUsageDiff,
        ColumnId::PageFaultsDiff,
    ]);
    let strings = names();
    let shown = |column| column_text(&entry, column, &strings);
    assert_eq!(shown(ColumnId::ImageName), "a.exe *32");
    assert_eq!(shown(ColumnId::Pid), "42");
    assert_eq!(shown(ColumnId::Cpu), "07 %");
    assert_eq!(shown(ColumnId::CpuTime), " 1:01:01");
    assert_eq!(shown(ColumnId::MemUsage), "2048 K");
    assert_eq!(shown(ColumnId::MemUsageDiff), "-12 K");
    assert_eq!(shown(ColumnId::PageFaultsDiff), "-3");
    assert_eq!(shown(ColumnId::BasePriority), "Normal");
    assert_eq!(format_elapsed_time(0), " 0:00:00");
    assert_eq!(format_kilobytes(u64::MAX), format!("{} K", u64::MAX));
    assert_eq!(format_signed_kilobytes(i64::MIN), format!("{} K", i64::MIN));
}

#[test]
fn only_changed_columns_are_drawn_anew() {
    let visible = DirtyColumns::from_columns(&[ColumnId::Cpu, ColumnId::ImageName]);
    assert!(visible.contains(ColumnId::Cpu) && !visible.contains(ColumnId::Pid));
    assert_eq!(
        DirtyColumns::from_column(ColumnId::Cpu),
        DirtyColumns::from_columns(&[ColumnId::Cpu])
    );
    let mut entry = row(42, "a.exe", 7);
    let mut next = row(42, "a.exe", 9);
    next.mem_usage_kb = 5;
    let changed = update_process_entry(&mut entry, &next, 2, visible);
    assert!(changed.contains(ColumnId::Cpu));
    assert!(changed.contains(ColumnId::MemUsage));
    assert!(!changed.contains(ColumnId::ImageName));
    assert!(entry.dirty_columns.contains(ColumnId::Cpu));
    assert!(!entry.dirty_columns.contains(ColumnId::MemUsage));
    assert_eq!(entry.cpu, 9);
    let drawn = entry.clone();
    let again = update_process_entry(&mut entry, &next, 2, visible);
    assert_eq!(again, DirtyColumns(0));
    assert_eq!(entry, drawn);
    let hidden = DirtyColumns(0x8000_0000);
    entry.dirty_columns = DirtyColumns(0);
    next.cpu = 10;
    let changed = update_process_entry(&mut entry, &next, 3, hidden);
    assert_eq!(changed, DirtyColumns::from_column(ColumnId::Cpu));
    assert!(!entry.dirty_columns.any());
}

#[test]
fn rows_are_sorted_by_column_then_identifier() {
    let left = row(1, "b.exe", 5);
    let right = row(2, "A.exe", 5);
    assert_eq!(
        compare_entries(&left, &right, ColumnId::ImageName, 1),
        Ordering::Greater
    );
    assert_eq!(
        compare_entries(&left, &right, ColumnId::ImageName, -1),
        Ordering::Less
    );
    assert_eq!(
        compare_entries(&left, &right, ColumnId::Cpu, 1),
        Ordering::Less
    );
    assert_eq!(
        compare_entries(&left, &left, ColumnId::Cpu, 1),
        Ordering::Equal
    );
    let mut entries = vec![row(3, "c", 1), row(1, "a", 9), row(2, "b", 9)];
    sort_entries(&mut entries, ColumnId::Cpu, -1);
    let cpus: Vec<u8> = entries.iter().map(|entry| entry.cpu).collect();
    assert_eq!(cpus, vec![9, 9, 1]);
}

#[test]
fn snapshot_replaces_the_rows() {
    let columns = vec![ColumnId::ImageName, ColumnId::Cpu];
    let mut entries = Vec::new();
    merge_snapshot(
        &mut entries,
        vec![row(1, "a", 1), row(2, "b", 2)],
        1,
        &columns,
        ColumnId::Pid,
        1,
    );
    assert_eq!(entries.len(), 2);
    merge_snapshot(
        &mut entries,
        vec![row(3, "c", 3), row(2, "b", 7)],
        2,
        &columns,
        ColumnId::Pid,
        1,
    );
    let pids: Vec<u32> = entries.iter().map(|entry| entry.pid).collect();
    assert_eq!(pids, vec![2, 3]);
    assert_eq!(entries[0].cpu, 7);
}

#[test]
fn columns_are_stored_and_chosen() {
    assert_eq!(column_id_from_i32(0), Some(ColumnId::ImageName));
    assert_eq!(column_id_from_i32(16), None);
    assert_eq!(column_id_from_i32(-1), None);
    let mut options = Options::default();
    options.active_process_columns[0] = ColumnId::ImageName as i32;
    options.active_process_columns[1] = ColumnId::Cpu as i32;
    options.column_widths[1] = 99;
    assert_eq!(
        columns_from_options(&options),
        vec![ColumnId::ImageName, ColumnId::Cpu]
    );
    assert_eq!(shown_width(&options, 1, ColumnId::Cpu), 99);
    assert_eq!(shown_width(&options, 0, ColumnId::ImageName), 107);
    let mut checked = [false; 16];
    checked[ColumnId::Pid as usize] = true;
    checked[ColumnId::Cpu as usize] = true;
    let chosen = choose_columns(&[ColumnId::ImageName, ColumnId::Cpu], &checked);
    assert_eq!(chosen[0], ColumnId::ImageName);
    assert!(chosen.contains(&ColumnId::Cpu) && chosen.contains(&ColumnId::Pid));
    assert_eq!(chosen.len(), 3);
    apply_selected_columns(&mut options, &checked);
    assert_eq!(columns_from_options(&options).len(), 3);
    assert!(ColumnId::ImageName.is_left_aligned());
    assert!(!ColumnId::Cpu.is_left_aligned());
}

#[test]
fn commands_need_a_selected_process() {
    let identity = ProcIdentity::new(4, 40);
    assert_eq!(
        handle_command(IDM_PROC_TERMINATE, Some(identity), false),
        CommandAction::Run {
            command: ProcCommand::Terminate,
            identity
        }
    );
    assert_eq!(
        handle_command(IDC_TERMINATE, Some(identity), false),
        CommandAction::Run {
            command: ProcCommand::Terminate,
            identity
        }
    );
    assert_eq!(
        handle_command(IDM_PROC_HIGH, None, true),
        CommandAction::Nothing
    );
    assert_eq!(
        handle_command(IDM_PROCCOLS, None, true),
        CommandAction::PickColumns
    );
    assert_eq!(
        handle_command(IDM_PROCCOLS, None, false),
        CommandAction::Nothing
    );
    assert_eq!(handle_command(7, Some(identity), true), CommandAction::Nothing);
    assert_eq!(priority_from_class(0x80), ProcPriority::High);
    assert_eq!(priority_from_class(12345), ProcPriority::Normal);
    assert_eq!(ProcPriority::Low.priority_class(), 0x40);
}

#[test]
fn menu_offers_what_can_be_done() {
    let menu = build_context_menu(ProcIdentity::new(4, 40), 0x80, false, 2);
    assert!(menu.commands[0].enabled);
    assert!(!menu.commands[3].enabled);
    let checked: Vec<ProcCommand> = menu
        .priorities
        .iter()
        .filter(|item| item.checked)
        .map(|item| item.command)
        .collect();
    assert_eq!(checked, vec![ProcCommand::SetPriority(ProcPriority::High)]);
    assert!(menu.affinity.is_some());
    let unverified = build_context_menu(ProcIdentity::pid_only(4), 0x80, true, 1);
    assert!(unverified.commands.iter().all(|item| !item.enabled));
    assert!(unverified.affinity.is_none());
}

#[test]
fn accounts_are_remembered() {
    let mut cache = AccountNameCache::new();
    cache.begin_refresh();
    assert_eq!(cache.get(&[1, 2]), None);
    cache.insert(vec![1, 2], "user".to_string());
    assert_eq!(cache.get(&[1, 2]).as_deref(), Some("user"));
    cache.insert(vec![1, 2], "other".to_string());
    assert_eq!(cache.get(&[1, 2]).as_deref(), Some("other"));
    assert_eq!(
        well_known_service_name(true, false, false).as_deref(),
        Some("SYSTEM")
    );
    assert_eq!(well_known_service_name(false, false, false), None);
    assert_eq!(account_size_step(false, 1332, 0), AccountStep::ShowIdentifier);
    assert_eq!(account_size_step(false, 122, 5), AccountStep::Proceed);
    assert_eq!(account_size_step(false, 5, 5), AccountStep::Fail(5));
    assert_eq!(account_name_step(true, 0), AccountStep::Proceed);
    assert_eq!(account_name_step(false, 0), AccountStep::Fail(31));
    assert_eq!(delivered_account_name(&units("bob\0"), 3), "bob");
    assert_eq!(token_user_bytes(false, 122, 40), Ok(40));
    assert!(token_user_bytes(true, 0, 40).is_err());
    assert_eq!(check_token_user(true, 0, 40, 40), Ok(()));
    assert!(check_token_user(true, 0, 41, 40).is_err());
    assert_eq!(walk_step(true, 0), WalkStep::Visit);
    assert_eq!(walk_step(false, 18), WalkStep::Finish);
    assert_eq!(walk_step(false, 0), WalkStep::Fail(31));
}

fn raw(pid: u32) -> RawProcess {
    RawProcess {
        pid,
        thread_count: 1,
        image: units("App.exe"),
    }
}

fn sample(state: &mut ProcWorkerState, time: u64, cpu_time: u64, working_set: u64) -> ProcWorkerSnapshot {
    let delta = state.total_delta(time);
    let mut walk = ProcessWalk::new();
    walk.add_unopened(&raw(9));
    let row = walk.open_row(
        &raw(4),
        Some(ProcessTimes {
            creation_100ns: 50,
            kernel_100ns: cpu_time,
            user_100ns: 0,
        }),
        &state.previous_samples,
        &state.metadata,
        delta,
    );
    let answers = RowAnswers {
        bitness: Ok(true),
        account_name: Some("Bob".to_string()),
        memory: Some(ProcessMemory {
            working_set,
            page_faults: 7,
            private_usage: 2048,
            paged_pool: 1024,
            nonpaged_pool: 0,
        }),
        handle_count: Some(11),
        priority_class: 0x20,
    };
    walk.close_row(row, answers, &state.previous_samples);
    walk.update_metadata(&mut state.metadata);
    state.commit(time, walk)
}

#[test]
fn processes_are_compared_with_the_sample_before() {
    let mut state = ProcWorkerState::new();
    let first = sample(&mut state, 1000, 100, 10 * 1024);
    assert_eq!(first.entries.len(), 2);
    assert_eq!(first.entries[0].identity, ProcIdentity::pid_only(9));
    assert_eq!(first.entries[1].identity, ProcIdentity::new(4, 50));
    assert_eq!(first.entries[1].cpu, 0);
    assert_eq!(first.entries[1].user_name_lower, "bob");
    assert_eq!(first.entries[1].handle_count, 11);
    assert_eq!(first.entries[1].commit_charge_kb, 2);
    let second = sample(&mut state, 1200, 150, 8 * 1024);
    assert_eq!(second.entries[1].cpu, 25);
    assert_eq!(second.entries[1].mem_usage_kb, 8);
    assert_eq!(second.entries[1].mem_diff_kb, -2);
    assert_eq!(second.row_error, None);
    assert_eq!(kb_from_bytes(2047), 1);
    assert_eq!(current_system_time(Ok(Some((1, 2)))), Ok(3));
    assert_eq!(current_system_time(Ok(Some((u64::MAX, 1)))), Err(13));
    assert_eq!(current_system_time(Ok(None)), Err(13));
    assert_eq!(current_system_time(Err(5)), Err(5));
    assert_eq!(current_system_time(Err(0)), Err(31));
}

#[test]
fn sessions_name_the_users_of_processes() {
    let rows = vec![
        WtsRow {
            pid: 4,
            session_id: 1,
            image: units("App.EXE"),
            account_name: Ok(Some("bob".to_string())),
        },
        WtsRow {
            pid: 5,
            session_id: 1,
            image: units("x"),
            account_name: Err(5),
        },
    ];
    let snapshot = collect_process_identity_map(&vec![4], &rows);
    assert_eq!(snapshot.identities.len(), 1);
    let identity = snapshot.identities.get(&4).unwrap();
    assert_eq!(identity.image_name_lower, "app.exe");
    assert_eq!(identity.user_name.as_deref(), Some("bob"));
}

#[test]
fn page_keeps_its_selection() {
    let mut page = ProcessPageState::new();
    let mut options = Options::default();
    options.active_process_columns[0] = ColumnId::ImageName as i32;
    options.active_process_columns[1] = ColumnId::Pid as i32;
    assert!(page.apply_options(&options, 4));
    let snapshot = || {
        Ok(ProcWorkerSnapshot {
            entries: vec![row(1, "a", 1), row(2, "b", 2)],
            row_error: None,
        })
    };
    let record = page.apply_worker_completion(snapshot(), None);
    assert!(record.rebuild);
    let update = page.rebuild_listview(0);
    assert!(update.structure_changed);
    let second = page.entries[1].identity;
    assert!(page.selection_changed(Some(second)));
    page.apply_worker_completion(snapshot(), Some(second));
    assert_eq!(page.selected_entry().map(|entry| entry.identity), Some(second));
    assert_eq!(page.identity_at(0), Some(page.entries[0].identity));
    assert_eq!(page.identity_at(-1), None);
    assert_eq!(page.fill_display_info(0, 1, &names()), Some("1"));
    assert!(matches!(page.find_process(second), FindOutcome::Found(1)));
    assert!(matches!(
        page.find_process(ProcIdentity::pid_only(2)),
        FindOutcome::Refused
    ));
    assert!(matches!(
        page.find_process(ProcIdentity::new(77, 1)),
        FindOutcome::Pending
    ));
    options.update_speed = UPDATE_SPEED_PAUSED;
    assert!(!page.timer_event(&options, false));
    assert!(page.timer_event(&options, true));
    assert!(page.set_refresh_error(5));
    assert!(!page.set_refresh_error(5));
    assert_eq!(page.initialize(Err(9)), Some(9));
    page.destroy();
    assert!(page.entries.is_empty());
}

#[test]
fn clicked_column_sorts_and_sorts_back() {
    let mut page = ProcessPageState::new();
    page.active_columns = vec![ColumnId::ImageName, ColumnId::Cpu];
    page.entries = vec![row(1, "a", 1), row(2, "b", 2)];
    page.column_clicked(1, None);
    assert_eq!(page.sort_column, ColumnId::Cpu);
    let direction = page.sort_direction;
    page.column_clicked(1, None);
    assert_eq!(page.sort_direction, -direction);
}

#[test]
fn visible_part_of_the_changed_rows_is_drawn() {
    let mut range = DirtyRowRange::new();
    assert_eq!(range.visible_rows(0, 10, 20), None);
    range.mark(7);
    range.mark(3);
    assert_eq!(range.visible_rows(0, 10, 20), Some((3, 7)));
    assert_eq!(range.visible_rows(5, 1, 20), Some((5, 6)));
    assert_eq!(range.visible_rows(8, 10, 20), None);
    assert_eq!(range.visible_rows(0, 10, 0), None);
}

#[test]
fn columns_of_the_page_are_stored_with_their_widths() {
    let mut page = ProcessPageState::new();
    page.active_columns = vec![ColumnId::ImageName, ColumnId::Pid, ColumnId::Cpu];
    let mut options = Options::default();
    assert_eq!(
        page.save_column_layout(&mut options, Some(vec![0, 2, 1]), &vec![100, 50, 35]),
        Ok(())
    );
    assert_eq!(
        &options.active_process_columns[..4],
        &[
            ColumnId::ImageName as i32,
            ColumnId::Cpu as i32,
            ColumnId::Pid as i32,
            -1
        ]
    );
    assert_eq!(&options.column_widths[..3], &[100, 35, 50]);
    assert!(page
        .save_column_layout(&mut options, Some(vec![1, 0, 2]), &vec![100, 50, 35])
        .is_err());
}

#[test]
fn list_fills_the_page_above_the_button() {
    let rect = |left, top, right, bottom| Rect {
        left,
        top,
        right,
        bottom,
    };
    let layout = size_page(
        rect(0, 0, 400, 300),
        rect(300, 260, 380, 280),
        rect(8, 8, 392, 250),
    );
    assert_eq!(layout.button_x, 304);
    assert_eq!(layout.button_y, 264);
    assert_eq!(layout.list_width, 376);
    assert_eq!(layout.list_height, 248);
}

#[test]
fn notifications_change_the_page() {
    let mut page = ProcessPageState::new();
    page.active_columns = vec![ColumnId::ImageName, ColumnId::Cpu];
    page.entries = vec![row(1, "a", 1), row(2, "b", 2)];
    let second = page.entries[1].identity;
    let effect = page.handle_notify(ListNotification::DisplayInfo, None);
    assert!(effect.handled && effect.fill_text);
    let effect = page.handle_notify(ListNotification::ItemChanged(false), Some(second));
    assert_eq!(effect.can_end, None);
    assert_eq!(page.selected_identity, None);
    let effect = page.handle_notify(ListNotification::ItemChanged(true), Some(second));
    assert_eq!(effect.can_end, Some(true));
    assert_eq!(page.selected_identity, Some(second));
    let effect = page.handle_notify(ListNotification::ColumnClick(-1), None);
    assert!(effect.refresh);
    assert_eq!(page.sort_column, ColumnId::Pid);
    assert_eq!(page.selected_identity, Some(second));
    page.handle_notify(ListNotification::ColumnClick(1), None);
    assert_eq!((page.sort_column, page.sort_direction), (ColumnId::Cpu, -1));
    page.handle_notify(ListNotification::ColumnClick(1), None);
    page.handle_notify(ListNotification::ColumnClick(1), None);
    assert_eq!((page.sort_column, page.sort_direction), (ColumnId::Cpu, -1));
    assert!(!page.handle_notify(ListNotification::Other, None).handled);
}

#[test]
fn page_pauses_while_its_menu_is_open() {
    let mut page = ProcessPageState::new();
    page.processor_count = 2;
    page.entries = vec![row(1, "a", 1)];
    let first = page.entries[0].identity;
    assert!(page.show_context_menu(None).is_none());
    assert!(!page.paused);
    let menu = page.show_context_menu(Some(first)).unwrap();
    assert!(page.paused);
    assert!(menu.commands[0].enabled && !menu.commands[3].enabled);
    assert!(menu.affinity.is_some());
    page.close_context_menu();
    assert!(!page.paused);
}

#[test]
fn columns_that_cannot_be_stored_are_reported() {
    let mut page = ProcessPageState::new();
    let mut options = Options::default();
    assert_eq!(page.deactivate(&mut options, None, &Vec::new()), Some(13));
    page.active_columns = vec![ColumnId::ImageName, ColumnId::Pid];
    assert_eq!(page.deactivate(&mut options, None, &vec![9, 8]), Some(31));
    assert_eq!(page.deactivate(&mut options, Some(vec![0, 1]), &vec![9, 8]), None);
    assert_eq!(&options.column_widths[..3], &[9, 8, -1]);
}
