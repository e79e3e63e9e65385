use std::collections::HashMap;

use taskmgr::options::Options;
use taskmgr::process_identity::ProcIdentity;
use taskmgr::processes::affinity::affinity_cpu_mask;
use taskmgr::processes::columns::{
    reorder_process_columns, write_process_column_layout, ColumnId, DirtyColumns,
};
use taskmgr::processes::debugger::{
    debugger_registry_view_for_machines, extract_first_command_token, format_debugger_template,
    normalize_debugger_command, parse_expanded_debugger_command, DebuggerRegistryView,
};
use taskmgr::processes::model::ProcEntry;
use taskmgr::processes::page::ProcessPageState;
use taskmgr::processes::sampler::{
    cpu_percent_from_delta, merge_wts_process_identity, signed_kb_delta, system_time_delta,
    wts_identity_matches, WtsProcessIdentity,
};
use taskmgr::processes::tree::{is_valid_process_tree_edge, validate_snapshot_root_identity};
use taskmgr::table::Table;
use windows_sys::Win32::Foundation::ERROR_NOT_SUPPORTED;
use windows_sys::Win32::System::Registry::{REG_EXPAND_SZ, REG_SZ};
use windows_sys::Win32::System::SystemInformation::{
    IMAGE_FILE_MACHINE_AMD64, IMAGE_FILE_MACHINE_ARM64, IMAGE_FILE_MACHINE_ARMNT,
    IMAGE_FILE_MACHINE_I386, IMAGE_FILE_MACHINE_UNKNOWN,
};
use windows_sys::Win32::System::Threading::NORMAL_PRIORITY_CLASS;

fn empty_process_entry(image_name: &str) -> ProcEntry {
    ProcEntry {
        identity: ProcIdentity::new(1234, 10),
        pid: 1234,
        image_name: image_name.to_string(),
        image_name_lower: image_name.to_lowercase(),
        is_32_bit: None,
        user_name: String::new(),
        user_name_lower: String::new(),
        session_id: None,
        cpu: 0,
        cpu_time_100ns: 0,
        display_cpu_time_100ns: 0,
        mem_usage_kb: 0,
        mem_diff_kb: 0,
        page_faults: 0,
        page_faults_diff: 0,
        commit_charge_kb: 0,
        paged_pool_kb: 0,
        nonpaged_pool_kb: 0,
        priority_class: NORMAL_PRIORITY_CLASS,
        handle_count: 0,
        thread_count: 0,
        display_text: std::array::from_fn(|_| String::new()),
        pass_count: 0,
        dirty_columns: DirtyColumns::default(),
    }
}

#[test]
fn dragged_process_columns_map_display_order_to_stable_ids() {
    let active = [
        ColumnId::ImageName,
        ColumnId::Username,
        ColumnId::Cpu,
        ColumnId::MemUsage,
    ];
    assert_eq!(
        reorder_process_columns(&active, &[0, 2, 1, 3]),
        Some(vec![
            ColumnId::ImageName,
            ColumnId::Cpu,
            ColumnId::Username,
            ColumnId::MemUsage,
        ])
    );
    assert_eq!(reorder_process_columns(&active, &[1, 0, 2, 3]), None);
    assert_eq!(reorder_process_columns(&active, &[0, 2, 2, 3]), None);
}

#[test]
fn persisted_process_layout_keeps_widths_attached_to_column_ids() {
    let mut options = Options::default();
    let mut widths = Table::new();
    widths.insert(ColumnId::ImageName as u32, 120);
    widths.insert(ColumnId::Cpu as u32, 44);
    widths.insert(ColumnId::Username as u32, 160);
    write_process_column_layout(
        &mut options,
        &[ColumnId::ImageName, ColumnId::Cpu, ColumnId::Username],
        &widths,
    );
    assert_eq!(
        &options.active_process_columns[..4],
        &[
            ColumnId::ImageName as i32,
            ColumnId::Cpu as i32,
            ColumnId::Username as i32,
            -1,
        ]
    );
    assert_eq!(&options.column_widths[..3], &[120, 44, 160]);
}

#[test]
fn extracts_quoted_absolute_debugger_path() {
    let command = r#""C:\Tools\Debugger\dbg.exe" -p %ld -e %ld -g"#;
    let debugger = normalize_debugger_command(command, REG_SZ, command);
    assert_eq!(debugger.as_deref(), Some(r"C:\Tools\Debugger\dbg.exe"));
}

#[test]
fn expands_environment_variables_before_extracting_debugger_path() {
    let command = r#""%SystemRoot%\System32\vsjitdebugger.exe" -p %ld"#;
    let debugger = normalize_debugger_command(
        command,
        REG_EXPAND_SZ,
        r#""C:\Windows\System32\vsjitdebugger.exe" -p %ld"#,
    );
    assert_eq!(
        debugger.as_deref(),
        Some(r"C:\Windows\System32\vsjitdebugger.exe")
    );
}

#[test]
fn rejects_legacy_drwtsn32_debugger_commands() {
    let command = r"drwtsn32 -p %ld -e %ld -g";
    let debugger = normalize_debugger_command(command, REG_SZ, command);
    assert!(debugger.is_none());
}

#[test]
fn extracts_unquoted_debugger_path_with_parameters() {
    let command = r"C:\Debuggers\dbg.exe -p %ld -e %ld";
    assert_eq!(
        extract_first_command_token(command),
        r"C:\Debuggers\dbg.exe"
    );
}

#[test]
fn proc_identity_distinguishes_pid_reuse() {
    let first = ProcIdentity::new(1234, 10);
    let reused = ProcIdentity::new(1234, 20);
    let mut samples = HashMap::new();
    samples.insert(first, "old");
    samples.insert(reused, "new");

    assert_ne!(first, reused);
    assert_eq!(samples.get(&first), Some(&"old"));
    assert_eq!(samples.get(&reused), Some(&"new"));
}

#[test]
fn signed_kb_delta_saturates_to_i64_bounds() {
    assert_eq!(signed_kb_delta(12, 5), 7);
    assert_eq!(signed_kb_delta(5, 12), -7);
    assert_eq!(signed_kb_delta(u64::MAX, 0), i64::MAX);
    assert_eq!(signed_kb_delta(0, u64::MAX), -i64::MAX);
}

#[test]
fn affinity_mask_supports_the_full_64_bit_processor_group() {
    assert_eq!(affinity_cpu_mask(0), 1);
    assert_eq!(affinity_cpu_mask(63), 1usize << 63);
    assert_eq!(affinity_cpu_mask(64), 0);
}

#[test]
fn process_tree_edges_reject_stale_parent_pid_reuse() {
    let old_child = ProcIdentity::new(20, 100);
    let reused_parent = ProcIdentity::new(10, 200);
    assert!(!is_valid_process_tree_edge(reused_parent, old_child, 300));

    let current_child = ProcIdentity::new(20, 250);
    assert!(is_valid_process_tree_edge(
        reused_parent,
        current_child,
        300
    ));
    assert!(!is_valid_process_tree_edge(
        reused_parent,
        current_child,
        225
    ));
}

#[test]
fn process_tree_snapshot_rejects_reused_root_pid() {
    let expected = ProcIdentity::new(10, 100);

    assert!(validate_snapshot_root_identity(expected, expected).is_ok());
    assert!(validate_snapshot_root_identity(ProcIdentity::pid_only(10), expected).is_err());
    assert!(validate_snapshot_root_identity(expected, ProcIdentity::new(10, 200)).is_err());
}

#[test]
fn wts_identity_source_rejects_stale_image_or_session() {
    let identity = WtsProcessIdentity {
        user_name: Some("SYSTEM".to_string()),
        session_id: 0,
        image_name_lower: "services.exe".to_string(),
    };

    assert!(wts_identity_matches("services.exe", None, &identity));
    assert!(wts_identity_matches("services.exe", Some(0), &identity));
    assert!(!wts_identity_matches("other.exe", Some(0), &identity));
    assert!(!wts_identity_matches("services.exe", Some(1), &identity));
}

#[test]
fn missing_wts_user_name_remains_retryable() {
    let mut entry = empty_process_entry("services.exe");
    let identity = WtsProcessIdentity {
        user_name: None,
        session_id: 0,
        image_name_lower: "services.exe".to_string(),
    };

    assert!(!merge_wts_process_identity(&mut entry, Some(&identity)));
    assert!(entry.user_name.is_empty());
    assert_eq!(entry.session_id, Some(0));
}

#[test]
fn failed_process_worker_keeps_the_last_visible_snapshot() {
    let mut state = ProcessPageState {
        entries: vec![empty_process_entry("trusted.exe")],
        pass_count: 7,
        ..ProcessPageState::new()
    };

    state.apply_worker_completion(Err(5), None);

    assert_eq!(state.entries.len(), 1);
    assert_eq!(state.entries[0].image_name, "trusted.exe");
    assert_eq!(state.pass_count, 7);
    assert_eq!(state.last_refresh_error, Some(5));
}

#[test]
fn system_time_delta_requires_a_monotonic_baseline() {
    assert_eq!(system_time_delta(100, None), None);
    assert_eq!(system_time_delta(90, Some(100)), None);
    assert_eq!(system_time_delta(125, Some(100)), Some(25));
}

#[test]
fn process_cpu_percentage_uses_exact_integer_rounding() {
    assert_eq!(cpu_percent_from_delta(0, 100), 0);
    assert_eq!(cpu_percent_from_delta(1, 3), 33);
    assert_eq!(cpu_percent_from_delta(2, 3), 67);
    assert_eq!(cpu_percent_from_delta(100, 100), 100);
}

#[test]
fn full_aedebug_template_preserves_debugger_specific_arguments() {
    let template = r#""C:\Debuggers\windbg.exe" -p %ld -e %ld -g"#;
    let command = parse_expanded_debugger_command(template).unwrap().unwrap();
    assert_eq!(command.executable, r"C:\Debuggers\windbg.exe");
    assert_eq!(
        format_debugger_template(&command.template, 1234, 5678).unwrap(),
        r#""C:\Debuggers\windbg.exe" -p 1234 -e 5678 -g"#
    );
}

#[test]
fn visual_studio_jit_template_and_literal_percent_are_supported() {
    let template = r#""C:\Windows\System32\vsjitdebugger.exe" -p %ld -e %ld --label 100%%"#;
    assert_eq!(
        format_debugger_template(template, 42, 99).unwrap(),
        r#""C:\Windows\System32\vsjitdebugger.exe" -p 42 -e 99 --label 100%"#
    );
}

#[test]
fn unsupported_or_ambiguous_templates_are_rejected() {
    assert_eq!(
        parse_expanded_debugger_command(r#""C:\Debuggers\dbg.exe" -p %ld -e %ld -j 0x%p"#),
        Err(ERROR_NOT_SUPPORTED)
    );
    for template in [
        r#""C:\Debuggers\dbg.exe" -p %ld"#,
        r#""C:\Debuggers\dbg.exe" -p %ld -e %ld -x %ld"#,
        r#""C:\Debuggers\dbg.exe" -p %q -e %ld"#,
    ] {
        assert!(parse_expanded_debugger_command(template).is_err());
    }
    assert!(
        parse_expanded_debugger_command(r#""relative\dbg.exe" -p %ld -e %ld"#)
            .unwrap()
            .is_none()
    );
}

#[test]
fn target_machine_selects_the_matching_registry_view() {
    assert_eq!(
        debugger_registry_view_for_machines(IMAGE_FILE_MACHINE_I386, IMAGE_FILE_MACHINE_AMD64)
            .unwrap(),
        DebuggerRegistryView::Registry32
    );
    assert_eq!(
        debugger_registry_view_for_machines(IMAGE_FILE_MACHINE_UNKNOWN, IMAGE_FILE_MACHINE_AMD64)
            .unwrap(),
        DebuggerRegistryView::Registry64
    );
    assert_eq!(
        debugger_registry_view_for_machines(IMAGE_FILE_MACHINE_UNKNOWN, IMAGE_FILE_MACHINE_I386)
            .unwrap(),
        DebuggerRegistryView::Native
    );
    assert_eq!(
        debugger_registry_view_for_machines(IMAGE_FILE_MACHINE_ARMNT, IMAGE_FILE_MACHINE_ARM64)
            .unwrap(),
        DebuggerRegistryView::Registry32
    );
}
