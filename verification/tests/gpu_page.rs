use std::sync::Arc;

use taskmgr::gpu::adapter_history::{
    history_for_graph, memory_percentage, AdapterHistory, MEMORY_DEDICATED_GRAPH_INDEX,
    MEMORY_SHARED_GRAPH_INDEX,
};
use taskmgr::gpu::controls::{
    capture_layout_metrics, control_height, graph_index, handle_mouse_wheel, layout_placements,
    SB_BOTTOM, SB_ENDSCROLL, SB_LINEDOWN, SB_LINEUP, SB_PAGEDOWN, SB_THUMBTRACK, SB_TOP,
};
use taskmgr::gpu::engines::{
    default_engine_slots, engine_options, engine_priority, format_engine_label, EngineNames,
};
use taskmgr::gpu::graphs::StatusTexts;
use taskmgr::gpu::layout::{compute_gpu_layout, GpuLayoutMetrics, ENGINE_SLOT_COUNT};
use taskmgr::gpu::model::{
    AdapterLuid, GpuAdapterId, GpuAdapterInfo, GpuAdapterMetadata, GpuAdapterSample,
    GpuCollectOutcome, GpuDynamicSnapshot, GpuEngineId, GpuEngineKind, GpuEngineSample,
    GpuInventorySnapshot, GpuMetadataSnapshot, GpuSampleError,
};
use taskmgr::gpu::page::{
    needs_follow_up, CommitOutcome, GpuPageState, InventoryOutcome, PageUpdate,
};
use taskmgr::gpu::selection::{GpuCommand, SelectionSync, CBN_SELCHANGE};
use taskmgr::gpu::status::{
    snapshot_generation_changed, snapshot_timestamp_advances, status_after_refresh_error,
    GpuPageStatus,
};
use taskmgr::gpu::values::{
    byte_amounts, format_bytes, format_optional_usage_limit, format_temperature, ByteTexts,
    PageTexts,
};
use taskmgr::history::HistoryAccess;
use taskmgr::options::Options;
use taskmgr::perf_drawing::ChartColor;
use taskmgr::rect::Rect;
use taskmgr::resource::{
    IDC_GPU_DEDICATED_GRAPH, IDC_GPU_ENGINE_GRAPH_FIRST, IDC_GPU_ENGINE_SELECTOR_FIRST,
    IDC_GPU_SELECTOR, IDC_GPU_SHARED_GRAPH,
};
use taskmgr::table::Table;

fn engine(ordinal: u32, kind: GpuEngineKind) -> (GpuEngineId, GpuEngineKind) {
    (
        GpuEngineId {
            adapter: GpuAdapterId {
                luid: AdapterLuid {
                    high_part: 0,
                    low_part: 1,
                },
                physical_index: 0,
            },
            ordinal,
        },
        kind,
    )
}

fn staged_adapter() -> Arc<GpuAdapterInfo> {
    Arc::new(GpuAdapterInfo {
        id: GpuAdapterId {
            luid: AdapterLuid {
                high_part: 0,
                low_part: 7,
            },
            physical_index: 0,
        },
        enumeration_index: 0,
        name: "Staged GPU".to_string(),
        vendor_id: 1,
        device_id: 2,
        subsystem_id: 3,
        revision: 4,
        dedicated_limit_bytes: Some(8 * 1024 * 1024 * 1024),
        shared_limit_bytes: Some(4 * 1024 * 1024 * 1024),
    })
}

fn staged_metadata(metadata_errors: Vec<GpuSampleError>) -> GpuAdapterMetadata {
    GpuAdapterMetadata {
        id: staged_adapter().id,
        hardware_reserved_bytes: None,
        driver: Default::default(),
        directx_feature_level: None,
        metadata_errors,
    }
}

#[test]
fn staged_sources_make_trustworthy_content_visible_independently() {
    let info = staged_adapter();
    let mut state = GpuPageState::new();
    state.inventory = Some(GpuInventorySnapshot {
        generation: 1,
        adapters: vec![Arc::clone(&info)],
    });
    assert_eq!(state.derive_status(), GpuPageStatus::LoadingPerformance);

    state.dynamic_snapshot = Some(GpuDynamicSnapshot {
        generation: 1,
        timestamp_ms: 1,
        adapters: vec![GpuAdapterSample {
            info: Arc::clone(&info),
            overall_utilization_percent: 5,
            engines: Vec::new(),
            dedicated_usage_bytes: 10,
            shared_usage_bytes: 20,
            temperature_deci_c: Some(420),
            row_errors: Vec::new(),
        }],
    });
    assert_eq!(state.derive_status(), GpuPageStatus::LoadingDetails);

    state.metadata.insert(info.id, staged_metadata(Vec::new()));
    assert_eq!(state.derive_status(), GpuPageStatus::Ready);

    state.metadata.insert(
        info.id,
        staged_metadata(vec![GpuSampleError::InvalidData {
            context: "GPU staged metadata test",
        }]),
    );
    assert_eq!(state.derive_status(), GpuPageStatus::Partial);
}

#[test]
fn default_slots_follow_class_priority_then_ordinal() {
    let mut options = vec![
        engine(8, GpuEngineKind::VideoDecode),
        engine(5, GpuEngineKind::ThreeD),
        engine(4, GpuEngineKind::Copy),
        engine(2, GpuEngineKind::Copy),
        engine(9, GpuEngineKind::VideoEncode),
        engine(3, GpuEngineKind::Other("VR".to_string())),
    ];
    options.sort_by(|left, right| {
        engine_priority(&left.1)
            .cmp(&engine_priority(&right.1))
            .then_with(|| left.0.ordinal.cmp(&right.0.ordinal))
    });
    let slots = default_engine_slots(&options);
    assert_eq!(
        slots.map(|slot| slot.map(|id| id.ordinal)),
        [Some(5), Some(2), Some(9), Some(8)]
    );
}

#[test]
fn memory_percentage_uses_wide_math_and_ui_clamp() {
    assert_eq!(memory_percentage(u64::MAX, Some(u64::MAX)), 100);
    assert_eq!(memory_percentage(1, Some(3)), 33);
    assert_eq!(memory_percentage(1, None), 0);
    assert_eq!(memory_percentage(1, Some(0)), 0);
}

#[test]
fn refresh_errors_only_claim_a_stale_sample_when_one_exists() {
    assert_eq!(
        status_after_refresh_error(false, false),
        GpuPageStatus::Failed
    );
    assert_eq!(
        status_after_refresh_error(false, true),
        GpuPageStatus::Unsupported
    );
    assert_eq!(
        status_after_refresh_error(true, false),
        GpuPageStatus::Stale
    );
}

#[test]
fn topology_generation_change_requires_fresh_histories() {
    assert!(!snapshot_generation_changed(None, 1));
    assert!(!snapshot_generation_changed(Some(2), 2));
    assert!(snapshot_generation_changed(Some(2), 3));
}

#[test]
fn snapshot_time_must_advance_before_history_does() {
    assert!(snapshot_timestamp_advances(None, 0));
    assert!(snapshot_timestamp_advances(Some(10), 11));
    assert!(!snapshot_timestamp_advances(Some(10), 10));
    assert!(!snapshot_timestamp_advances(Some(10), 9));
}

#[test]
fn graph_ids_map_to_stable_slots() {
    for slot in 0..ENGINE_SLOT_COUNT {
        assert_eq!(
            graph_index(IDC_GPU_ENGINE_GRAPH_FIRST + slot as i32),
            Some(slot)
        );
    }
    assert_eq!(
        graph_index(IDC_GPU_DEDICATED_GRAPH),
        Some(MEMORY_DEDICATED_GRAPH_INDEX)
    );
    assert_eq!(
        graph_index(IDC_GPU_SHARED_GRAPH),
        Some(MEMORY_SHARED_GRAPH_INDEX)
    );
}

#[test]
fn other_controls_are_no_graphs() {
    let state = GpuPageState::new();
    assert!(state.is_graph_control(IDC_GPU_SHARED_GRAPH));
    assert!(!state.is_graph_control(IDC_GPU_ENGINE_GRAPH_FIRST + 4));
    assert_eq!(graph_index(0), None);
}

fn sample(timestamp_ms: u64, generation: u64, percent: u8) -> GpuDynamicSnapshot {
    let info = staged_adapter();
    GpuDynamicSnapshot {
        generation,
        timestamp_ms,
        adapters: vec![GpuAdapterSample {
            engines: vec![GpuEngineSample {
                id: GpuEngineId {
                    adapter: info.id,
                    ordinal: 3,
                },
                kind: GpuEngineKind::ThreeD,
                utilization_percent: percent,
            }],
            info,
            overall_utilization_percent: percent,
            dedicated_usage_bytes: 4 * 1024 * 1024 * 1024,
            shared_usage_bytes: 1024 * 1024 * 1024,
            temperature_deci_c: Some(431),
            row_errors: Vec::new(),
        }],
    }
}

fn inventory(generation: u64) -> GpuInventorySnapshot {
    GpuInventorySnapshot {
        generation,
        adapters: vec![staged_adapter()],
    }
}

fn newest(state: &GpuPageState, graph: usize) -> Vec<u8> {
    let (history, _) = history_for_graph(
        state.selected_adapter,
        &state.histories,
        &state.engine_selections,
        graph,
    );
    let history = history.unwrap();
    (0..3).map(|index| history.value_at(index).unwrap()).collect()
}

#[test]
fn samples_move_the_histories_of_their_adapter() {
    let mut state = GpuPageState::new();
    match state.apply_completion(Ok(GpuCollectOutcome::Inventory(inventory(1)))) {
        PageUpdate::Inventory(InventoryOutcome::Committed(list_changed, Some(request))) => {
            assert!(list_changed);
            assert_eq!(request.generation, 1);
            assert_eq!(request.adapters.len(), 1);
        }
        _ => panic!("the list is shown"),
    }
    assert_eq!(state.selected_adapter, Some(staged_adapter().id));
    assert_eq!(state.status, GpuPageStatus::LoadingPerformance);
    assert_eq!(state.sync_selected_adapter(), SelectionSync::NoSample);
    assert!(state.request_metadata(Some(Ok(()))).is_none());
    assert!(state.metadata_busy);

    assert!(matches!(
        state.commit_dynamic_snapshot(sample(10, 1, 30)),
        CommitOutcome::Committed(_)
    ));
    assert_eq!(state.sync_selected_adapter(), SelectionSync::Rebuilt);
    assert!(matches!(
        state.commit_dynamic_snapshot(sample(11, 1, 40)),
        CommitOutcome::Committed(_)
    ));
    assert_eq!(state.sync_selected_adapter(), SelectionSync::Kept);
    assert_eq!(newest(&state, 0), vec![40, 30, 0]);
    assert_eq!(newest(&state, MEMORY_DEDICATED_GRAPH_INDEX), vec![50, 50, 0]);
    assert_eq!(newest(&state, MEMORY_SHARED_GRAPH_INDEX), vec![25, 25, 0]);
    assert_eq!(state.graph_scroll_offset, 4);

    // An old sample moves nothing.
    match state.commit_dynamic_snapshot(sample(11, 1, 90)) {
        CommitOutcome::Refused(error, recorded) => {
            assert_eq!(
                error,
                GpuSampleError::InvalidData {
                    context: "GPU snapshot timestamp is not monotonic"
                }
            );
            assert!(recorded);
        }
        _ => panic!("the sample is old"),
    }
    assert_eq!(newest(&state, 0), vec![40, 30, 0]);
    assert_eq!(state.status, GpuPageStatus::Stale);
    assert!(matches!(
        state.commit_dynamic_snapshot(sample(11, 1, 90)),
        CommitOutcome::Refused(_, false)
    ));

    // A sample of another list is ignored.
    assert!(matches!(
        state.commit_dynamic_snapshot(sample(12, 2, 90)),
        CommitOutcome::Ignored
    ));

    // Another generation starts afresh.
    state.commit_inventory(inventory(2));
    assert_eq!(state.histories.len(), 0);
    assert!(state.dynamic_snapshot.is_none());
    assert_eq!(state.status, GpuPageStatus::LoadingPerformance);
}

#[test]
fn missing_engine_gets_a_zero() {
    let mut history = AdapterHistory::new();
    let mut first = sample(1, 1, 60).adapters.remove(0);
    history.push(&first);
    first.engines.clear();
    history.push(&first);
    let id = GpuEngineId {
        adapter: staged_adapter().id,
        ordinal: 3,
    };
    let values = history.engine_histories.get(&id).unwrap();
    assert_eq!(values.value_at(0), Some(0));
    assert_eq!(values.value_at(1), Some(60));
    assert_eq!(history.engine_options().len(), 1);
}

#[test]
fn faulty_snapshots_are_refused() {
    let mut state = GpuPageState::new();
    assert!(matches!(
        state.commit_dynamic_snapshot(sample(1, 1, 1)),
        CommitOutcome::Refused(
            GpuSampleError::InvalidData {
                context: "GPU dynamic snapshot before inventory"
            },
            true
        )
    ));
    let mut twice = inventory(1);
    twice.adapters.push(staged_adapter());
    assert!(matches!(
        state.commit_inventory(twice),
        InventoryOutcome::Refused(
            GpuSampleError::InvalidData {
                context: "duplicate GPU inventory adapter identity"
            },
            true
        )
    ));
    state.commit_inventory(inventory(1));
    let mut incomplete = sample(1, 1, 1);
    incomplete.adapters.clear();
    assert!(matches!(
        state.commit_dynamic_snapshot(incomplete),
        CommitOutcome::Refused(
            GpuSampleError::InvalidData {
                context: "GPU dynamic adapter completeness"
            },
            true
        )
    ));
    assert!(matches!(
        state.commit_metadata_snapshot(GpuMetadataSnapshot {
            generation: 1,
            adapters: Vec::new()
        }),
        CommitOutcome::Refused(
            GpuSampleError::InvalidData {
                context: "GPU metadata adapter completeness"
            },
            true
        )
    ));
    assert!(matches!(
        state.commit_metadata_snapshot(GpuMetadataSnapshot {
            generation: 5,
            adapters: Vec::new()
        }),
        CommitOutcome::Ignored
    ));
}

#[test]
fn errors_of_rows_are_recorded_once() {
    let mut state = GpuPageState::new();
    state.commit_inventory(inventory(1));
    let error = GpuSampleError::NtStatus {
        context: "D3DKMT adapter performance data",
        status: -3,
    };
    let mut first = sample(1, 1, 1);
    first.adapters[0].row_errors = vec![error, error];
    match state.commit_dynamic_snapshot(first) {
        CommitOutcome::Committed(errors) => assert_eq!(errors, vec![error]),
        _ => panic!("the sample is shown"),
    }
    assert_eq!(state.status, GpuPageStatus::Partial);
    let mut second = sample(2, 1, 1);
    second.adapters[0].row_errors = vec![error];
    match state.commit_dynamic_snapshot(second) {
        CommitOutcome::Committed(errors) => assert!(errors.is_empty()),
        _ => panic!("the sample is shown"),
    }
    match state.commit_metadata_snapshot(GpuMetadataSnapshot {
        generation: 1,
        adapters: vec![staged_metadata(vec![error])],
    }) {
        CommitOutcome::Committed(errors) => assert_eq!(errors, vec![error]),
        _ => panic!("the metadata are shown"),
    }
    state.finish_metadata_round(false);
    assert_eq!(state.status, GpuPageStatus::Partial);
}

#[test]
fn broken_workers_are_reported() {
    let mut state = GpuPageState::new();
    assert_eq!(
        state.request_refresh(None),
        Some(GpuSampleError::Win32 {
            context: "GPU worker state",
            code: 109
        })
    );
    assert_eq!(state.request_refresh(None), None);
    assert_eq!(
        state.request_refresh(Some(Err(5))),
        Some(GpuSampleError::Win32 {
            context: "GPU worker request",
            code: 5
        })
    );
    assert_eq!(state.request_refresh(Some(Ok(()))), None);
    assert_eq!(state.status, GpuPageStatus::Failed);
    assert!(state.sample_channel_failed(6));
    assert!(state.metadata_channel_failed(6));
    assert!(!state.metadata_channel_failed(6));
    assert_eq!(
        state.request_metadata(None),
        Some(GpuSampleError::Win32 {
            context: "GPU metadata worker state",
            code: 109
        })
    );
    assert!(needs_follow_up(true, false));
    assert!(!needs_follow_up(true, true));
    assert!(matches!(
        state.apply_completion(Ok(GpuCollectOutcome::AwaitingBaseline { generation: 1 })),
        PageUpdate::Waiting
    ));
    assert!(matches!(
        state.apply_completion(Err(GpuSampleError::InvalidData { context: "x" })),
        PageUpdate::Failed(_, true)
    ));
    state.destroy();
    assert!(state.inventory.is_none());
}

fn names() -> EngineNames {
    EngineNames {
        three_d: "3D".to_string(),
        copy: "Copy".to_string(),
        video_encode: "Video Encode".to_string(),
        video_decode: "Video Decode".to_string(),
        compute: "Compute".to_string(),
        security: "Security".to_string(),
    }
}

#[test]
fn chosen_engine_stays_in_its_slot() {
    let mut state = GpuPageState::new();
    state.commit_inventory(inventory(1));
    let mut first = sample(1, 1, 30);
    let adapter = staged_adapter().id;
    first.adapters[0].engines.push(GpuEngineSample {
        id: GpuEngineId {
            adapter,
            ordinal: 9,
        },
        kind: GpuEngineKind::Other("VR".to_string()),
        utilization_percent: 7,
    });
    state.commit_dynamic_snapshot(first);
    state.sync_selected_adapter();
    assert_eq!(state.adapter_choice(), Some(0));
    assert_eq!(state.adapter_labels(), vec!["GPU 0 - Staged GPU"]);
    assert_eq!(state.engine_choice(adapter, 0), Some(0));
    assert_eq!(state.engine_choice(adapter, 1), Some(1));
    assert_eq!(state.engine_choice(adapter, 2), None);
    assert_eq!(
        state.engine_graph_label(adapter, 1, &names(), "N/A"),
        "VR 9"
    );
    assert_eq!(
        state.engine_graph_label(adapter, 3, &names(), "N/A"),
        "N/A"
    );
    assert_eq!(
        state.handle_command(IDC_GPU_ENGINE_SELECTOR_FIRST + 2, CBN_SELCHANGE, 1),
        GpuCommand::Engine
    );
    assert_eq!(state.engine_choice(adapter, 2), Some(1));
    assert_eq!(state.sync_selected_adapter(), SelectionSync::Kept);
    assert_eq!(state.engine_choice(adapter, 2), Some(1));
    assert_eq!(
        state.handle_command(IDC_GPU_ENGINE_SELECTOR_FIRST, CBN_SELCHANGE, 7),
        GpuCommand::Unchanged
    );
    assert_eq!(
        state.handle_command(IDC_GPU_SELECTOR, 0, 0),
        GpuCommand::Foreign
    );
    assert_eq!(
        state.handle_command(IDC_GPU_SELECTOR, CBN_SELCHANGE, 0),
        GpuCommand::Adapter
    );
    assert!(state.current_engine_options.is_empty());
}

#[test]
fn engines_are_offered_by_rank_number_and_name() {
    let mut kinds = Table::new();
    for (id, kind) in [
        engine(2, GpuEngineKind::Other("b".to_string())),
        engine(1, GpuEngineKind::Security),
        engine(7, GpuEngineKind::ThreeD),
        engine(3, GpuEngineKind::ThreeD),
    ] {
        kinds.insert(id, kind);
    }
    let mut other = engine(2, GpuEngineKind::Other("a".to_string()));
    other.0.adapter.physical_index = 1;
    kinds.insert(other.0, other.1);
    let offered: Vec<_> = engine_options(&kinds)
        .iter()
        .map(|(id, kind)| format_engine_label(kind, id.ordinal, &names()))
        .collect();
    assert_eq!(offered, vec!["3D 3", "3D 7", "Security 1", "a 2", "b 2"]);
}

#[test]
fn free_slots_are_filled_in_order() {
    let options = [
        engine(1, GpuEngineKind::ThreeD),
        engine(2, GpuEngineKind::ThreeD),
        engine(3, GpuEngineKind::Copy),
    ];
    let slots = default_engine_slots(&options);
    assert_eq!(
        slots.map(|slot| slot.map(|id| id.ordinal)),
        [Some(1), Some(3), Some(2), None]
    );
}

fn texts() -> PageTexts {
    PageTexts {
        unavailable: "N/A".to_string(),
        dedicated_memory: "Dedicated".to_string(),
        shared_memory: "Shared".to_string(),
    }
}

#[test]
fn values_tell_what_is_missing() {
    let info = staged_adapter();
    let mut state = GpuPageState::new();
    state.commit_inventory(inventory(1));
    let amounts = byte_amounts(&info, None, None);
    assert_eq!(amounts.total_limit, Some(12 * 1024 * 1024 * 1024));
    assert_eq!(amounts.total_usage, None);
    let bytes = ByteTexts {
        dedicated_usage: None,
        dedicated_limit: Some("8 GB".to_string()),
        shared_usage: None,
        shared_limit: None,
        total_usage: None,
        total_limit: None,
        reserved: None,
    };
    let values = state.update_visible_values(&info, None, None, &texts(), &bytes);
    assert_eq!(values.engine_percents, vec!["--", "--", "--", "--"]);
    assert_eq!(values.dedicated_caption, "Dedicated   -- / 8 GB");
    assert_eq!(values.shared_memory, "--");
    assert_eq!(values.temperature, "--");
    assert_eq!(values.driver_version, "--");

    state.handle_dynamic_error(GpuSampleError::InvalidData { context: "x" });
    state.handle_metadata_error(GpuSampleError::InvalidData { context: "x" });
    let values = state.update_visible_values(&info, None, None, &texts(), &bytes);
    assert_eq!(values.utilization, "N/A");
    assert_eq!(values.location, "N/A");

    let mut second = sample(2, 1, 30);
    second.adapters[0].temperature_deci_c = None;
    state.commit_dynamic_snapshot(second);
    state.sync_selected_adapter();
    let shown = state.selected_sample().cloned();
    let metadata = staged_metadata(Vec::new());
    let values = state.update_visible_values(
        state.selected_info().unwrap(),
        shown.as_ref(),
        Some(&metadata),
        &texts(),
        &ByteTexts {
            dedicated_usage: Some("4 GB".to_string()),
            dedicated_limit: Some("8 GB".to_string()),
            shared_usage: Some("1 GB".to_string()),
            shared_limit: None,
            total_usage: None,
            total_limit: None,
            reserved: Some("1 KB".to_string()),
        },
    );
    assert_eq!(values.engine_percents, vec!["30%", "0%", "0%", "0%"]);
    assert_eq!(values.utilization, "30%");
    assert_eq!(values.dedicated_memory, "4 GB / 8 GB");
    assert_eq!(values.shared_caption, "Shared   1 GB / N/A");
    assert_eq!(values.temperature, "N/A");
    assert_eq!(values.driver_version, "N/A");
    assert_eq!(values.reserved_memory, "1 KB");

    let cleared = state.clear_visible_values(&texts());
    assert_eq!(cleared.shared_caption, "Shared");
    assert_eq!(cleared.temperature, "N/A");
}

#[test]
fn amounts_and_temperatures_have_texts() {
    let units: Vec<u16> = "1.5 KB\0??".encode_utf16().collect();
    assert_eq!(format_bytes(1536, 0, &units), "1.5 KB");
    assert_eq!(format_bytes(1536, -1, &units), "1536 B");
    assert_eq!(format_temperature(431), "43.1 °C");
    assert_eq!(format_temperature(9), "0.9 °C");
    assert_eq!(
        format_optional_usage_limit(&None, &None, "--", "N/A"),
        "--"
    );
}

#[test]
fn page_scrolls_within_its_content() {
    let mut state = GpuPageState::new();
    let metrics = GpuLayoutMetrics::new(2, 2, 18, 28);
    let client = Rect {
        left: 0,
        top: 0,
        right: 700,
        bottom: 320,
    };
    let layout = compute_gpu_layout(client, metrics, 0);
    let range = state.apply_layout(&layout, client);
    assert_eq!(range.page, 320);
    assert_eq!(range.max, layout.content_height - 1);
    assert_eq!(state.handle_vscroll(SB_LINEDOWN, 320, 0), Some(24));
    assert_eq!(state.handle_vscroll(SB_LINEUP, 320, 0), Some(0));
    assert_eq!(
        state.handle_vscroll(SB_BOTTOM, 320, 0),
        Some(layout.content_height - 320)
    );
    assert_eq!(state.handle_vscroll(SB_TOP, 320, 0), Some(0));
    assert_eq!(state.handle_vscroll(SB_THUMBTRACK, 320, 17), Some(17));
    assert_eq!(
        state.handle_vscroll(SB_PAGEDOWN, u32::MAX, 0),
        Some(0)
    );
    assert_eq!(state.handle_vscroll(SB_ENDSCROLL, 320, 0), None);
    assert_eq!(layout_placements(&layout).len(), 41);
    assert_eq!(layout_placements(&layout)[0], (IDC_GPU_SELECTOR, layout.selector));

    let mut options = Options::default();
    options.hide_title = true;
    state.page_scroll_position = 5;
    assert!(state.apply_options(&options));
    assert_eq!(state.page_scroll_position, 0);
    assert!(state.no_title());
    assert!(!state.apply_options(&options));
}

#[test]
fn wheel_turns_into_lines() {
    assert_eq!(handle_mouse_wheel(0), None);
    assert_eq!(handle_mouse_wheel(120), Some((SB_LINEUP, 1)));
    assert_eq!(handle_mouse_wheel(-240), Some((SB_LINEDOWN, 2)));
    assert_eq!(handle_mouse_wheel(i16::MIN), Some((SB_LINEDOWN, 3)));
    assert_eq!(handle_mouse_wheel(i16::MAX), Some((SB_LINEUP, 3)));
    assert_eq!(handle_mouse_wheel(60), Some((SB_LINEDOWN, 0)));
}

#[test]
fn measures_round_dialog_units_up() {
    let units = |right, bottom| Rect {
        left: 0,
        top: 0,
        right,
        bottom,
    };
    let metrics = capture_layout_metrics(units(7, 13), 20, 28, &vec![11, 18, 3])
        .ok()
        .unwrap();
    assert_eq!(metrics.base_x, 2);
    assert_eq!(metrics.base_y, 2);
    assert_eq!(metrics.text_line_height, 18);
    assert_eq!(metrics.combo_visible_height, 28);
    assert_eq!(
        capture_layout_metrics(units(0, 13), 1, 1, &Vec::new()).err(),
        Some(13)
    );
    assert_eq!(control_height(units(5, 9)), Ok(9));
    assert_eq!(control_height(units(5, 0)), Err(13));
    assert_eq!(
        control_height(Rect {
            left: 0,
            top: i32::MIN,
            right: 0,
            bottom: i32::MAX
        }),
        Err(13)
    );
}

#[test]
fn memory_graphs_are_yellow() {
    let state = GpuPageState::new();
    let (history, color) = history_for_graph(None, &state.histories, &state.engine_selections, 4);
    assert!(history.is_none());
    assert_eq!(color, ChartColor::Green);
}

fn status_texts() -> StatusTexts {
    StatusTexts {
        loading: "loading".to_string(),
        loading_performance: "loading performance".to_string(),
        loading_details: "loading details".to_string(),
        partial_details: "partial".to_string(),
        no_hardware: "none".to_string(),
        requires_newer_drivers: "drivers".to_string(),
        refresh_failed: "failed".to_string(),
        refresh_failed_stale: "stale".to_string(),
    }
}

#[test]
fn graphs_are_drawn_at_their_place() {
    let place = Rect::new(0, 0, 30, 50);
    let mut state = GpuPageState::new();
    assert_eq!(state.status_text(&status_texts()), "loading");
    assert!(state.draw_graph(place, IDC_GPU_SELECTOR).is_none());
    let empty = state.draw_graph(place, IDC_GPU_DEDICATED_GRAPH).unwrap();
    assert!(empty.lines.is_empty());
    assert_eq!(empty.grid.len(), 4 + 3);

    state.commit_inventory(inventory(1));
    state.commit_dynamic_snapshot(sample(10, 1, 30));
    state.sync_selected_adapter();
    let drawing = state.draw_graph(place, IDC_GPU_ENGINE_GRAPH_FIRST).unwrap();
    assert_eq!(drawing.lines.len(), 1);
    assert_eq!(drawing.lines[0].color, ChartColor::Green);
    assert_eq!(drawing.lines[0].points.len(), 31);
    assert_eq!(drawing.lines[0].points[1].y, 50 - 15);
    assert_eq!(drawing.lines[0].points[2].x, 29);
    let drawing = state.draw_graph(place, IDC_GPU_SHARED_GRAPH).unwrap();
    assert_eq!(drawing.lines[0].color, ChartColor::Yellow);
    assert_eq!(drawing.lines[0].points[0].y, 50 - 12);
    let frame = state
        .draw_graph_gpu(place, place, IDC_GPU_ENGINE_GRAPH_FIRST)
        .unwrap();
    assert_eq!(frame.lines[0].segments.len(), 30);
    assert_eq!(state.status_text(&status_texts()), "loading details");
    state.status = GpuPageStatus::Ready;
    assert_eq!(state.status_text(&status_texts()), "");
}
