use std::sync::Arc;

use taskmgr::gpu::collector::{complete_snapshot, CollectStep, GpuCollector, QueryState};
use taskmgr::gpu::counter_array::array_size;
use taskmgr::gpu::counters::{
    assemble_counter_samples, assemble_samples, keep_known_kinds, memory_values,
    validated_engine_kinds, CounterArrayItem, CounterArrayRead, CounterItemIssue, CounterRead,
    EngineReading, MemoryReading, TemperatureReading,
};
use taskmgr::gpu::instances::{parse_engine_instance, parse_memory_instance};
use taskmgr::gpu::inventory::{Inventory, AdapterDescription};
use taskmgr::gpu::model::{
    AdapterLuid, GpuAdapterId, GpuAdapterInfo, GpuCollectOutcome, GpuEngineKind, GpuErrorRecord,
    GpuSampleError, GpuSampleSource, DEDICATED_MEMORY_COUNTER_PATH, ENGINE_COUNTER_PATH,
    SHARED_MEMORY_COUNTER_PATH,
};
use taskmgr::percent::{HundredthPercent, Utilization};
use taskmgr::table::Table;
use windows_sys::Win32::System::Performance::{PDH_CSTATUS_INVALID_DATA, PDH_CSTATUS_NO_COUNTER};

/// A percentage in binary floating point, as the counters report it.
#[derive(Clone, Copy, Debug, PartialEq)]
struct FloatPercent(f64);

impl Utilization for FloatPercent {
    fn valid(self) -> bool {
        self.is_valid()
    }

    fn nothing() -> Self {
        Self::zero()
    }

    fn total(self, other: Self) -> Option<Self> {
        self.plus(&other)
    }

    fn displayed(self) -> u8 {
        self.percent()
    }

    fn is_valid(&self) -> bool {
        self.0.is_finite() && self.0 >= 0.0
    }

    fn zero() -> Self {
        FloatPercent(0.0)
    }

    fn plus(&self, other: &Self) -> Option<Self> {
        let sum = self.0 + other.0;
        if sum.is_finite() {
            Some(FloatPercent(sum))
        } else {
            None
        }
    }

    fn percent(&self) -> u8 {
        self.0.round().clamp(0.0, 100.0) as u8
    }
}

fn adapter_info(id: GpuAdapterId) -> Arc<GpuAdapterInfo> {
    Arc::new(GpuAdapterInfo {
        id,
        enumeration_index: 0,
        name: "Test GPU".to_string(),
        vendor_id: 1,
        device_id: 2,
        subsystem_id: 3,
        revision: 4,
        dedicated_limit_bytes: Some(8 * 1024 * 1024 * 1024),
        shared_limit_bytes: Some(4 * 1024 * 1024 * 1024),
    })
}

fn engine(instance_name: &str, utilization: f64) -> EngineReading<FloatPercent> {
    EngineReading {
        instance_name: instance_name.to_string(),
        utilization: FloatPercent(utilization),
    }
}

fn memory(instance_name: &str, bytes: i64) -> MemoryReading {
    MemoryReading {
        instance_name: instance_name.to_string(),
        bytes,
    }
}

fn temperature(
    id: GpuAdapterId,
    result: Result<Option<u32>, GpuSampleError>,
) -> TemperatureReading {
    TemperatureReading { id, result }
}

fn no_engines() -> Vec<EngineReading<FloatPercent>> {
    Vec::new()
}

#[test]
fn parses_engine_identity_without_guessing_fields() {
    let parsed = parse_engine_instance(
        "pid_104888_luid_0x00000001_0x000119b6_phys_2_eng_7_engtype_videoencode",
    )
    .unwrap();
    assert_eq!(parsed.pid, 104888);
    assert_eq!(parsed.id.adapter.luid.high_part, 1);
    assert_eq!(parsed.id.adapter.luid.low_part, 0x119b6);
    assert_eq!(parsed.id.adapter.physical_index, 2);
    assert_eq!(parsed.id.ordinal, 7);
    assert_eq!(parsed.kind, GpuEngineKind::VideoEncode);
}

#[test]
fn rejects_truncated_or_overflowing_counter_instances() {
    for value in [
        "pid_1_luid_0x0_0x1_phys_0_eng_0",
        "pid_4294967296_luid_0x0_0x1_phys_0_eng_0_engtype_3d",
        "pid_1_luid_0x000000000_0x1_phys_0_eng_0_engtype_3d",
        "pid_1_luid_1_0x1_phys_0_eng_0_engtype_3d",
    ] {
        assert!(parse_engine_instance(value).is_err(), "{value}");
    }
}

#[test]
fn parses_memory_identity() {
    let parsed = parse_memory_instance("luid_0xffffffff_0x00000002_phys_3").unwrap();
    assert_eq!(parsed.luid.high_part, -1);
    assert_eq!(parsed.luid.low_part, 2);
    assert_eq!(parsed.physical_index, 3);
}

#[test]
fn aggregates_process_instances_per_engine_and_uses_busiest_engine() {
    let id = GpuAdapterId {
        luid: AdapterLuid::from_parts(0, 0x1234),
        physical_index: 0,
    };
    let info = adapter_info(id);
    let known = [id.luid];
    let engines = vec![
        engine("pid_10_luid_0x0_0x1234_phys_0_eng_1_engtype_3d", 35.4),
        engine("pid_11_luid_0x0_0x1234_phys_0_eng_1_engtype_3d", 30.4),
        engine("pid_10_luid_0x0_0x1234_phys_0_eng_2_engtype_copy", 80.2),
    ];
    let result = assemble_samples(
        &[info],
        &known,
        engines,
        vec![memory("luid_0x0_0x1234_phys_0", 1024)],
        vec![memory("luid_0x0_0x1234_phys_0", 2048)],
        vec![temperature(id, Ok(Some(0)))],
    )
    .unwrap();
    assert_eq!(result[0].engines[0].utilization_percent, 66);
    assert_eq!(result[0].engines[1].utilization_percent, 80);
    assert_eq!(result[0].overall_utilization_percent, 80);
    assert_eq!(result[0].dedicated_usage_bytes, 1024);
    assert_eq!(result[0].shared_usage_bytes, 2048);
    assert_eq!(result[0].temperature_deci_c, Some(0));

    let known_kinds = validated_engine_kinds(&Table::new(), &result).unwrap();
    let mut changed = result.clone();
    changed[0].engines[0].kind = GpuEngineKind::Copy;
    assert_eq!(
        validated_engine_kinds(&known_kinds, &changed).err().unwrap(),
        GpuSampleError::InvalidData {
            context: "GPU engine type changed without a topology generation"
        }
    );
}

#[test]
fn missing_memory_counter_instances_are_not_reported_as_zero() {
    let id = GpuAdapterId {
        luid: AdapterLuid::from_parts(0, 1),
        physical_index: 0,
    };
    let error = assemble_samples(
        &[adapter_info(id)],
        &[id.luid],
        no_engines(),
        Vec::new(),
        Vec::new(),
        vec![temperature(id, Ok(None))],
    )
    .unwrap_err();
    assert_eq!(
        error,
        GpuSampleError::InvalidData {
            context: "missing dedicated GPU memory instance"
        }
    );
}

#[test]
fn physical_indices_under_one_luid_remain_distinct() {
    let luid = AdapterLuid::from_parts(0, 0x44);
    let first = GpuAdapterId {
        luid,
        physical_index: 0,
    };
    let second = GpuAdapterId {
        luid,
        physical_index: 1,
    };
    let samples = assemble_samples(
        &[adapter_info(first), adapter_info(second)],
        &[luid],
        vec![
            engine("pid_1_luid_0x0_0x44_phys_0_eng_0_engtype_3d", 10.0),
            engine("pid_2_luid_0x0_0x44_phys_1_eng_0_engtype_3d", 20.0),
        ],
        vec![
            memory("luid_0x0_0x44_phys_0", 100),
            memory("luid_0x0_0x44_phys_1", 200),
        ],
        vec![
            memory("luid_0x0_0x44_phys_0", 300),
            memory("luid_0x0_0x44_phys_1", 400),
        ],
        vec![temperature(first, Ok(None)), temperature(second, Ok(None))],
    )
    .unwrap();

    assert_eq!(samples.len(), 2);
    assert_eq!(samples[0].info.id, first);
    assert_eq!(samples[0].overall_utilization_percent, 10);
    assert_eq!(samples[0].dedicated_usage_bytes, 100);
    assert_eq!(samples[0].shared_usage_bytes, 300);
    assert_eq!(samples[1].info.id, second);
    assert_eq!(samples[1].overall_utilization_percent, 20);
    assert_eq!(samples[1].dedicated_usage_bytes, 200);
    assert_eq!(samples[1].shared_usage_bytes, 400);
}

#[test]
fn known_non_displayed_adapter_instances_are_ignored_without_weakening_identity_checks() {
    let displayed = GpuAdapterId {
        luid: AdapterLuid::from_parts(0, 0x10),
        physical_index: 0,
    };
    let non_displayed_luid = AdapterLuid::from_parts(0, 0x20);
    let samples = assemble_samples(
        &[adapter_info(displayed)],
        &[displayed.luid, non_displayed_luid],
        vec![engine("pid_1_luid_0x0_0x20_phys_0_eng_0_engtype_3d", 50.0)],
        vec![memory("luid_0x0_0x10_phys_0", 100)],
        vec![memory("luid_0x0_0x10_phys_0", 200)],
        vec![temperature(displayed, Ok(None))],
    )
    .unwrap();
    assert!(samples[0].engines.is_empty());

    let unknown = engine("pid_1_luid_0x0_0x30_phys_0_eng_0_engtype_3d", 1.0);
    assert!(assemble_samples(
        &[adapter_info(displayed)],
        &[displayed.luid, non_displayed_luid],
        vec![unknown],
        Vec::new(),
        Vec::new(),
        vec![temperature(displayed, Ok(None))],
    )
    .is_err());
}

#[test]
fn clamps_only_the_final_engine_display_value() {
    assert_eq!(FloatPercent(101.7).percent(), 100);
    assert_eq!(FloatPercent(49.5).percent(), 50);
    assert_eq!(HundredthPercent(10170).percent(), 100);
    assert_eq!(HundredthPercent(4950).percent(), 50);

    let id = GpuAdapterId {
        luid: AdapterLuid::from_parts(0, 9),
        physical_index: 0,
    };
    let samples = assemble_samples(
        &[adapter_info(id)],
        &[id.luid],
        vec![
            EngineReading {
                instance_name: "pid_1_luid_0x0_0x9_phys_0_eng_0_engtype_3d".to_string(),
                utilization: HundredthPercent(4920),
            },
            EngineReading {
                instance_name: "pid_2_luid_0x0_0x9_phys_0_eng_0_engtype_3d".to_string(),
                utilization: HundredthPercent(30),
            },
            EngineReading {
                instance_name: "pid_1_luid_0x0_0x9_phys_0_eng_1_engtype_copy".to_string(),
                utilization: HundredthPercent(10170),
            },
        ],
        vec![memory("luid_0x0_0x9_phys_0", 1)],
        vec![memory("luid_0x0_0x9_phys_0", 1)],
        vec![temperature(id, Ok(None))],
    )
    .unwrap();
    assert_eq!(samples[0].engines[0].utilization_percent, 50);
    assert_eq!(samples[0].engines[1].utilization_percent, 100);
}

#[test]
fn rejects_duplicate_process_engine_instances() {
    let id = GpuAdapterId {
        luid: AdapterLuid::from_parts(0, 7),
        physical_index: 0,
    };
    let info = adapter_info(id);
    let reading = engine("pid_1_luid_0x0_0x7_phys_0_eng_0_engtype_3d", 1.0);
    assert!(assemble_samples(
        &[info],
        &[id.luid],
        vec![reading.clone(), reading],
        Vec::new(),
        Vec::new(),
        Vec::new(),
    )
    .is_err());
}

fn partial_adapter(id: GpuAdapterId) -> Arc<GpuAdapterInfo> {
    Arc::new(GpuAdapterInfo {
        id,
        enumeration_index: 0,
        name: "Partial GPU".to_string(),
        vendor_id: 0,
        device_id: 0,
        subsystem_id: 0,
        revision: 0,
        dedicated_limit_bytes: Some(1024),
        shared_limit_bytes: Some(1024),
    })
}

#[test]
fn unsupported_memory_counter_keeps_independent_engine_and_shared_data() {
    let id = GpuAdapterId {
        luid: AdapterLuid::from_parts(0, 0x71),
        physical_index: 0,
    };
    let samples = assemble_counter_samples(
        &[partial_adapter(id)],
        &[id.luid],
        CounterRead::values(vec![engine(
            "pid_1_luid_0x0_0x71_phys_0_eng_0_engtype_3d",
            42.0,
        )]),
        CounterRead::source_error(GpuSampleError::Pdh {
            context: DEDICATED_MEMORY_COUNTER_PATH,
            status: PDH_CSTATUS_NO_COUNTER,
        }),
        CounterRead::values(vec![memory("luid_0x0_0x71_phys_0", 256)]),
        vec![temperature(id, Ok(None))],
    )
    .unwrap();

    assert_eq!(samples[0].overall_utilization_percent, Some(42));
    assert_eq!(samples[0].dedicated_usage_bytes, None);
    assert_eq!(samples[0].shared_usage_bytes, Some(256));
    let issue = samples[0]
        .row_errors
        .iter()
        .find(|issue| issue.source == GpuSampleSource::DedicatedMemory)
        .unwrap();
    assert_eq!(
        issue.source.counter_path(),
        Some(DEDICATED_MEMORY_COUNTER_PATH)
    );
    assert!(issue.error.is_unsupported());
}

#[test]
fn changed_engine_kind_is_taken_out_of_a_partial_sample() {
    let id = GpuAdapterId {
        luid: AdapterLuid::from_parts(0, 0x71),
        physical_index: 0,
    };
    let read = |kind: &str| {
        assemble_counter_samples(
            &[partial_adapter(id)],
            &[id.luid],
            CounterRead::values(vec![engine(
                &format!("pid_1_luid_0x0_0x71_phys_0_eng_0_engtype_{kind}"),
                42.0,
            )]),
            CounterRead::values(vec![memory("luid_0x0_0x71_phys_0", 128)]),
            CounterRead::values(vec![memory("luid_0x0_0x71_phys_0", 256)]),
            vec![temperature(id, Ok(None))],
        )
        .unwrap()
    };
    let (known, kept) = keep_known_kinds(&Table::new(), read("3d"));
    assert_eq!(kept[0].overall_utilization_percent, Some(42));
    let (_, kept) = keep_known_kinds(&known, read("copy"));
    assert_eq!(kept[0].overall_utilization_percent, None);
    assert!(kept[0].engines.is_empty());
    assert_eq!(kept[0].row_errors.len(), 1);
    assert_eq!(kept[0].dedicated_usage_bytes, Some(128));
}

#[test]
fn negative_memory_amounts_are_reported() {
    let read = memory_values(CounterArrayRead {
        values: vec![
            CounterArrayItem {
                name: "luid_0x0_0x1_phys_0".to_string(),
                value: 5,
            },
            CounterArrayItem {
                name: "luid_0x0_0x2_phys_0".to_string(),
                value: -5,
            },
        ],
        issues: Vec::new(),
    });
    assert_eq!(read.values, vec![memory("luid_0x0_0x1_phys_0", 5)]);
    assert_eq!(read.issues.len(), 1);
    assert_eq!(
        read.issues[0].instance_name.as_deref(),
        Some("luid_0x0_0x2_phys_0")
    );
}

#[test]
fn size_of_a_counter_array_is_bounded() {
    assert!(array_size(0xC000_0BB8, 0, 0).is_err());
}

#[test]
fn errors_are_recorded_under_their_own_kind() {
    assert_eq!(
        GpuSampleError::InvalidData { context: "x" }.record(),
        GpuErrorRecord::Win32("x", 13)
    );
    assert_eq!(
        GpuSampleError::NtStatus {
            context: "x",
            status: -1
        }
        .record(),
        GpuErrorRecord::NtStatus("x", -1)
    );
    assert_eq!(
        GpuSampleError::HResult {
            context: "x",
            code: -2
        }
        .record(),
        GpuErrorRecord::HResult("x", -2)
    );
    assert_eq!(
        GpuSampleError::Pdh {
            context: "x",
            status: 7
        }
        .record(),
        GpuErrorRecord::Pdh("x", 7)
    );
}

fn one_adapter() -> Inventory {
    let mut inventory = Inventory::new();
    let description = AdapterDescription {
        luid: AdapterLuid::from_parts(0, 0x71),
        flags: 0,
        description: "Card".encode_utf16().collect(),
        vendor_id: 1,
        device_id: 2,
        subsystem_id: 3,
        revision: 4,
        dedicated_video_memory: 1024,
        shared_system_memory: 2048,
    };
    let index = inventory.next_adapter().unwrap();
    assert_eq!(
        inventory.note_adapter(description.luid, description.flags),
        Ok(true)
    );
    inventory
        .add_hardware(&description, index, "Card", 1)
        .unwrap();
    inventory
}

#[test]
fn collector_hands_the_inventory_on_before_it_samples() {
    let mut collector = GpuCollector::new();
    assert!(collector.is_stale(true));
    assert_eq!(
        collector.collect(5).err().unwrap(),
        GpuSampleError::InvalidData {
            context: "GPU topology commit"
        }
    );
    let mut query = QueryState::new(0, 0, 0, 0).unwrap();
    assert_eq!(query.collect(0), Ok(false));
    collector.rebuild(Ok(one_adapter()), Ok(query)).unwrap();
    assert_eq!(collector.generation, 1);
    assert!(!collector.is_stale(true));
    match collector.collect(6).unwrap() {
        CollectStep::Done(GpuCollectOutcome::Inventory(snapshot)) => {
            assert_eq!(snapshot.generation, 1);
            assert_eq!(snapshot.adapters[0].name, "Card");
            assert_eq!(snapshot.adapters[0].dedicated_limit_bytes, Some(1024));
        }
        _ => panic!("the inventory comes first"),
    }
    assert!(matches!(collector.collect(7), Ok(CollectStep::Counters)));
    assert_eq!(collector.collect_counters(0), Ok(true));

    let pending = CounterRead {
        values: no_engines(),
        issues: vec![CounterItemIssue {
            instance_name: None,
            error: GpuSampleError::Pdh {
                context: ENGINE_COUNTER_PATH,
                status: PDH_CSTATUS_INVALID_DATA,
            },
        }],
    };
    assert!(collector.awaits_baseline(&pending));

    let id = collector.topology.as_ref().unwrap().infos[0].id;
    let snapshot = collector
        .finish(
            CounterRead::values(vec![engine(
                "pid_1_luid_0x0_0x71_phys_0_eng_0_engtype_3d",
                12.4,
            )]),
            CounterRead::values(vec![memory("luid_0x0_0x71_phys_0", 100)]),
            CounterRead::values(vec![memory("luid_0x0_0x71_phys_0", 200)]),
            vec![temperature(id, Ok(Some(431)))],
            99,
        )
        .unwrap();
    assert!(collector.dynamic_ready);
    assert!(!collector.awaits_baseline(&pending));
    let complete = complete_snapshot(snapshot).unwrap();
    assert_eq!(complete.timestamp_ms, 99);
    assert_eq!(complete.adapters[0].overall_utilization_percent, 12);
    assert_eq!(complete.adapters[0].temperature_deci_c, Some(431));
}

#[test]
fn snapshot_with_a_missing_source_is_not_complete() {
    let mut collector = GpuCollector::new();
    collector
        .rebuild(Ok(one_adapter()), QueryState::new(0, 0, 0, 0))
        .unwrap();
    let id = collector.topology.as_ref().unwrap().infos[0].id;
    let error = GpuSampleError::Pdh {
        context: SHARED_MEMORY_COUNTER_PATH,
        status: PDH_CSTATUS_NO_COUNTER,
    };
    let snapshot = collector
        .finish(
            CounterRead::values(no_engines()),
            CounterRead::values(vec![memory("luid_0x0_0x71_phys_0", 100)]),
            CounterRead::source_error(error),
            vec![temperature(id, Ok(None))],
            1,
        )
        .unwrap();
    assert_eq!(snapshot.adapters[0].dedicated_usage_bytes, Some(100));
    assert_eq!(complete_snapshot(snapshot).err(), Some(error));
}

#[test]
fn query_without_counters_is_ready_at_once() {
    let mut query = QueryState::new(0, 1, 2, 3).unwrap();
    assert!(!query.has_any_counter());
    assert_eq!(query.collect(17), Ok(true));
    let capabilities = query.probe_counter_capabilities();
    assert_eq!(
        capabilities[1].error,
        Some(GpuSampleError::Pdh {
            context: DEDICATED_MEMORY_COUNTER_PATH,
            status: 2
        })
    );
    assert_eq!(
        QueryState::new(9, 0, 0, 0).err(),
        Some(GpuSampleError::Pdh {
            context: "PdhOpenQueryW for GPU counters",
            status: 9
        })
    );
}

#[test]
fn generation_is_never_zero() {
    let mut collector = GpuCollector::new();
    collector.generation = u64::MAX;
    collector
        .rebuild(Ok(Inventory::new()), QueryState::new(0, 0, 0, 0))
        .unwrap();
    assert_eq!(collector.generation, 1);
    assert!(collector.query.is_none());
}
