use taskmgr::cpu::collector::{
    check_relation_buffer, relation_buffer_words, BaselineStep, CpuFirmwareCollector,
    CpuNativeCollector, CpuPdhCollectOutcome, DynamicAction, SampleBaseline,
};
use taskmgr::cpu::features::{cpu_features, instruction_set_features};
use taskmgr::cpu::firmware::{
    firmware_processor, order_processors, wmi_string, wmi_u16, wmi_u32, Fetched, FetchedProcessor,
    WmiProperty, WmiValue, CIM_STRING, CIM_UINT16, CIM_UINT32,
};
use taskmgr::cpu::model::{
    CpuArchitecture, CpuComponentUpdate, CpuDetailError, CpuDetailRefresh, CpuErrorRecord,
    CpuTopologyKey,
};
use taskmgr::cpu::pdh::{
    array_words, check_array, decode_counter_array, single_counter_value, validate_pdh_status,
    FrequencyTracker, PdhArrayValue,
};
use taskmgr::cpu::model::LogicalProcessorId;
use taskmgr::pdh::{read_bounded_name, CounterBuffer, NameFault, RawCounterItem};
use taskmgr::percent::HundredthPercent;
use windows_sys::Win32::System::Performance::PDH_MORE_DATA;

fn string(value: &str) -> Fetched {
    Ok(WmiProperty {
        cim_type: CIM_STRING,
        value: WmiValue::Text(value.encode_utf16().collect()),
    })
}

fn number(cim_type: i32, value: i32) -> Fetched {
    Ok(WmiProperty {
        cim_type,
        value: WmiValue::Signed(value),
    })
}

fn empty(cim_type: i32) -> Fetched {
    Ok(WmiProperty {
        cim_type,
        value: WmiValue::Empty,
    })
}

fn failed() -> CpuDetailError {
    CpuDetailError::HResult {
        context: "WMI",
        code: -1,
    }
}

#[test]
fn wmi_values_are_checked_against_their_type() {
    assert_eq!(wmi_string(&string("Intel")), Ok(Some("Intel".to_string())));
    assert_eq!(wmi_string(&empty(CIM_STRING)), Ok(None));
    assert_eq!(wmi_string(&Err(failed())), Err(failed()));
    assert!(wmi_string(&number(CIM_UINT16, 1)).is_err());
    assert_eq!(wmi_u16(&number(CIM_UINT16, 64)), Ok(Some(64)));
    assert!(wmi_u16(&number(CIM_UINT16, -1)).is_err());
    assert!(wmi_u16(&number(CIM_UINT32, 1)).is_err());
    assert_eq!(wmi_u32(&number(CIM_UINT32, -1)), Ok(Some(u32::MAX)));
    assert_eq!(wmi_u32(&empty(CIM_UINT32)), Ok(None));
}

fn raw_processor(device_id: Fetched) -> FetchedProcessor {
    FetchedProcessor {
        device_id,
        name: string("Some CPU"),
        manufacturer: empty(CIM_STRING),
        socket: empty(CIM_STRING),
        processor_id: empty(CIM_STRING),
        family: number(CIM_UINT16, 205),
        level: empty(CIM_UINT16),
        revision: empty(CIM_UINT16),
        stepping: empty(CIM_STRING),
        address_width: number(CIM_UINT16, 64),
        data_width: number(CIM_UINT16, 64),
        max_clock_mhz: number(CIM_UINT32, 3600),
    }
}

#[test]
fn firmware_processors_are_ordered_and_distinct() {
    let first = firmware_processor(&raw_processor(string("CPU1"))).unwrap();
    assert_eq!(first.name.as_deref(), Some("Some CPU"));
    assert_eq!(first.max_clock_mhz, Some(3600));
    let second = firmware_processor(&raw_processor(string("CPU0"))).unwrap();
    assert!(firmware_processor(&raw_processor(empty(CIM_STRING))).is_err());
    let ordered = order_processors(vec![first.clone(), second]).unwrap();
    assert_eq!(ordered[0].device_id, "CPU0");
    assert_eq!(ordered[1].device_id, "CPU1");
    assert!(order_processors(vec![first.clone(), first]).is_err());
    assert!(order_processors(Vec::new()).is_err());
}

#[test]
fn firmware_is_asked_once_for_a_topology() {
    let key = CpuTopologyKey(Vec::new());
    let mut collector = CpuFirmwareCollector::new();
    let plan = collector.plan(&key, CpuDetailRefresh::Prewarm);
    assert!(plan.query);
    assert!(matches!(
        collector.note_result(Err(failed())),
        CpuComponentUpdate::Failed(_)
    ));
    assert!(!collector.plan(&key, CpuDetailRefresh::Periodic).query);
    assert!(collector.plan(&key, CpuDetailRefresh::User).query);
    assert!(matches!(
        collector.note_result(Ok(Vec::new())),
        CpuComponentUpdate::Success(_)
    ));
    assert!(!collector.plan(&key, CpuDetailRefresh::User).query);
}

#[test]
fn native_sources_are_asked_once_for_a_topology() {
    let key = CpuTopologyKey(Vec::new());
    let mut collector = CpuNativeCollector::new();
    collector.select_topology(&key);
    assert!(collector.wants_topology(CpuDetailRefresh::Prewarm));
    assert!(matches!(
        collector.note_topology(Err(failed())),
        CpuComponentUpdate::Failed(_)
    ));
    assert!(!collector.wants_topology(CpuDetailRefresh::Periodic));
    assert!(collector.wants_topology(CpuDetailRefresh::User));
    assert!(collector.take_features());
    assert!(!collector.take_features());
    assert_eq!(
        collector.plan_dynamic(CpuDetailRefresh::Periodic),
        DynamicAction::Open
    );
    assert!(collector.note_opened(Ok(())).is_none());
    assert_eq!(
        collector.plan_dynamic(CpuDetailRefresh::Periodic),
        DynamicAction::Collect
    );
    let (update, baseline) = collector.note_collected(Ok(CpuPdhCollectOutcome::Primed(42)));
    assert!(matches!(update, CpuComponentUpdate::Unchanged));
    assert_eq!(baseline, Some(42));
}

#[test]
fn counters_have_values_from_the_second_collection_on() {
    let mut baseline = SampleBaseline { ready: false };
    assert_eq!(baseline.advance(0), Ok(BaselineStep::Primed));
    assert_eq!(baseline.advance(0), Ok(BaselineStep::Readable));
    assert!(baseline.advance(5).is_err());
    baseline.reset_sample_baseline();
    assert!(!baseline.ready);
}

#[test]
fn features_are_named_in_their_order() {
    let info = cpu_features(9, &vec![40, 13, 21]);
    assert_eq!(info.architecture, CpuArchitecture::X64);
    assert!(info.virtualization_firmware_enabled);
    assert!(!info.second_level_address_translation);
    assert_eq!(info.isa_features, vec!["SSE3", "AVX2"]);
    assert!(instruction_set_features().contains(&(39, "AVX")));
}

#[test]
fn relation_buffers_are_checked() {
    assert!(relation_buffer_words(true, 80, 0).is_err());
    assert!(relation_buffer_words(false, 80, 5).is_err());
    assert!(relation_buffer_words(false, 0, 122).is_err());
    assert!(relation_buffer_words(false, 80, 122).is_ok());
    assert!(check_relation_buffer(true, 80, 80, 0).is_ok());
    assert!(check_relation_buffer(true, 81, 80, 0).is_err());
    assert!(check_relation_buffer(false, 80, 80, 5).is_err());
}

#[test]
fn counter_arrays_are_checked() {
    assert!(array_words(0, 8).is_err());
    assert!(array_words(PDH_MORE_DATA, 0).is_err());
    assert_eq!(array_words(PDH_MORE_DATA, 9), Ok(2));
    assert!(check_array(5, 8, 0, 1).is_err());
    assert!(validate_pdh_status(0).is_ok());
    assert!(validate_pdh_status(1).is_ok());
    assert_eq!(
        validate_pdh_status(7),
        Err(CpuDetailError::Pdh {
            context: "CPU PDH formatted counter status",
            status: 7
        })
    );
    assert_eq!(single_counter_value(0, 0, 12), Ok(12));
    assert!(single_counter_value(0, 0, -1).is_err());
    assert!(single_counter_value(3, 0, 12).is_err());
}

fn buffer(text: &str) -> CounterBuffer {
    let units: Vec<u16> = text.encode_utf16().collect();
    CounterBuffer {
        base: 0x1000,
        used_bytes: units.len() * 2,
        units,
    }
}

#[test]
fn names_of_counters_stay_inside_their_buffer() {
    let names = buffer("ab\0c");
    assert_eq!(read_bounded_name(&names, 0x1000).as_deref(), Ok("ab"));
    assert_eq!(read_bounded_name(&names, 0x1002).as_deref(), Ok("b"));
    assert_eq!(read_bounded_name(&names, 0x1001), Err(NameFault::Pointer));
    assert_eq!(read_bounded_name(&names, 0x0FFE), Err(NameFault::Pointer));
    assert_eq!(read_bounded_name(&names, 0x1006), Err(NameFault::Terminator));
    let mut broken = buffer("ab\0c");
    broken.units[0] = 0xD800;
    assert_eq!(read_bounded_name(&broken, 0x1000), Err(NameFault::Encoding));
    let values = decode_counter_array(
        &names,
        &vec![RawCounterItem {
            name_address: 0x1000,
            status: 0,
            value: 9,
        }],
    )
    .unwrap();
    assert_eq!(values[0].instance, "ab");
    assert_eq!(values[0].value, 9);
}

#[test]
fn tracker_expects_the_processors_it_learned() {
    let expected = [LogicalProcessorId { group: 0, number: 0 }];
    let value = |instance: &str, value: i64| PdhArrayValue {
        instance: instance.to_string(),
        value,
    };
    let share = |instance: &str| PdhArrayValue {
        instance: instance.to_string(),
        value: HundredthPercent(10_000),
    };
    let mut tracker = FrequencyTracker::new(&expected).ok().unwrap();
    assert_eq!(
        tracker.validate_frequencies(&[value("0,0", 2000)], &[share("0,0")]),
        Ok((2000, 2000, 2000))
    );
    assert!(tracker
        .validate_frequencies(&[value("1,0", 2000)], &[share("1,0")])
        .is_err());
    assert!(FrequencyTracker::new(&[]).is_err());
}

#[test]
fn processor_errors_are_recorded_under_their_own_kind() {
    assert_eq!(
        CpuDetailError::InvalidData { context: "x" }.record(),
        CpuErrorRecord::Win32("x", 13)
    );
    assert_eq!(failed().record(), CpuErrorRecord::HResult("WMI", -1));
}
