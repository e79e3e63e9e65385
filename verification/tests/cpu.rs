use std::mem::size_of;

use taskmgr::cpu::firmware::{wmi_i4_to_u16, wmi_i4_to_u32};
use taskmgr::cpu::model::{
    CoreClass, CpuArchitecture, CpuDetailError, CpuTopologyKey, LogicalProcessorId,
    ProcessorTopologyIdentity,
};
use taskmgr::cpu::native::parse_relation_all;
use taskmgr::cpu::pdh::{
    parse_processor_instance, validate_frequencies, PdhArrayValue, PdhProcessorInstance,
    ProcessorValue, RelativePerformance,
};
use taskmgr::percent::HundredthPercent;
use windows_sys::Win32::System::SystemInformation::{
    CacheUnified, RelationCache, RelationGroup, RelationNumaNodeEx, RelationProcessorCore,
    RelationProcessorPackage, PROCESSOR_ARCHITECTURE_AMD64,
    SYSTEM_LOGICAL_PROCESSOR_INFORMATION_EX,
};

/// A relative performance in percent, in binary floating point.
#[derive(Clone, Copy, Debug, PartialEq)]
struct FloatPerformance(f64);

impl ProcessorValue for FloatPerformance {
    fn usable(self) -> bool {
        self.is_usable()
    }

    fn is_usable(&self) -> bool {
        self.0.is_finite() && self.0 >= 0.0
    }
}

impl RelativePerformance for FloatPerformance {
    fn effective(self, nominal_mhz: i64) -> Option<u64> {
        self.effective_mhz(nominal_mhz)
    }

    fn effective_mhz(&self, nominal_mhz: i64) -> Option<u64> {
        let frequency = (nominal_mhz as f64 * self.0 / 100.0).round();
        if self.is_usable() && frequency.is_finite() && frequency < u64::MAX as f64 {
            Some(frequency as u64)
        } else {
            None
        }
    }
}

fn id(group: u16, number: u8) -> LogicalProcessorId {
    LogicalProcessorId { group, number }
}

fn topology_key() -> CpuTopologyKey {
    CpuTopologyKey(vec![
        ProcessorTopologyIdentity {
            id: id(0, 0),
            physical_core_index: 0,
            smt_index: Some(0),
            class: CoreClass::Uniform,
        },
        ProcessorTopologyIdentity {
            id: id(0, 1),
            physical_core_index: 0,
            smt_index: Some(1),
            class: CoreClass::Uniform,
        },
    ])
}

fn empty_record(relationship: i32) -> Vec<u8> {
    let size = size_of::<SYSTEM_LOGICAL_PROCESSOR_INFORMATION_EX>();
    let mut record = vec![0u8; size];
    record[0..4].copy_from_slice(&relationship.to_le_bytes());
    record[4..8].copy_from_slice(&(size as u32).to_le_bytes());
    record
}

fn put_affinity(record: &mut [u8], offset: usize, mask: u64) {
    record[offset..offset + 8].copy_from_slice(&mask.to_le_bytes());
}

fn processor_record(relationship: i32, mask: u64) -> Vec<u8> {
    let mut record = empty_record(relationship);
    record[30] = 1;
    put_affinity(&mut record, 32, mask);
    record
}

fn numa_record(mask: u64) -> Vec<u8> {
    let mut record = empty_record(RelationNumaNodeEx);
    record[30] = 1;
    put_affinity(&mut record, 32, mask);
    record
}

fn group_record(mask: u64) -> Vec<u8> {
    let mut record = empty_record(RelationGroup);
    record[8] = 1;
    record[10] = 1;
    record[32] = usize::BITS as u8;
    record[33] = mask.count_ones() as u8;
    put_affinity(&mut record, 72, mask);
    record
}

fn cache_record(mask: u64) -> Vec<u8> {
    let mut record = empty_record(RelationCache);
    record[8] = 2;
    record[9] = 8;
    record[10] = 64;
    record[12..16].copy_from_slice(&1_048_576u32.to_le_bytes());
    record[16..20].copy_from_slice(&CacheUnified.to_le_bytes());
    record[38] = 1;
    put_affinity(&mut record, 40, mask);
    record
}

fn valid_relation_all() -> Vec<u8> {
    [
        processor_record(RelationProcessorCore, 0b11),
        processor_record(RelationProcessorPackage, 0b11),
        numa_record(0b11),
        group_record(0b11),
        cache_record(0b11),
    ]
    .concat()
}

#[test]
fn processor_frequency_instances_follow_the_documented_numa_format() {
    assert_eq!(
        parse_processor_instance("0,31").unwrap(),
        Some(PdhProcessorInstance {
            numa_node: 0,
            numa_index: 31
        })
    );
    assert_eq!(
        parse_processor_instance("2,7").unwrap(),
        Some(PdhProcessorInstance {
            numa_node: 2,
            numa_index: 7
        })
    );
    assert_eq!(parse_processor_instance("_Total").unwrap(), None);
    assert_eq!(parse_processor_instance("0,_total").unwrap(), None);
    assert!(parse_processor_instance("31").is_err());
    assert!(parse_processor_instance("0,1,2").is_err());
    assert!(parse_processor_instance("-1,0").is_err());
    assert!(parse_processor_instance("group,_Total").is_err());
}

fn nominal_values() -> [PdhArrayValue<i64>; 3] {
    [
        PdhArrayValue {
            instance: "0,0".into(),
            value: 3_000,
        },
        PdhArrayValue {
            instance: "0,1".into(),
            value: 3_200,
        },
        PdhArrayValue {
            instance: "_Total".into(),
            value: 3_100,
        },
    ]
}

#[test]
fn frequency_set_requires_exact_unique_processor_membership() {
    let expected = [id(0, 0), id(0, 1)];
    let nominal = nominal_values();
    let performance = [
        PdhArrayValue {
            instance: "0,0".into(),
            value: FloatPerformance(150.0),
        },
        PdhArrayValue {
            instance: "0,1".into(),
            value: FloatPerformance(50.0),
        },
        PdhArrayValue {
            instance: "_Total".into(),
            value: FloatPerformance(100.0),
        },
    ];
    assert_eq!(
        validate_frequencies(&nominal, &performance, &expected).unwrap(),
        (3_050, 1_600, 4_500)
    );

    let duplicate = [nominal[0].clone(), nominal[0].clone()];
    assert!(validate_frequencies(&duplicate, &performance, &expected).is_err());
    assert!(validate_frequencies(&nominal[..1], &performance, &expected).is_err());
    assert!(validate_frequencies(&nominal, &performance[..1], &expected).is_err());

    let mut mismatched = performance.clone();
    mismatched[1].instance = "1,0".into();
    assert!(validate_frequencies(&nominal, &mismatched, &expected).is_err());
}

#[test]
fn frequencies_in_hundredths_of_a_percent_agree_with_floating_point() {
    let expected = [id(0, 0), id(0, 1)];
    let performance = [
        PdhArrayValue {
            instance: "0,0".into(),
            value: HundredthPercent(15_000),
        },
        PdhArrayValue {
            instance: "0,1".into(),
            value: HundredthPercent(5_000),
        },
    ];
    assert_eq!(
        validate_frequencies(&nominal_values(), &performance, &expected).unwrap(),
        (3_050, 1_600, 4_500)
    );
}

#[test]
fn effective_frequency_preserves_boost_and_rejects_invalid_performance() {
    assert_eq!(FloatPerformance(177.77).effective_mhz(2_401).unwrap(), 4_268);
    assert!(FloatPerformance(-1.0).effective_mhz(2_401).is_none());
    assert!(FloatPerformance(f64::NAN).effective_mhz(2_401).is_none());
    assert_eq!(HundredthPercent(17_777).effective_mhz(2_401).unwrap(), 4_268);

    let expected = [id(0, 0)];
    let nominal = [PdhArrayValue {
        instance: "0,0".into(),
        value: 2_401,
    }];
    for value in [-1.0, f64::NAN] {
        let performance = [PdhArrayValue {
            instance: "0,0".into(),
            value: FloatPerformance(value),
        }];
        assert!(validate_frequencies(&nominal, &performance, &expected).is_err());
    }
}

#[test]
fn architecture_mapping_keeps_unknown_values_explicit() {
    assert_eq!(
        CpuArchitecture::from_windows(PROCESSOR_ARCHITECTURE_AMD64),
        CpuArchitecture::X64
    );
    assert_eq!(
        CpuArchitecture::from_windows(1234),
        CpuArchitecture::Unknown(1234)
    );
}

#[test]
fn wmi_unsigned_integer_mapping_matches_automation_contract() {
    assert_eq!(wmi_i4_to_u16(0).unwrap(), 0);
    assert_eq!(wmi_i4_to_u16(i32::from(u16::MAX)).unwrap(), u16::MAX);
    assert!(wmi_i4_to_u16(-1).is_err());
    assert!(wmi_i4_to_u16(i32::from(u16::MAX) + 1).is_err());

    assert_eq!(wmi_i4_to_u32(0), 0);
    assert_eq!(wmi_i4_to_u32(i32::MAX), i32::MAX as u32);
    assert_eq!(wmi_i4_to_u32(i32::MIN), 0x8000_0000);
    assert_eq!(wmi_i4_to_u32(-1), u32::MAX);
}

#[test]
fn relation_all_accepts_complete_group_aware_records() {
    let topology = parse_relation_all(&valid_relation_all(), &topology_key()).unwrap();
    assert_eq!(topology.package_count, 1);
    assert_eq!(topology.numa_node_count, 1);
    assert_eq!(topology.group_count, 1);
    assert_eq!(topology.caches.len(), 1);
    assert_eq!(topology.caches[0].instance_count, 1);
    assert_eq!(topology.caches[0].total_bytes, 1_048_576);
}

#[test]
fn relation_all_rejects_truncation_and_invalid_record_sizes() {
    let mut truncated = valid_relation_all();
    truncated.pop();
    assert!(parse_relation_all(&truncated, &topology_key()).is_err());

    let mut invalid_size = valid_relation_all();
    invalid_size[4..8].copy_from_slice(&4u32.to_ne_bytes());
    assert!(parse_relation_all(&invalid_size, &topology_key()).is_err());
}

#[test]
fn relation_all_rejects_duplicate_missing_and_out_of_range_members() {
    let mut duplicate = valid_relation_all();
    duplicate.extend(processor_record(RelationProcessorCore, 0b11));
    assert!(parse_relation_all(&duplicate, &topology_key()).is_err());

    let missing = [
        processor_record(RelationProcessorCore, 0b11),
        processor_record(RelationProcessorPackage, 0b01),
        numa_record(0b11),
        group_record(0b11),
    ]
    .concat();
    assert!(parse_relation_all(&missing, &topology_key()).is_err());

    let out_of_range = [
        processor_record(RelationProcessorCore, 0b111),
        processor_record(RelationProcessorPackage, 0b11),
        numa_record(0b11),
        group_record(0b11),
    ]
    .concat();
    assert!(parse_relation_all(&out_of_range, &topology_key()).is_err());
}

#[test]
fn malformed_processor_instance_names_its_context() {
    assert_eq!(
        wmi_i4_to_u16(-1).err(),
        wmi_i4_to_u16(i32::from(u16::MAX) + 1).err()
    );
    assert!(matches!(
        parse_processor_instance("31"),
        Err(CpuDetailError::InvalidData { .. })
    ));
}

#[test]
fn relation_all_reads_records_in_any_order() {
    let records = [
        processor_record(RelationProcessorCore, 0b01),
        processor_record(RelationProcessorCore, 0b10),
        processor_record(RelationProcessorPackage, 0b11),
        numa_record(0b11),
        group_record(0b11),
        cache_record(0b11),
    ];
    let forth: Vec<u8> = records.iter().flatten().copied().collect();
    let back: Vec<u8> = records.iter().rev().flatten().copied().collect();
    let topology = parse_relation_all(&forth, &topology_key()).unwrap();
    assert_eq!(parse_relation_all(&back, &topology_key()), Ok(topology));
}
