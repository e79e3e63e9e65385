use std::sync::Arc;

use taskmgr::gpu::inventory::{
    check_opened_adapter, decode_fixed_wide, fixed_wide_value_name, installed_adapter_memory,
    pnp_hardware_key, pnp_key_length, query_temperatures, validate_installed_memory_registry_value,
    validated_physical_adapter_count, AdapterDescription, Inventory, ADAPTER_FLAG_REMOTE,
    ADAPTER_FLAG_SOFTWARE, INSTALLED_MEMORY_VALUE_NAME, STATUS_BUFFER_OVERFLOW,
    STATUS_BUFFER_TOO_SMALL,
};
use taskmgr::gpu::metadata::{
    adapter_metadata, date_text, device_instance_id_from_pnp_key, directx_result, driver_details,
    feature_level_name, filetime_property, property_bytes, property_size, query_feature_level,
    string_property, validated_hardware_reserved_memory, AdapterAnswers, AdapterMatch,
    AdapterReply, DeviceProperty, GpuMetadataCollector, MetadataPlan, DEVPROP_TYPE_FILETIME,
    DEVPROP_TYPE_STRING,
};
use taskmgr::gpu::model::{
    AdapterLuid, GpuAdapterId, GpuAdapterInfo, GpuDriverDetails, GpuMetadataRequest,
    GpuSampleError,
};

fn adapter_info(id: GpuAdapterId) -> Arc<GpuAdapterInfo> {
    Arc::new(GpuAdapterInfo {
        id,
        enumeration_index: 0,
        name: "Test GPU".to_string(),
        vendor_id: 1,
        device_id: 2,
        subsystem_id: 3,
        revision: 4,
        dedicated_limit_bytes: Some(8 * 1024 * 1024 * 1024),
        shared_limit_bytes: Some(4 * 1024 * 1024 * 1024),
    })
}

fn invalid<T>(context: &'static str) -> Result<T, GpuSampleError> {
    Err(GpuSampleError::InvalidData { context })
}

#[test]
fn inventory_order_can_preserve_dxgi_enumeration_order() {
    let make_info = |low_part: u32, enumeration_index: u32| {
        let id = GpuAdapterId {
            luid: AdapterLuid::from_parts(0, low_part),
            physical_index: 0,
        };
        let mut info = (*adapter_info(id)).clone();
        info.enumeration_index = enumeration_index;
        Arc::new(info)
    };
    let mut infos = [make_info(1, 2), make_info(2, 0), make_info(3, 1)];
    infos.sort_by_key(|info| (info.enumeration_index, info.id.physical_index));
    assert_eq!(
        infos
            .iter()
            .map(|info| info.id.luid.low_part)
            .collect::<Vec<_>>(),
        vec![2, 3, 1]
    );
}

fn description(low_part: u32, flags: u32) -> AdapterDescription {
    AdapterDescription {
        luid: AdapterLuid::from_parts(0, low_part),
        flags,
        description: "Card\0junk".encode_utf16().collect(),
        vendor_id: 10,
        device_id: 20,
        subsystem_id: 30,
        revision: 40,
        dedicated_video_memory: 1000,
        shared_system_memory: 2000,
    }
}

#[test]
fn inventory_lists_hardware_in_the_order_of_the_system() {
    let mut inventory = Inventory::new();
    let mut place = Vec::new();
    for (low_part, flags, count) in [
        (7, 0, 2),
        (8, ADAPTER_FLAG_SOFTWARE, 1),
        (9, ADAPTER_FLAG_REMOTE, 1),
        (4, 0, 1),
    ] {
        let described = description(low_part, flags);
        let index = inventory.next_adapter().unwrap();
        if inventory.note_adapter(described.luid, flags).unwrap() {
            let name = decode_fixed_wide(&described.description).unwrap();
            assert_eq!(name, "Card");
            inventory
                .add_hardware(&described, index, &name, count)
                .unwrap();
            place.push(index);
        }
    }
    assert_eq!(place, vec![0, 3]);
    let listed: Vec<_> = inventory
        .infos
        .iter()
        .map(|info| {
            (
                info.enumeration_index,
                info.id.luid.low_part,
                info.id.physical_index,
            )
        })
        .collect();
    assert_eq!(listed, vec![(0, 7, 0), (0, 7, 1), (3, 4, 0)]);
    assert_eq!(inventory.infos[0].dedicated_limit_bytes, None);
    assert_eq!(inventory.infos[2].dedicated_limit_bytes, Some(1000));
    assert_eq!(inventory.infos[2].shared_limit_bytes, Some(2000));
    assert_eq!(
        inventory.note_adapter(AdapterLuid::from_parts(0, 8), 0),
        invalid("duplicate DXGI adapter LUID")
    );
    assert_eq!(
        inventory.add_hardware(&description(5, 0), 3, "Card", 0),
        invalid("D3DKMT physical adapter count")
    );
    inventory.enumeration_index = u32::MAX;
    assert_eq!(
        inventory.next_adapter(),
        invalid("DXGI adapter enumeration index")
    );
}

#[test]
fn temperatures_come_from_open_adapters_only() {
    let first = GpuAdapterId {
        luid: AdapterLuid::from_parts(0, 1),
        physical_index: 0,
    };
    let second = GpuAdapterId {
        luid: AdapterLuid::from_parts(0, 2),
        physical_index: 0,
    };
    let readings = query_temperatures(
        &vec![adapter_info(first), adapter_info(second)],
        &vec![first.luid],
        &vec![Ok(420), Ok(430)],
    );
    assert_eq!(readings[0].result, Ok(Some(420)));
    assert_eq!(
        readings[1].result,
        invalid("missing D3DKMT adapter for GPU temperature")
    );
}

#[test]
fn physical_adapter_count_is_never_guessed() {
    assert_eq!(validated_physical_adapter_count(2), Ok(2));
    assert_eq!(
        validated_physical_adapter_count(0),
        Err(GpuSampleError::InvalidData {
            context: "D3DKMT physical adapter count"
        })
    );
}

#[test]
fn installed_memory_registry_value_requires_an_exact_qword() {
    assert_eq!(
        validate_installed_memory_registry_value(8, 8 * 1024 * 1024 * 1024),
        Ok(8 * 1024 * 1024 * 1024)
    );
    assert!(validate_installed_memory_registry_value(4, u32::MAX as u64).is_err());
    assert!(validate_installed_memory_registry_value(8, 0).is_err());
}

#[test]
fn installed_memory_may_be_unknown() {
    assert_eq!(installed_adapter_memory(0, 0, 8, 77), Ok(Some(77)));
    assert_eq!(installed_adapter_memory(0, 2, 0, 0), Ok(None));
    assert_eq!(
        installed_adapter_memory(0, 1, 8, 77),
        invalid("installed GPU memory registry output overflow")
    );
    assert_eq!(
        installed_adapter_memory(0, 3, 8, 77),
        invalid("installed GPU memory registry status")
    );
    assert_eq!(
        installed_adapter_memory(-5, 0, 8, 77),
        Err(GpuSampleError::NtStatus {
            context: "D3DKMT installed GPU memory registry query",
            status: -5
        })
    );
    assert_eq!(
        check_opened_adapter(0, 0),
        invalid("D3DKMTOpenAdapterFromLuid output")
    );
    assert_eq!(check_opened_adapter(0, 3), Ok(3));
}

#[test]
fn device_key_has_to_be_terminated() {
    assert_eq!(pnp_key_length(STATUS_BUFFER_TOO_SMALL, 12), Ok(12));
    assert_eq!(pnp_key_length(STATUS_BUFFER_OVERFLOW, 12), Ok(12));
    assert!(pnp_key_length(-1, 12).is_err());
    assert!(pnp_key_length(0, 0).is_err());
    assert!(pnp_key_length(0, 32 * 1024 + 1).is_err());
    let key: Vec<u16> = "PCI\0x".encode_utf16().collect();
    assert_eq!(pnp_hardware_key(0, 5, &key), Ok("PCI".to_string()));
    assert_eq!(
        pnp_hardware_key(0, 3, &key),
        invalid("D3DKMT physical adapter PnP key terminator")
    );
    assert_eq!(
        pnp_hardware_key(0, 6, &key),
        invalid("D3DKMT physical adapter PnP key result")
    );
    assert_eq!(
        pnp_hardware_key(0, 2, &vec![0xD800, 0]),
        invalid("D3DKMT physical adapter PnP key encoding")
    );
}

#[test]
fn hardware_reserved_memory_is_a_checked_difference() {
    let gib = 1024 * 1024 * 1024;
    assert_eq!(
        validated_hardware_reserved_memory(Some(8 * gib), Some(7 * gib)),
        Ok(Some(gib))
    );
    assert_eq!(
        validated_hardware_reserved_memory(None, Some(7 * gib)),
        Ok(None)
    );
    assert_eq!(
        validated_hardware_reserved_memory(Some(8 * gib), None),
        Ok(None)
    );
    assert!(validated_hardware_reserved_memory(Some(7 * gib), Some(8 * gib)).is_err());
}

#[test]
fn registry_value_name_is_nul_terminated_without_truncation() {
    let value = fixed_wide_value_name::<260>(INSTALLED_MEMORY_VALUE_NAME).unwrap();
    let expected = INSTALLED_MEMORY_VALUE_NAME
        .encode_utf16()
        .collect::<Vec<_>>();
    assert_eq!(&value[..expected.len()], expected.as_slice());
    assert_eq!(value[expected.len()], 0);
    assert!(fixed_wide_value_name::<4>("four").is_err());
}

#[test]
fn extracts_setupapi_instance_id_from_registry_pnp_key() {
    assert_eq!(
        device_instance_id_from_pnp_key(
            r"\Registry\Machine\System\CurrentControlSet\Enum\PCI\VEN_1234&DEV_5678\ABC\Device Parameters"
        )
        .as_deref(),
        Some(r"PCI\VEN_1234&DEV_5678\ABC")
    );
}

#[test]
fn device_keys_with_slashes_or_too_few_parts() {
    assert_eq!(
        device_instance_id_from_pnp_key("x/ENUM//PCI/a//b").as_deref(),
        Some(r"PCI\a\b")
    );
    assert_eq!(device_instance_id_from_pnp_key(r"\Enum\PCI\a"), None);
    assert_eq!(device_instance_id_from_pnp_key(r"PCI\a\b"), None);
}

fn request(generation: u64, count: u32) -> GpuMetadataRequest {
    GpuMetadataRequest {
        generation,
        adapters: (0..count)
            .map(|low_part| {
                adapter_info(GpuAdapterId {
                    luid: AdapterLuid::from_parts(0, low_part / 2),
                    physical_index: low_part % 2,
                })
            })
            .collect(),
    }
}

#[test]
fn metadata_are_collected_once_for_each_generation() {
    let mut collector = GpuMetadataCollector::new();
    assert_eq!(
        collector.plan(&request(0, 1)).err(),
        Some(GpuSampleError::InvalidData {
            context: "GPU metadata generation"
        })
    );
    match collector.plan(&request(3, 3)).unwrap() {
        MetadataPlan::Query(luids) => assert_eq!(
            luids,
            vec![AdapterLuid::from_parts(0, 0), AdapterLuid::from_parts(0, 1)]
        ),
        MetadataPlan::Cached => panic!("nothing was collected yet"),
    }
    let reply = |version: &str| AdapterReply {
        answers: Ok(AdapterAnswers {
            installed_memory: Ok(None),
            driver: Ok((
                GpuDriverDetails {
                    version: Some(version.to_string()),
                    ..GpuDriverDetails::default()
                },
                Vec::new(),
            )),
        }),
        directx: Err(GpuSampleError::InvalidData { context: "level" }),
    };
    assert!(collector.collect(request(0, 1), Vec::new()).is_err());
    let answer = collector
        .collect(request(3, 3), vec![reply("a"), reply("b"), reply("c")])
        .unwrap();
    assert_eq!(answer.generation, 3);
    let ids: Vec<GpuAdapterId> = answer.adapters.iter().map(|adapter| adapter.id).collect();
    let wanted: Vec<GpuAdapterId> = request(3, 3).adapters.iter().map(|info| info.id).collect();
    assert_eq!(ids, wanted);
    assert_eq!(answer.adapters[1].driver.version.as_deref(), Some("b"));
    assert_eq!(
        answer.adapters[2].metadata_errors,
        vec![GpuSampleError::InvalidData { context: "level" }]
    );
    assert_eq!(collector.collect(request(3, 3), Vec::new()), Ok(answer));
    assert!(collector.collect(request(3, 2), Vec::new()).is_err());
    assert!(matches!(
        collector.plan(&request(3, 3)),
        Ok(MetadataPlan::Cached)
    ));
    assert_eq!(
        collector.plan(&request(3, 2)).err(),
        Some(GpuSampleError::InvalidData {
            context: "GPU inventory changed without a new generation"
        })
    );
    let mut twice = request(4, 1);
    twice.adapters.push(Arc::clone(&twice.adapters[0]));
    assert_eq!(
        collector.plan(&twice).err(),
        Some(GpuSampleError::InvalidData {
            context: "duplicate GPU metadata adapter identity"
        })
    );
    collector.snapshot = None;
    assert_eq!(
        collector.plan(&request(3, 3)).err(),
        Some(GpuSampleError::InvalidData {
            context: "GPU metadata cached snapshot"
        })
    );
}

#[test]
fn requested_adapters_have_to_be_found_once() {
    let first = AdapterLuid::from_parts(0, 1);
    let second = AdapterLuid::from_parts(0, 2);
    let mut matching = AdapterMatch::new(vec![first, second]);
    assert_eq!(matching.note(first), Ok(true));
    assert_eq!(matching.note(AdapterLuid::from_parts(0, 3)), Ok(false));
    assert_eq!(
        matching.note(first),
        invalid("duplicate DXGI LUID for GPU metadata")
    );
    assert_eq!(
        matching.finish(),
        invalid("GPU metadata DXGI adapter completeness")
    );
    assert_eq!(matching.note(second), Ok(true));
    assert_eq!(matching.finish(), Ok(()));
}

#[test]
fn failures_stay_with_their_adapter() {
    let info = adapter_info(GpuAdapterId {
        luid: AdapterLuid::from_parts(0, 1),
        physical_index: 0,
    });
    let location = GpuSampleError::InvalidData {
        context: "GPU location property",
    };
    let (driver, errors) = driver_details(
        Ok(Some("1.2".to_string())),
        Ok(None),
        Err(location),
        Ok(None),
    );
    assert_eq!(errors, vec![location]);
    let metadata = adapter_metadata(
        &info,
        Ok(AdapterAnswers {
            installed_memory: Ok(Some(9 * 1024 * 1024 * 1024)),
            driver: Ok((driver, errors)),
        }),
        directx_result(Ok(()), Ok(()), None),
    );
    assert_eq!(metadata.hardware_reserved_bytes, Some(1024 * 1024 * 1024));
    assert_eq!(metadata.driver.version.as_deref(), Some("1.2"));
    assert_eq!(metadata.directx_feature_level, None);
    assert_eq!(
        metadata.metadata_errors,
        vec![
            location,
            GpuSampleError::InvalidData {
                context: "missing DXGI adapter for GPU metadata"
            }
        ]
    );
    let closed = adapter_metadata(
        &info,
        Err(location),
        directx_result(Ok(()), Ok(()), Some(Ok(None))),
    );
    assert_eq!(closed.driver, GpuDriverDetails::default());
    assert_eq!(closed.metadata_errors, vec![location]);
}

#[test]
fn feature_levels_have_names() {
    assert_eq!(feature_level_name(0xC200), Some("12 (FL 12.2)"));
    assert_eq!(feature_level_name(0xB000), Some("12 (FL 11.0)"));
    assert_eq!(feature_level_name(0xA000), None);
    assert_eq!(query_feature_level(-1, false, Ok(0xC200)), Ok(None));
    assert_eq!(
        query_feature_level(0, false, Ok(0xC200)),
        invalid("D3D12CreateDevice output")
    );
    assert_eq!(
        query_feature_level(0, true, Ok(0xC100)),
        Ok(Some("12 (FL 12.1)".to_string()))
    );
}

#[test]
fn device_properties_are_checked() {
    assert_eq!(property_size(false, 1168, 0, "p"), Ok(None));
    assert_eq!(
        property_size(false, 0, 0, "p"),
        Err(GpuSampleError::Win32 {
            context: "p",
            code: 31
        })
    );
    assert_eq!(property_size(false, 122, 6, "p"), Ok(Some(6)));
    assert_eq!(property_size(true, 0, 0, "p"), invalid("p"));
    let text: Vec<u8> = "ab\0".encode_utf16().flat_map(u16::to_le_bytes).collect();
    let property = property_bytes(true, 0, DEVPROP_TYPE_STRING, 6, text.clone(), "p")
        .ok()
        .unwrap();
    assert_eq!(
        string_property(&property, DEVPROP_TYPE_STRING, "p"),
        Ok(Some("ab".to_string()))
    );
    assert_eq!(
        string_property(&property, DEVPROP_TYPE_FILETIME, "p"),
        invalid("p")
    );
    assert_eq!(
        property_bytes(true, 0, DEVPROP_TYPE_STRING, 7, text, "p").err(),
        Some(GpuSampleError::InvalidData { context: "p" })
    );
    let empty = DeviceProperty {
        property_type: DEVPROP_TYPE_STRING,
        bytes: vec![0, 0],
    };
    assert_eq!(string_property(&empty, DEVPROP_TYPE_STRING, "p"), Ok(None));
    let date = DeviceProperty {
        property_type: DEVPROP_TYPE_FILETIME,
        bytes: vec![1, 0, 0, 0, 2, 0, 0, 0],
    };
    assert_eq!(filetime_property(&date, "p"), Ok((1, 2)));
    assert_eq!(date_text(2024, 3, 9), "2024-03-09");
    assert_eq!(date_text(1, 12, 31), "0001-12-31");
}
