//! The adapters of the machine, in the order in which the system lists them.
use std::sync::Arc;

use vstd::prelude::*;

use super::counters::{contains_luid, TemperatureReading};
use super::model::{AdapterLuid, GpuAdapterId, GpuAdapterInfo, GpuSampleError};
use crate::pdh::first_zero;
use crate::seqs::lemma_push_contains;
use crate::text::copy_of;
use crate::utf16::{decode, decoded, encode, encoded};

verus! {

pub const MAX_PNP_KEY_CHARS: u32 = 32_768;

pub const INSTALLED_MEMORY_VALUE_NAME: &'static str = "HardwareInformation.qwMemorySize";

pub const ADAPTER_FLAG_REMOTE: u32 = 1;

pub const ADAPTER_FLAG_SOFTWARE: u32 = 2;

pub const QUERYREGISTRY_STATUS_SUCCESS: i32 = 0;

pub const QUERYREGISTRY_STATUS_BUFFER_OVERFLOW: i32 = 1;

pub const QUERYREGISTRY_STATUS_FAIL: i32 = 2;

pub const STATUS_BUFFER_OVERFLOW: i32 = -2147483643;

pub const STATUS_BUFFER_TOO_SMALL: i32 = -1073741789;

/// The system has to name a number of physical adapters.
pub fn validated_physical_adapter_count(count: u32) -> (outcome: Result<u32, GpuSampleError>)
    ensures
        outcome == if count == 0 {
            Err::<u32, GpuSampleError>(
                GpuSampleError::InvalidData { context: "D3DKMT physical adapter count" },
            )
        } else {
            Ok(count)
        },
{
    if count == 0 {
        Err(GpuSampleError::InvalidData { context: "D3DKMT physical adapter count" })
    } else {
        Ok(count)
    }
}

/// Where a text with room to spare ends: at the first zero, or where there is none at its end.
pub open spec fn text_length(units: Seq<u16>) -> int {
    match first_zero(units) {
        Some(length) => length,
        None => units.len() as int,
    }
}

pub(crate) fn find_end(units: &[u16]) -> (found: Option<usize>)
    ensures
        match found {
            Some(length) => first_zero(units@) == Some(length as int) && length < units@.len(),
            None => first_zero(units@) is None,
        },
{
    assert(units@.skip(0) =~= units@);
    for index in 0..units.len()
        invariant
            match first_zero(units@) {
                Some(at) => first_zero(units@.skip(index as int)) == Some(at - index),
                None => first_zero(units@.skip(index as int)) is None,
            },
    {
        assert(units@.skip(index as int)[0] == units@[index as int]);
        assert(units@.skip(index as int).drop_first() =~= units@.skip(index + 1));
        if units[index] == 0 {
            return Some(index);
        }
    }
    assert(units@.skip(units@.len() as int) =~= Seq::<u16>::empty());
    None
}

/// Decodes a text with room to spare.
pub fn decode_fixed_wide(value: &[u16]) -> (outcome: Result<String, GpuSampleError>)
    ensures
        match decoded(value@.take(text_length(value@))) {
            Some(text) => outcome matches Ok(found) && found@ == text,
            None => outcome == Err::<String, GpuSampleError>(
                GpuSampleError::InvalidData { context: "DXGI adapter description encoding" },
            ),
        },
{
    let length: usize = match find_end(value) {
        Some(length) => length,
        None => value.len(),
    };
    let units = vstd::slice::slice_subrange(value, 0, length);
    assert(units@ =~= value@.take(length as int));
    match decode(units) {
        Some(text) => Ok(text),
        None => Err(GpuSampleError::InvalidData { context: "DXGI adapter description encoding" }),
    }
}

/// How the system describes an adapter.
pub struct AdapterDescription {
    pub luid: AdapterLuid,
    pub flags: u32,
    pub description: Vec<u16>,
    pub vendor_id: u32,
    pub device_id: u32,
    pub subsystem_id: u32,
    pub revision: u32,
    pub dedicated_video_memory: u64,
    pub shared_system_memory: u64,
}

/// What is known of one physical adapter out of `physical_count`. The limits of a logical
/// adapter are those of a physical one only if it has no other.
pub open spec fn is_info(
    info: GpuAdapterInfo,
    description: AdapterDescription,
    enumeration_index: u32,
    name: Seq<char>,
    physical_index: int,
    physical_count: u32,
) -> bool {
    &&& info.id.luid == description.luid
    &&& info.id.physical_index == physical_index
    &&& info.enumeration_index == enumeration_index
    &&& info.name@ == name
    &&& info.vendor_id == description.vendor_id
    &&& info.device_id == description.device_id
    &&& info.subsystem_id == description.subsystem_id
    &&& info.revision == description.revision
    &&& info.dedicated_limit_bytes == if physical_count == 1 {
        Some(description.dedicated_video_memory)
    } else {
        None
    }
    &&& info.shared_limit_bytes == if physical_count == 1 {
        Some(description.shared_system_memory)
    } else {
        None
    }
}

/// Whether one adapter stands before another in the list of the system.
pub open spec fn listed_before(first: GpuAdapterInfo, second: GpuAdapterInfo) -> bool {
    first.enumeration_index < second.enumeration_index || first.enumeration_index
        == second.enumeration_index && first.id.physical_index < second.id.physical_index
}

/// An adapter that counts: neither a program nor remote.
pub open spec fn is_hardware(flags: u32) -> bool {
    flags & (ADAPTER_FLAG_SOFTWARE | ADAPTER_FLAG_REMOTE) == 0
}

/// The adapters while the system lists them.
pub struct Inventory {
    pub enumeration_index: u32,
    pub infos: Vec<Arc<GpuAdapterInfo>>,
    pub known_luids: Vec<AdapterLuid>,
    /// The adapters that are open.
    pub logical_adapters: Vec<AdapterLuid>,
}

impl Inventory {
    /// Every adapter belongs to one that the system listed before, each logical one was listed
    /// once, and they stand in the order of the list.
    pub open spec fn well_formed(&self) -> bool {
        &&& forall|i: int, j: int|
            0 <= i < j < self.infos@.len() ==> listed_before(
                *#[trigger] self.infos@[i],
                *#[trigger] self.infos@[j],
            )
        &&& forall|i: int|
            0 <= i < self.infos@.len() ==> (#[trigger] self.infos@[i]).enumeration_index
                < self.enumeration_index && self.logical_adapters@.contains(
                self.infos@[i].id.luid,
            ) && self.known_luids@.contains(self.infos@[i].id.luid)
        &&& forall|i: int, j: int|
            0 <= i < j < self.infos@.len() ==> (#[trigger] self.infos@[i]).id != (
            #[trigger] self.infos@[j]).id
    }

    pub fn new() -> (inventory: Self)
        ensures
            inventory.well_formed(),
            inventory.enumeration_index == 0,
            inventory.infos@.len() == 0,
            inventory.known_luids@.len() == 0,
            inventory.logical_adapters@.len() == 0,
    {
        Inventory {
            enumeration_index: 0,
            infos: Vec::new(),
            known_luids: Vec::new(),
            logical_adapters: Vec::new(),
        }
    }

    /// Takes the next adapter of the list, whose place in it is returned.
    pub fn next_adapter(&mut self) -> (outcome: Result<u32, GpuSampleError>)
        requires
            old(self).well_formed(),
        ensures
            final(self).well_formed(),
            if old(self).enumeration_index == u32::MAX {
                outcome == Err::<u32, GpuSampleError>(
                    GpuSampleError::InvalidData { context: "DXGI adapter enumeration index" },
                ) && *final(self) == *old(self)
            } else {
                outcome == Ok::<u32, GpuSampleError>(old(self).enumeration_index) && *final(self)
                    == (Inventory {
                    enumeration_index: (old(self).enumeration_index + 1) as u32,
                    ..*old(self)
                })
            },
    {
        let index: u32 = self.enumeration_index;
        if index == u32::MAX {
            return Err(GpuSampleError::InvalidData { context: "DXGI adapter enumeration index" });
        }
        self.enumeration_index = index + 1;
        Ok(index)
    }

    /// Notes an adapter, and tells whether it is hardware that is to be opened.
    pub fn note_adapter(&mut self, luid: AdapterLuid, flags: u32) -> (outcome: Result<
        bool,
        GpuSampleError,
    >)
        requires
            old(self).well_formed(),
        ensures
            final(self).well_formed(),
            final(self).enumeration_index == old(self).enumeration_index,
            final(self).infos == old(self).infos,
            final(self).logical_adapters == old(self).logical_adapters,
            if old(self).known_luids@.contains(luid) {
                outcome == Err::<bool, GpuSampleError>(
                    GpuSampleError::InvalidData { context: "duplicate DXGI adapter LUID" },
                ) && final(self).known_luids == old(self).known_luids
            } else {
                outcome == Ok::<bool, GpuSampleError>(is_hardware(flags))
                    && final(self).known_luids@ == old(self).known_luids@.push(luid)
            },
    {
        if contains_luid(self.known_luids.as_slice(), luid) {
            return Err(GpuSampleError::InvalidData { context: "duplicate DXGI adapter LUID" });
        }
        proof {
            lemma_push_contains(self.known_luids@, luid);
        }
        self.known_luids.push(luid);
        Ok(flags & (ADAPTER_FLAG_SOFTWARE | ADAPTER_FLAG_REMOTE) == 0)
    }

    /// Adds the physical adapters of a logical one. `enumeration_index` is its place in the list.
    pub fn add_hardware(
        &mut self,
        description: &AdapterDescription,
        enumeration_index: u32,
        name: &str,
        physical_count: u32,
    ) -> (outcome: Result<(), GpuSampleError>)
        requires
            old(self).well_formed(),
            enumeration_index < old(self).enumeration_index,
            old(self).known_luids@.contains(description.luid),
            forall|i: int|
                0 <= i < old(self).infos@.len() ==> (
                #[trigger] old(self).infos@[i]).enumeration_index < enumeration_index && old(
                    self,
                ).infos@[i].id.luid != description.luid,
        ensures
            final(self).well_formed(),
            final(self).enumeration_index == old(self).enumeration_index,
            final(self).known_luids == old(self).known_luids,
            if physical_count == 0 {
                &&& outcome == Err::<(), GpuSampleError>(
                    GpuSampleError::InvalidData { context: "D3DKMT physical adapter count" },
                )
                &&& *final(self) == *old(self)
            } else {
                &&& outcome is Ok
                &&& final(self).logical_adapters@ == old(self).logical_adapters@.push(
                    description.luid,
                )
                &&& final(self).infos@.len() == old(self).infos@.len() + physical_count
                &&& final(self).infos@.take(old(self).infos@.len() as int) == old(self).infos@
                &&& forall|i: int|
                    0 <= i < physical_count ==> is_info(
                        *#[trigger] final(self).infos@[old(self).infos@.len() + i],
                        *description,
                        enumeration_index,
                        name@,
                        i,
                        physical_count,
                    )
            },
    {
        let physical_count: u32 = match validated_physical_adapter_count(physical_count) {
            Ok(count) => count,
            Err(error) => return Err(error),
        };
        let ghost before = *self;
        let ghost start = self.infos@.len();
        self.logical_adapters.push(description.luid);
        proof {
            lemma_push_contains(before.logical_adapters@, description.luid);
            assert(self.infos@.take(start as int) =~= before.infos@);
        }
        for physical_index in 0..physical_count
            invariant
                start == before.infos@.len(),
                before.well_formed(),
                enumeration_index < before.enumeration_index,
                before.known_luids@.contains(description.luid),
                forall|i: int|
                    0 <= i < before.infos@.len() ==> (
                    #[trigger] before.infos@[i]).enumeration_index < enumeration_index
                        && before.infos@[i].id.luid != description.luid,
                self.enumeration_index == before.enumeration_index,
                self.known_luids == before.known_luids,
                self.logical_adapters@ == before.logical_adapters@.push(description.luid),
                forall|luid: AdapterLuid| #[trigger]
                    self.logical_adapters@.contains(luid) <==> before.logical_adapters@.contains(
                        luid,
                    ) || luid == description.luid,
                self.infos@.len() == start + physical_index,
                self.infos@.take(start as int) == before.infos@,
                forall|i: int|
                    0 <= i < physical_index ==> is_info(
                        *#[trigger] self.infos@[start + i],
                        *description,
                        enumeration_index,
                        name@,
                        i,
                        physical_count,
                    ),
        {
            let single = physical_count == 1;
            let info = GpuAdapterInfo {
                id: GpuAdapterId { luid: description.luid, physical_index },
                enumeration_index,
                name: copy_of(name),
                vendor_id: description.vendor_id,
                device_id: description.device_id,
                subsystem_id: description.subsystem_id,
                revision: description.revision,
                dedicated_limit_bytes: if single {
                    Some(description.dedicated_video_memory)
                } else {
                    None
                },
                shared_limit_bytes: if single {
                    Some(description.shared_system_memory)
                } else {
                    None
                },
            };
            let ghost listed = self.infos@;
            self.infos.push(Arc::new(info));
            proof {
                assert(self.infos@.take(start as int) =~= listed.take(start as int));
            }
        }
        proof {
            let after = *self;
            assert forall|i: int| 0 <= i < after.infos@.len() implies (if i < start {
                *(#[trigger] after.infos@[i]) == *before.infos@[i]
            } else {
                is_info(
                    *after.infos@[i],
                    *description,
                    enumeration_index,
                    name@,
                    i - start,
                    physical_count,
                )
            }) by {
                if i < start {
                    assert(after.infos@.take(start as int)[i] == after.infos@[i]);
                } else {
                    assert(after.infos@[start + (i - start)] == after.infos@[i]);
                }
            }
        }
        Ok(())
    }
}

/// No adapter is listed twice, and the adapters stand in the order in which the system lists
/// them, those of one logical adapter by their number.
pub proof fn inventory_follows_the_list(inventory: Inventory, i: int, j: int)
    requires
        inventory.well_formed(),
        0 <= i < j < inventory.infos@.len(),
    ensures
        inventory.infos@[i].id != inventory.infos@[j].id,
        listed_before(*inventory.infos@[i], *inventory.infos@[j]),
{
}

/// Checks an adapter that was opened.
pub fn check_opened_adapter(status: i32, handle: u32) -> (outcome: Result<u32, GpuSampleError>)
    ensures
        outcome == if status < 0 {
            Err::<u32, GpuSampleError>(
                GpuSampleError::NtStatus { context: "D3DKMTOpenAdapterFromLuid", status },
            )
        } else if handle == 0 {
            Err(GpuSampleError::InvalidData { context: "D3DKMTOpenAdapterFromLuid output" })
        } else {
            Ok(handle)
        },
{
    if status < 0 {
        return Err(GpuSampleError::NtStatus { context: "D3DKMTOpenAdapterFromLuid", status });
    }
    if handle == 0 {
        return Err(GpuSampleError::InvalidData { context: "D3DKMTOpenAdapterFromLuid output" });
    }
    Ok(handle)
}

/// Checks the status of a question to an adapter.
pub fn check_query(status: i32, context: &'static str) -> (outcome: Result<(), GpuSampleError>)
    ensures
        outcome == if status < 0 {
            Err::<(), GpuSampleError>(GpuSampleError::NtStatus { context, status })
        } else {
            Ok(())
        },
{
    if status < 0 {
        Err(GpuSampleError::NtStatus { context, status })
    } else {
        Ok(())
    }
}

/// The temperatures of the adapters. `answers` holds what each of them said; one that is not open
/// has nothing to say.
pub fn query_temperatures(
    infos: &Vec<Arc<GpuAdapterInfo>>,
    logical_adapters: &Vec<AdapterLuid>,
    answers: &Vec<Result<u32, GpuSampleError>>,
) -> (readings: Vec<TemperatureReading>)
    requires
        answers@.len() == infos@.len(),
    ensures
        readings@.len() == infos@.len(),
        forall|i: int|
            0 <= i < readings@.len() ==> #[trigger] readings@[i] == (TemperatureReading {
                id: infos@[i].id,
                result: if !logical_adapters@.contains(infos@[i].id.luid) {
                    Err(
                        GpuSampleError::InvalidData {
                            context: "missing D3DKMT adapter for GPU temperature",
                        },
                    )
                } else {
                    match answers@[i] {
                        Ok(value) => Ok(Some(value)),
                        Err(error) => Err(error),
                    }
                },
            }),
{
    let mut readings: Vec<TemperatureReading> = Vec::new();
    for index in 0..infos.len()
        invariant
            answers@.len() == infos@.len(),
            readings@.len() == index,
            forall|i: int|
                0 <= i < index ==> #[trigger] readings@[i] == (TemperatureReading {
                    id: infos@[i].id,
                    result: if !logical_adapters@.contains(infos@[i].id.luid) {
                        Err(
                            GpuSampleError::InvalidData {
                                context: "missing D3DKMT adapter for GPU temperature",
                            },
                        )
                    } else {
                        match answers@[i] {
                            Ok(value) => Ok(Some(value)),
                            Err(error) => Err(error),
                        }
                    },
                }),
    {
        let id = infos[index].id;
        let result = if !contains_luid(logical_adapters.as_slice(), id.luid) {
            Err(
                GpuSampleError::InvalidData {
                    context: "missing D3DKMT adapter for GPU temperature",
                },
            )
        } else {
            match answers[index] {
                Ok(value) => Ok(Some(value)),
                Err(error) => Err(error),
            }
        };
        readings.push(TemperatureReading { id, result });
    }
    readings
}

/// The installed memory is an eight-byte number other than zero.
pub fn validate_installed_memory_registry_value(output_size: u32, value: u64) -> (outcome: Result<
    u64,
    GpuSampleError,
>)
    ensures
        outcome == if output_size != 8 || value == 0 {
            Err::<u64, GpuSampleError>(
                GpuSampleError::InvalidData { context: "installed GPU memory registry value" },
            )
        } else {
            Ok(value)
        },
{
    if output_size != 8 || value == 0 {
        return Err(GpuSampleError::InvalidData { context: "installed GPU memory registry value" });
    }
    Ok(value)
}

/// The installed memory of an adapter, as its registry key tells it; it may not.
pub fn installed_adapter_memory(
    query_status: i32,
    registry_status: i32,
    output_size: u32,
    value: u64,
) -> (outcome: Result<Option<u64>, GpuSampleError>)
    ensures
        outcome == if query_status < 0 {
            Err::<Option<u64>, GpuSampleError>(
                GpuSampleError::NtStatus {
                    context: "D3DKMT installed GPU memory registry query",
                    status: query_status,
                },
            )
        } else if registry_status == QUERYREGISTRY_STATUS_SUCCESS {
            if output_size != 8 || value == 0 {
                Err(GpuSampleError::InvalidData { context: "installed GPU memory registry value" })
            } else {
                Ok(Some(value))
            }
        } else if registry_status == QUERYREGISTRY_STATUS_FAIL {
            Ok(None)
        } else if registry_status == QUERYREGISTRY_STATUS_BUFFER_OVERFLOW {
            Err(
                GpuSampleError::InvalidData {
                    context: "installed GPU memory registry output overflow",
                },
            )
        } else {
            Err(GpuSampleError::InvalidData { context: "installed GPU memory registry status" })
        },
{
    if let Err(error) = check_query(query_status, "D3DKMT installed GPU memory registry query") {
        return Err(error);
    }
    if registry_status == QUERYREGISTRY_STATUS_SUCCESS {
        match validate_installed_memory_registry_value(output_size, value) {
            Ok(value) => Ok(Some(value)),
            Err(error) => Err(error),
        }
    } else if registry_status == QUERYREGISTRY_STATUS_FAIL {
        Ok(None)
    } else if registry_status == QUERYREGISTRY_STATUS_BUFFER_OVERFLOW {
        Err(
            GpuSampleError::InvalidData {
                context: "installed GPU memory registry output overflow",
            },
        )
    } else {
        Err(GpuSampleError::InvalidData { context: "installed GPU memory registry status" })
    }
}

/// Checks the answer to the question for the length of a device key.
pub fn pnp_key_length(status: i32, char_count: u32) -> (outcome: Result<u32, GpuSampleError>)
    ensures
        outcome == if status != STATUS_BUFFER_TOO_SMALL && status != STATUS_BUFFER_OVERFLOW
            && status < 0 {
            Err::<u32, GpuSampleError>(
                GpuSampleError::NtStatus {
                    context: "D3DKMT physical adapter PnP key size",
                    status,
                },
            )
        } else if char_count == 0 || char_count > MAX_PNP_KEY_CHARS {
            Err(GpuSampleError::InvalidData { context: "D3DKMT physical adapter PnP key size" })
        } else {
            Ok(char_count)
        },
{
    if status != STATUS_BUFFER_TOO_SMALL && status != STATUS_BUFFER_OVERFLOW && status < 0 {
        return Err(
            GpuSampleError::NtStatus { context: "D3DKMT physical adapter PnP key size", status },
        );
    }
    if char_count == 0 || char_count > MAX_PNP_KEY_CHARS {
        return Err(GpuSampleError::InvalidData { context: "D3DKMT physical adapter PnP key size" });
    }
    Ok(char_count)
}

/// The device key that the system wrote into a buffer.
pub open spec fn pnp_key(status: i32, actual_count: u32, buffer: Seq<u16>) -> Result<
    Seq<char>,
    GpuSampleError,
> {
    if status < 0 {
        Err(GpuSampleError::NtStatus { context: "D3DKMT physical adapter PnP key", status })
    } else if actual_count == 0 || actual_count > buffer.len() {
        Err(GpuSampleError::InvalidData { context: "D3DKMT physical adapter PnP key result" })
    } else {
        let units = buffer.take(actual_count as int);
        match first_zero(units) {
            None => Err(
                GpuSampleError::InvalidData {
                    context: "D3DKMT physical adapter PnP key terminator",
                },
            ),
            Some(length) => match decoded(units.take(length)) {
                Some(text) => Ok(text),
                None => Err(
                    GpuSampleError::InvalidData {
                        context: "D3DKMT physical adapter PnP key encoding",
                    },
                ),
            },
        }
    }
}

pub fn pnp_hardware_key(status: i32, actual_count: u32, buffer: &Vec<u16>) -> (outcome: Result<
    String,
    GpuSampleError,
>)
    ensures
        match pnp_key(status, actual_count, buffer@) {
            Ok(text) => outcome matches Ok(found) && found@ == text,
            Err(error) => outcome == Err::<String, GpuSampleError>(error),
        },
{
    if status < 0 {
        return Err(
            GpuSampleError::NtStatus { context: "D3DKMT physical adapter PnP key", status },
        );
    }
    if actual_count == 0 || actual_count as usize > buffer.len() {
        return Err(
            GpuSampleError::InvalidData { context: "D3DKMT physical adapter PnP key result" },
        );
    }
    let units = vstd::slice::slice_subrange(buffer.as_slice(), 0, actual_count as usize);
    assert(units@ =~= buffer@.take(actual_count as int));
    let length: usize = match find_end(units) {
        Some(length) => length,
        None => return Err(
            GpuSampleError::InvalidData { context: "D3DKMT physical adapter PnP key terminator" },
        ),
    };
    let text = vstd::slice::slice_subrange(units, 0, length);
    assert(text@ =~= units@.take(length as int));
    match decode(text) {
        Some(text) => Ok(text),
        None => Err(
            GpuSampleError::InvalidData { context: "D3DKMT physical adapter PnP key encoding" },
        ),
    }
}

/// A name in a field of fixed size: all of it, and zeros to the end, at least one.
pub fn fixed_wide_value_name<const N: usize>(value: &str) -> (outcome: Result<
    [u16; N],
    GpuSampleError,
>)
    ensures
        ({
            let units = encoded(value@);
            if units.len() == 0 || units.len() < N {
                &&& outcome matches Ok(field)
                &&& field@.len() == N
                &&& forall|i: int|
                    0 <= i < N ==> #[trigger] field@[i] == if i < units.len() {
                        units[i]
                    } else {
                        0
                    }
            } else {
                outcome == Err::<[u16; N], GpuSampleError>(
                    GpuSampleError::InvalidData { context: "GPU registry value name length" },
                )
            }
        }),
{
    let units = encode(value);
    let mut field = [0u16;N];
    for index in 0..units.len()
        invariant
            field@.len() == N,
            index < N || index == 0,
            units@ == encoded(value@),
            forall|i: int|
                0 <= i < N ==> #[trigger] field@[i] == if i < index {
                    units@[i]
                } else {
                    0
                },
    {
        if index >= N.saturating_sub(1) {
            return Err(GpuSampleError::InvalidData { context: "GPU registry value name length" });
        }
        field[index] = units[index];
    }
    Ok(field)
}

} // verus!
