//! Features of the processor that the system reports one by one.
use vstd::prelude::*;

use super::model::{CpuArchitecture, CpuFeatureInfo};
use crate::seqs::contains_u32;

verus! {

pub const PF_SECOND_LEVEL_ADDRESS_TRANSLATION: u32 = 20;

pub const PF_VIRT_FIRMWARE_ENABLED: u32 = 21;

/// The instruction set features that are listed, in order: the number under which the system is
/// asked for each, and its name.
pub open spec fn listed_features() -> Seq<(u32, &'static str)> {
    seq![
        (3u32, "MMX"),
        (6u32, "SSE"),
        (10u32, "SSE2"),
        (13u32, "SSE3"),
        (36u32, "SSSE3"),
        (37u32, "SSE4.1"),
        (38u32, "SSE4.2"),
        (39u32, "AVX"),
        (40u32, "AVX2"),
        (41u32, "AVX-512F"),
        (17u32, "XSAVE"),
        (8u32, "RDTSC"),
        (32u32, "RDTSCP"),
        (28u32, "RDRAND"),
        (33u32, "RDPID"),
        (22u32, "FSGSBASE"),
        (42u32, "ERMS"),
        (12u32, "NX"),
        (9u32, "PAE"),
        (7u32, "3DNow!"),
        (19u32, "NEON"),
        (24u32, "ARM Divide"),
        (27u32, "ARM FMAC"),
        (29u32, "ARMv8"),
        (30u32, "ARMv8 Crypto"),
        (31u32, "ARMv8 CRC32"),
        (25u32, "ARM Atomic"),
        (34u32, "ARMv8.1 Atomic"),
        (43u32, "ARMv8.2 Dot Product"),
        (44u32, "ARMv8.3 JSCVT"),
        (45u32, "ARMv8.3 LRCPC"),
    ]
}

/// The numbers under which the system is asked for the listed features, with their names.
pub fn instruction_set_features() -> (features: Vec<(u32, &'static str)>)
    ensures
        features@ == listed_features(),
{
    let features: Vec<(u32, &'static str)> = vec![
        (3u32, "MMX"),
        (6u32, "SSE"),
        (10u32, "SSE2"),
        (13u32, "SSE3"),
        (36u32, "SSSE3"),
        (37u32, "SSE4.1"),
        (38u32, "SSE4.2"),
        (39u32, "AVX"),
        (40u32, "AVX2"),
        (41u32, "AVX-512F"),
        (17u32, "XSAVE"),
        (8u32, "RDTSC"),
        (32u32, "RDTSCP"),
        (28u32, "RDRAND"),
        (33u32, "RDPID"),
        (22u32, "FSGSBASE"),
        (42u32, "ERMS"),
        (12u32, "NX"),
        (9u32, "PAE"),
        (7u32, "3DNow!"),
        (19u32, "NEON"),
        (24u32, "ARM Divide"),
        (27u32, "ARM FMAC"),
        (29u32, "ARMv8"),
        (30u32, "ARMv8 Crypto"),
        (31u32, "ARMv8 CRC32"),
        (25u32, "ARM Atomic"),
        (34u32, "ARMv8.1 Atomic"),
        (43u32, "ARMv8.2 Dot Product"),
        (44u32, "ARMv8.3 JSCVT"),
        (45u32, "ARMv8.3 LRCPC"),
    ];
    assert(features@ =~= listed_features());
    features
}

/// The names of the first `count` listed features that are present.
pub open spec fn present_names(present: Seq<u32>, count: int) -> Seq<&'static str>
    decreases count,
{
    if count <= 0 {
        Seq::empty()
    } else {
        let before = present_names(present, count - 1);
        if present.contains(listed_features()[count - 1].0) {
            before.push(listed_features()[count - 1].1)
        } else {
            before
        }
    }
}

/// What is reported of a processor with the given architecture, from the numbers of the
/// features that are present.
pub fn cpu_features(architecture: u16, present: &Vec<u32>) -> (info: CpuFeatureInfo)
    ensures
        info.architecture.windows_value() == architecture,
        info.architecture is Unknown <==> architecture
            > super::model::PROCESSOR_ARCHITECTURE_IA32_ON_ARM64,
        info.virtualization_firmware_enabled == present@.contains(PF_VIRT_FIRMWARE_ENABLED),
        info.second_level_address_translation == present@.contains(
            PF_SECOND_LEVEL_ADDRESS_TRANSLATION,
        ),
        info.isa_features@ == present_names(present@, listed_features().len() as int),
{
    let features = instruction_set_features();
    let mut isa_features: Vec<&'static str> = Vec::new();
    for index in 0..features.len()
        invariant
            features@ == listed_features(),
            isa_features@ == present_names(present@, index as int),
    {
        if contains_u32(present, features[index].0) {
            isa_features.push(features[index].1);
        }
    }
    CpuFeatureInfo {
        architecture: CpuArchitecture::from_windows(architecture),
        virtualization_firmware_enabled: contains_u32(present, PF_VIRT_FIRMWARE_ENABLED),
        second_level_address_translation: contains_u32(
            present,
            PF_SECOND_LEVEL_ADDRESS_TRANSLATION,
        ),
        isa_features,
    }
}

} // verus!
