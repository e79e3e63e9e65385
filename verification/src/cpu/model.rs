//! Identities, requests, snapshots and errors shared by the sources of processor details.
//!
//! None of these types owns a native handle. Every source submits a complete result of its own.
use vstd::prelude::*;

use crate::win32::ERROR_INVALID_DATA;

verus! {

/// One logical processor: its group and its number inside the group.
#[derive(Clone, Copy, Debug, PartialEq, Eq, Structural, Hash, PartialOrd, Ord)]
pub struct LogicalProcessorId {
    pub group: u16,
    pub number: u8,
}

/// Efficiency class of a core among the cores of one machine.
#[derive(Clone, Copy, Debug, PartialEq, Eq, Structural, Hash)]
pub enum CoreClass {
    Uniform,
    Performance,
    Efficiency,
}

/// What stays the same of a logical processor as long as the topology does.
#[derive(Clone, Copy, Debug, PartialEq, Eq, Structural, Hash)]
pub struct ProcessorTopologyIdentity {
    pub id: LogicalProcessorId,
    pub physical_core_index: usize,
    pub smt_index: Option<usize>,
    pub class: CoreClass,
}

/// Identity of a whole processor topology.
#[derive(Clone, Debug, PartialEq, Eq, Hash)]
pub struct CpuTopologyKey(pub Vec<ProcessorTopologyIdentity>);

impl CpuTopologyKey {
    pub open spec fn ids(&self) -> Seq<LogicalProcessorId> {
        self.0@.map_values(|identity: ProcessorTopologyIdentity| identity.id)
    }

    pub fn logical_processors(&self) -> (processors: Vec<LogicalProcessorId>)
        ensures
            processors@ == self.ids(),
    {
        let mut processors: Vec<LogicalProcessorId> = Vec::new();
        for index in 0..self.0.len()
            invariant
                processors@ =~= self.ids().take(index as int),
        {
            processors.push(self.0[index].id);
        }
        assert(self.ids().take(self.0.len() as int) =~= self.ids());
        processors
    }

    pub fn identities(&self) -> (identities: &[ProcessorTopologyIdentity])
        ensures
            identities@ == self.0@,
    {
        self.0.as_slice()
    }

    /// Whether two keys name the same topology.
    pub fn same_as(&self, other: &CpuTopologyKey) -> (same: bool)
        ensures
            same == (self.0@ == other.0@),
    {
        if self.0.len() != other.0.len() {
            return false;
        }
        for index in 0..self.0.len()
            invariant
                self.0.len() == other.0.len(),
                forall|i: int| 0 <= i < index ==> self.0@[i] == other.0@[i],
        {
            if self.0[index] != other.0[index] {
                return false;
            }
        }
        assert(self.0@ =~= other.0@);
        true
    }

    /// A key of the same topology.
    pub fn copied(&self) -> (key: CpuTopologyKey)
        ensures
            key.0@ == self.0@,
    {
        let mut identities: Vec<ProcessorTopologyIdentity> = Vec::new();
        for index in 0..self.0.len()
            invariant
                identities@ =~= self.0@.take(index as int),
        {
            identities.push(self.0[index]);
        }
        assert(self.0@.take(self.0.len() as int) =~= self.0@);
        CpuTopologyKey(identities)
    }
}

/// Why processor details are asked for.
#[derive(Clone, Copy, Debug, PartialEq, Eq, Structural)]
pub enum CpuDetailRefresh {
    Prewarm,
    Activation,
    Periodic,
    User,
}

#[derive(Clone, Debug, PartialEq, Eq)]
pub struct CpuDetailRequest {
    pub topology_key: CpuTopologyKey,
    pub refresh: CpuDetailRefresh,
}

#[derive(Clone, Debug, PartialEq, Eq)]
pub enum CpuDetailError {
    Pdh { context: &'static str, status: u32 },
    HResult { context: &'static str, code: i32 },
    Win32 { context: &'static str, code: u32 },
    InvalidData { context: &'static str },
}

/// How a [`CpuDetailError`] is put on record: which kind of status, where, and its value.
#[derive(Clone, Debug, PartialEq, Eq)]
pub enum CpuErrorRecord {
    Pdh(&'static str, u32),
    HResult(&'static str, i32),
    Win32(&'static str, u32),
}

impl CpuDetailError {
    /// What to record of the error. Malformed data is recorded under the system's own code.
    pub fn record(&self) -> (record: CpuErrorRecord)
        ensures
            record == match *self {
                CpuDetailError::Pdh { context, status } => CpuErrorRecord::Pdh(context, status),
                CpuDetailError::HResult { context, code } => CpuErrorRecord::HResult(context, code),
                CpuDetailError::Win32 { context, code } => CpuErrorRecord::Win32(context, code),
                CpuDetailError::InvalidData { context } => CpuErrorRecord::Win32(
                    context,
                    ERROR_INVALID_DATA,
                ),
            },
    {
        match self {
            CpuDetailError::Pdh { context, status } => CpuErrorRecord::Pdh(context, *status),
            CpuDetailError::HResult { context, code } => CpuErrorRecord::HResult(context, *code),
            CpuDetailError::Win32 { context, code } => CpuErrorRecord::Win32(context, *code),
            CpuDetailError::InvalidData { context } => CpuErrorRecord::Win32(
                context,
                ERROR_INVALID_DATA,
            ),
        }
    }
}

/// What one source reports: nothing new, a complete new value, or a failure.
#[derive(Clone, Debug, PartialEq, Eq)]
pub enum CpuComponentUpdate<T> {
    Unchanged,
    Success(T),
    Failed(CpuDetailError),
}

#[derive(Clone, Copy, Debug, PartialEq, Eq, Structural, Hash, PartialOrd, Ord)]
pub enum CpuCacheKind {
    Unified,
    Instruction,
    Data,
    Trace,
}

/// All caches of one machine that agree in level, kind, size, line size and associativity.
#[derive(Clone, Debug, PartialEq, Eq)]
pub struct CpuCacheInfo {
    pub level: u8,
    pub kind: CpuCacheKind,
    pub instance_count: usize,
    pub bytes_per_instance: u64,
    pub total_bytes: u64,
    pub line_size: u16,
    pub associativity: Option<u8>,
}

#[derive(Clone, Debug, PartialEq, Eq)]
pub struct CpuSupplementalTopology {
    pub package_count: usize,
    pub numa_node_count: usize,
    pub group_count: usize,
    pub die_count: Option<usize>,
    pub module_count: Option<usize>,
    pub caches: Vec<CpuCacheInfo>,
}

#[derive(Clone, Copy, Debug, PartialEq, Eq, Structural)]
pub enum CpuArchitecture {
    X86,
    X64,
    Arm,
    Arm64,
    Ia64,
    Alpha,
    Alpha64,
    Mips,
    PowerPc,
    Shx,
    Msil,
    X86OnX64,
    Arm32OnArm64,
    X86OnArm64,
    Neutral,
    Unknown(u16),
}

pub const PROCESSOR_ARCHITECTURE_INTEL: u16 = 0;

pub const PROCESSOR_ARCHITECTURE_MIPS: u16 = 1;

pub const PROCESSOR_ARCHITECTURE_ALPHA: u16 = 2;

pub const PROCESSOR_ARCHITECTURE_PPC: u16 = 3;

pub const PROCESSOR_ARCHITECTURE_SHX: u16 = 4;

pub const PROCESSOR_ARCHITECTURE_ARM: u16 = 5;

pub const PROCESSOR_ARCHITECTURE_IA64: u16 = 6;

pub const PROCESSOR_ARCHITECTURE_ALPHA64: u16 = 7;

pub const PROCESSOR_ARCHITECTURE_MSIL: u16 = 8;

pub const PROCESSOR_ARCHITECTURE_AMD64: u16 = 9;

pub const PROCESSOR_ARCHITECTURE_IA32_ON_WIN64: u16 = 10;

pub const PROCESSOR_ARCHITECTURE_NEUTRAL: u16 = 11;

pub const PROCESSOR_ARCHITECTURE_ARM64: u16 = 12;

pub const PROCESSOR_ARCHITECTURE_ARM32_ON_WIN64: u16 = 13;

pub const PROCESSOR_ARCHITECTURE_IA32_ON_ARM64: u16 = 14;

impl CpuArchitecture {
    /// The value that Windows uses for the architecture.
    pub open spec fn windows_value(self) -> u16 {
        match self {
            CpuArchitecture::X86 => PROCESSOR_ARCHITECTURE_INTEL,
            CpuArchitecture::X64 => PROCESSOR_ARCHITECTURE_AMD64,
            CpuArchitecture::Arm => PROCESSOR_ARCHITECTURE_ARM,
            CpuArchitecture::Arm64 => PROCESSOR_ARCHITECTURE_ARM64,
            CpuArchitecture::Ia64 => PROCESSOR_ARCHITECTURE_IA64,
            CpuArchitecture::Alpha => PROCESSOR_ARCHITECTURE_ALPHA,
            CpuArchitecture::Alpha64 => PROCESSOR_ARCHITECTURE_ALPHA64,
            CpuArchitecture::Mips => PROCESSOR_ARCHITECTURE_MIPS,
            CpuArchitecture::PowerPc => PROCESSOR_ARCHITECTURE_PPC,
            CpuArchitecture::Shx => PROCESSOR_ARCHITECTURE_SHX,
            CpuArchitecture::Msil => PROCESSOR_ARCHITECTURE_MSIL,
            CpuArchitecture::X86OnX64 => PROCESSOR_ARCHITECTURE_IA32_ON_WIN64,
            CpuArchitecture::Arm32OnArm64 => PROCESSOR_ARCHITECTURE_ARM32_ON_WIN64,
            CpuArchitecture::X86OnArm64 => PROCESSOR_ARCHITECTURE_IA32_ON_ARM64,
            CpuArchitecture::Neutral => PROCESSOR_ARCHITECTURE_NEUTRAL,
            CpuArchitecture::Unknown(value) => value,
        }
    }

    /// The architecture that a Windows value stands for. No value is lost: one that is not
    /// known is kept as it is, and only such a value becomes `Unknown`.
    pub fn from_windows(value: u16) -> (architecture: Self)
        ensures
            architecture.windows_value() == value,
            architecture is Unknown <==> value > PROCESSOR_ARCHITECTURE_IA32_ON_ARM64,
    {
        match value {
            PROCESSOR_ARCHITECTURE_INTEL => CpuArchitecture::X86,
            PROCESSOR_ARCHITECTURE_AMD64 => CpuArchitecture::X64,
            PROCESSOR_ARCHITECTURE_ARM => CpuArchitecture::Arm,
            PROCESSOR_ARCHITECTURE_ARM64 => CpuArchitecture::Arm64,
            PROCESSOR_ARCHITECTURE_IA64 => CpuArchitecture::Ia64,
            PROCESSOR_ARCHITECTURE_ALPHA => CpuArchitecture::Alpha,
            PROCESSOR_ARCHITECTURE_ALPHA64 => CpuArchitecture::Alpha64,
            PROCESSOR_ARCHITECTURE_MIPS => CpuArchitecture::Mips,
            PROCESSOR_ARCHITECTURE_PPC => CpuArchitecture::PowerPc,
            PROCESSOR_ARCHITECTURE_SHX => CpuArchitecture::Shx,
            PROCESSOR_ARCHITECTURE_MSIL => CpuArchitecture::Msil,
            PROCESSOR_ARCHITECTURE_IA32_ON_WIN64 => CpuArchitecture::X86OnX64,
            PROCESSOR_ARCHITECTURE_ARM32_ON_WIN64 => CpuArchitecture::Arm32OnArm64,
            PROCESSOR_ARCHITECTURE_IA32_ON_ARM64 => CpuArchitecture::X86OnArm64,
            PROCESSOR_ARCHITECTURE_NEUTRAL => CpuArchitecture::Neutral,
            other => CpuArchitecture::Unknown(other),
        }
    }
}

#[derive(Clone, Debug, PartialEq, Eq)]
pub struct CpuFeatureInfo {
    pub architecture: CpuArchitecture,
    pub virtualization_firmware_enabled: bool,
    pub second_level_address_translation: bool,
    pub isa_features: Vec<&'static str>,
}

#[derive(Clone, Copy, Debug, PartialEq, Eq, Structural)]
pub struct CpuDynamicInfo {
    pub average_frequency_mhz: u64,
    pub minimum_frequency_mhz: u64,
    pub maximum_frequency_mhz: u64,
    pub processor_queue_length: u64,
    pub context_switches_per_second: Option<u64>,
    pub system_calls_per_second: Option<u64>,
}

#[derive(Clone, Debug, PartialEq, Eq)]
pub struct CpuNativeSnapshot {
    pub topology_key: CpuTopologyKey,
    pub topology: CpuComponentUpdate<CpuSupplementalTopology>,
    pub features: CpuComponentUpdate<CpuFeatureInfo>,
    pub dynamic: CpuComponentUpdate<CpuDynamicInfo>,
    pub pdh_baseline_timestamp_ms: Option<u64>,
}

pub fn invalid<T>(context: &'static str) -> (outcome: Result<T, CpuDetailError>)
    ensures
        outcome == Err::<T, CpuDetailError>(CpuDetailError::InvalidData { context }),
{
    Err(invalid_error(context))
}

pub fn invalid_error(context: &'static str) -> (error: CpuDetailError)
    ensures
        error == (CpuDetailError::InvalidData { context }),
{
    CpuDetailError::InvalidData { context }
}

} // verus!
