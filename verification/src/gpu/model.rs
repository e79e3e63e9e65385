//! Stable identities of adapters and engines, snapshots of each source, and its errors.
//!
//! Nothing here owns a native handle or takes a sample.
use std::sync::Arc;

use vstd::prelude::*;

use crate::text::{chars_of, copy_of, is_text, lower, lower_chars, same_text};
use crate::win32::{
    ERROR_INVALID_DATA, PDH_CSTATUS_INVALID_DATA, PDH_CSTATUS_NO_COUNTER, PDH_CSTATUS_NO_OBJECT,
    PDH_INVALID_PATH,
};

verus! {

pub const ENGINE_COUNTER_PATH: &'static str = "\\GPU Engine(*)\\Utilization Percentage";

pub const DEDICATED_MEMORY_COUNTER_PATH: &'static str = "\\GPU Adapter Memory(*)\\Dedicated Usage";

pub const SHARED_MEMORY_COUNTER_PATH: &'static str = "\\GPU Adapter Memory(*)\\Shared Usage";

#[derive(Clone, Copy, Debug, PartialEq, Eq, Structural, Hash, PartialOrd, Ord)]
pub struct AdapterLuid {
    pub high_part: i32,
    pub low_part: u32,
}

impl AdapterLuid {
    /// The identifier with the given halves; the upper half is read as a signed number.
    pub fn from_parts(high_part: u32, low_part: u32) -> (luid: Self)
        ensures
            luid == luid_of(high_part as int, low_part as int),
    {
        let high_part: i32 = if high_part <= i32::MAX as u32 {
            high_part as i32
        } else {
            (high_part as i64 - 0x1_0000_0000) as i32
        };
        AdapterLuid { high_part, low_part }
    }
}

/// The identifier whose halves have these unsigned values.
pub open spec fn luid_of(high_part: int, low_part: int) -> AdapterLuid {
    AdapterLuid {
        high_part: if high_part <= i32::MAX {
            high_part as i32
        } else {
            (high_part - 0x1_0000_0000) as i32
        },
        low_part: low_part as u32,
    }
}

#[derive(Clone, Copy, Debug, PartialEq, Eq, Structural, Hash, PartialOrd, Ord)]
pub struct GpuAdapterId {
    pub luid: AdapterLuid,
    pub physical_index: u32,
}

#[derive(Clone, Copy, Debug, PartialEq, Eq, Structural, Hash, PartialOrd, Ord)]
pub struct GpuEngineId {
    pub adapter: GpuAdapterId,
    pub ordinal: u32,
}

#[derive(Clone, Debug, PartialEq, Eq, Hash, PartialOrd, Ord)]
pub enum GpuEngineKind {
    ThreeD,
    Copy,
    VideoEncode,
    VideoDecode,
    Compute,
    Security,
    Other(String),
}

/// An engine kind with the name of an unusual one as a sequence of characters.
pub enum EngineKindView {
    ThreeD,
    Copy,
    VideoEncode,
    VideoDecode,
    Compute,
    Security,
    Other(Seq<char>),
}

impl View for GpuEngineKind {
    type V = EngineKindView;

    open spec fn view(&self) -> EngineKindView {
        match self {
            GpuEngineKind::ThreeD => EngineKindView::ThreeD,
            GpuEngineKind::Copy => EngineKindView::Copy,
            GpuEngineKind::VideoEncode => EngineKindView::VideoEncode,
            GpuEngineKind::VideoDecode => EngineKindView::VideoDecode,
            GpuEngineKind::Compute => EngineKindView::Compute,
            GpuEngineKind::Security => EngineKindView::Security,
            GpuEngineKind::Other(name) => EngineKindView::Other(name@),
        }
    }
}

/// The kind that a counter calls `name`. The case of letters does not matter; a name that is
/// not known is kept as it is.
pub open spec fn kind_named(name: Seq<char>) -> EngineKindView {
    let lowered = lower(name);
    if lowered == "3d"@ {
        EngineKindView::ThreeD
    } else if lowered == "copy"@ {
        EngineKindView::Copy
    } else if lowered == "videoencode"@ {
        EngineKindView::VideoEncode
    } else if lowered == "videodecode"@ {
        EngineKindView::VideoDecode
    } else if lowered == "compute"@ || lowered == "computing"@ {
        EngineKindView::Compute
    } else if lowered == "security"@ {
        EngineKindView::Security
    } else {
        EngineKindView::Other(name)
    }
}

impl GpuEngineKind {
    pub fn from_counter_name(value: &str) -> (kind: Self)
        ensures
            kind@ == kind_named(value@),
    {
        let lowered_chars = lower_chars(chars_of(value).as_slice());
        let lowered = lowered_chars.as_slice();
        if is_text(lowered, "3d") {
            GpuEngineKind::ThreeD
        } else if is_text(lowered, "copy") {
            GpuEngineKind::Copy
        } else if is_text(lowered, "videoencode") {
            GpuEngineKind::VideoEncode
        } else if is_text(lowered, "videodecode") {
            GpuEngineKind::VideoDecode
        } else if is_text(lowered, "compute") || is_text(lowered, "computing") {
            GpuEngineKind::Compute
        } else if is_text(lowered, "security") {
            GpuEngineKind::Security
        } else {
            GpuEngineKind::Other(copy_of(value))
        }
    }

    pub fn same_as(&self, other: &GpuEngineKind) -> (same: bool)
        ensures
            same == (self@ == other@),
    {
        match (self, other) {
            (GpuEngineKind::ThreeD, GpuEngineKind::ThreeD) => true,
            (GpuEngineKind::Copy, GpuEngineKind::Copy) => true,
            (GpuEngineKind::VideoEncode, GpuEngineKind::VideoEncode) => true,
            (GpuEngineKind::VideoDecode, GpuEngineKind::VideoDecode) => true,
            (GpuEngineKind::Compute, GpuEngineKind::Compute) => true,
            (GpuEngineKind::Security, GpuEngineKind::Security) => true,
            (GpuEngineKind::Other(left), GpuEngineKind::Other(right)) => same_text(
                left.as_str(),
                right.as_str(),
            ),
            _ => false,
        }
    }

    pub fn copied(&self) -> (kind: GpuEngineKind)
        ensures
            kind@ == self@,
    {
        match self {
            GpuEngineKind::ThreeD => GpuEngineKind::ThreeD,
            GpuEngineKind::Copy => GpuEngineKind::Copy,
            GpuEngineKind::VideoEncode => GpuEngineKind::VideoEncode,
            GpuEngineKind::VideoDecode => GpuEngineKind::VideoDecode,
            GpuEngineKind::Compute => GpuEngineKind::Compute,
            GpuEngineKind::Security => GpuEngineKind::Security,
            GpuEngineKind::Other(name) => GpuEngineKind::Other(copy_of(name.as_str())),
        }
    }
}

#[derive(Clone, Copy, Debug, PartialEq, Eq)]
pub enum GpuSampleError {
    Pdh { context: &'static str, status: u32 },
    HResult { context: &'static str, code: i32 },
    NtStatus { context: &'static str, status: i32 },
    Win32 { context: &'static str, code: u32 },
    InvalidData { context: &'static str },
}

/// How a [`GpuSampleError`] is put on record: which kind of status, where, and its value.
#[derive(Clone, Copy, Debug, PartialEq, Eq)]
pub enum GpuErrorRecord {
    Pdh(&'static str, u32),
    HResult(&'static str, i32),
    NtStatus(&'static str, i32),
    Win32(&'static str, u32),
}

impl GpuSampleError {
    /// What to record of the error. Malformed data is recorded under the system's own code.
    pub fn record(&self) -> (record: GpuErrorRecord)
        ensures
            record == match *self {
                GpuSampleError::Pdh { context, status } => GpuErrorRecord::Pdh(context, status),
                GpuSampleError::HResult { context, code } => GpuErrorRecord::HResult(context, code),
                GpuSampleError::NtStatus { context, status } => GpuErrorRecord::NtStatus(
                    context,
                    status,
                ),
                GpuSampleError::Win32 { context, code } => GpuErrorRecord::Win32(context, code),
                GpuSampleError::InvalidData { context } => GpuErrorRecord::Win32(
                    context,
                    ERROR_INVALID_DATA,
                ),
            },
    {
        match *self {
            GpuSampleError::Pdh { context, status } => GpuErrorRecord::Pdh(context, status),
            GpuSampleError::HResult { context, code } => GpuErrorRecord::HResult(context, code),
            GpuSampleError::NtStatus { context, status } => GpuErrorRecord::NtStatus(
                context,
                status,
            ),
            GpuSampleError::Win32 { context, code } => GpuErrorRecord::Win32(context, code),
            GpuSampleError::InvalidData { context } => GpuErrorRecord::Win32(
                context,
                ERROR_INVALID_DATA,
            ),
        }
    }

    /// The status of a counter that failed, if the error is about a counter.
    pub open spec fn pdh_status(self) -> Option<u32> {
        match self {
            GpuSampleError::Pdh { status, .. } => Some(status),
            _ => None,
        }
    }

    /// Whether the machine does not offer the counter at all.
    pub fn is_unsupported(&self) -> (unsupported: bool)
        ensures
            unsupported == (self.pdh_status() matches Some(status) && (status
                == PDH_CSTATUS_NO_OBJECT || status == PDH_CSTATUS_NO_COUNTER || status
                == PDH_INVALID_PATH)),
    {
        match self {
            GpuSampleError::Pdh { status, .. } => *status == PDH_CSTATUS_NO_OBJECT || *status
                == PDH_CSTATUS_NO_COUNTER || *status == PDH_INVALID_PATH,
            _ => false,
        }
    }

    /// Whether the counter has not been read often enough to have a value yet.
    pub fn is_baseline_pending(&self) -> (pending: bool)
        ensures
            pending == (self.pdh_status() == Some(PDH_CSTATUS_INVALID_DATA)),
    {
        match self {
            GpuSampleError::Pdh { status, .. } => *status == PDH_CSTATUS_INVALID_DATA,
            _ => false,
        }
    }
}

/// Where a value of a sample comes from.
#[derive(Clone, Copy, Debug, PartialEq, Eq, Structural, Hash)]
pub enum GpuSampleSource {
    Engine,
    DedicatedMemory,
    SharedMemory,
    Temperature,
}

impl GpuSampleSource {
    /// The path of the counter behind the source, where there is one.
    pub fn counter_path(self) -> (path: Option<&'static str>)
        ensures
            path == match self {
                GpuSampleSource::Engine => Some(ENGINE_COUNTER_PATH),
                GpuSampleSource::DedicatedMemory => Some(DEDICATED_MEMORY_COUNTER_PATH),
                GpuSampleSource::SharedMemory => Some(SHARED_MEMORY_COUNTER_PATH),
                GpuSampleSource::Temperature => None::<&'static str>,
            },
    {
        match self {
            GpuSampleSource::Engine => Some(ENGINE_COUNTER_PATH),
            GpuSampleSource::DedicatedMemory => Some(DEDICATED_MEMORY_COUNTER_PATH),
            GpuSampleSource::SharedMemory => Some(SHARED_MEMORY_COUNTER_PATH),
            GpuSampleSource::Temperature => None,
        }
    }
}

/// One thing that went wrong with one source of a sample.
#[derive(Clone, Debug, PartialEq, Eq)]
pub struct GpuSampleIssue {
    pub adapter_id: Option<GpuAdapterId>,
    pub source: GpuSampleSource,
    pub instance_name: Option<String>,
    pub error: GpuSampleError,
}

pub struct IssueView {
    pub adapter_id: Option<GpuAdapterId>,
    pub source: GpuSampleSource,
    pub instance_name: Option<Seq<char>>,
    pub error: GpuSampleError,
}

pub open spec fn name_view(name: Option<String>) -> Option<Seq<char>> {
    match name {
        Some(text) => Some(text@),
        None => None,
    }
}

impl View for GpuSampleIssue {
    type V = IssueView;

    open spec fn view(&self) -> IssueView {
        IssueView {
            adapter_id: self.adapter_id,
            source: self.source,
            instance_name: name_view(self.instance_name),
            error: self.error,
        }
    }
}

impl GpuSampleIssue {
    pub fn new(
        adapter_id: Option<GpuAdapterId>,
        source: GpuSampleSource,
        instance_name: Option<String>,
        error: GpuSampleError,
    ) -> (issue: Self)
        ensures
            issue == (GpuSampleIssue { adapter_id, source, instance_name, error }),
    {
        GpuSampleIssue { adapter_id, source, instance_name, error }
    }

    pub fn copied(&self) -> (issue: GpuSampleIssue)
        ensures
            issue@ == self@,
    {
        let instance_name = match &self.instance_name {
            Some(name) => Some(copy_of(name.as_str())),
            None => None,
        };
        GpuSampleIssue {
            adapter_id: self.adapter_id,
            source: self.source,
            instance_name,
            error: self.error,
        }
    }
}

#[derive(Clone, Debug, PartialEq, Eq)]
pub struct GpuDriverDetails {
    pub version: Option<String>,
    pub date: Option<String>,
    pub location: Option<String>,
    pub location_path: Option<String>,
}

impl Default for GpuDriverDetails {
    fn default() -> (details: Self)
        ensures
            details == (GpuDriverDetails {
                version: None,
                date: None,
                location: None,
                location_path: None,
            }),
    {
        GpuDriverDetails { version: None, date: None, location: None, location_path: None }
    }
}

#[derive(Clone, Debug, PartialEq, Eq)]
pub struct GpuAdapterInfo {
    pub id: GpuAdapterId,
    pub enumeration_index: u32,
    pub name: String,
    pub vendor_id: u32,
    pub device_id: u32,
    pub subsystem_id: u32,
    pub revision: u32,
    pub dedicated_limit_bytes: Option<u64>,
    pub shared_limit_bytes: Option<u64>,
}

#[derive(Clone, Debug, PartialEq, Eq)]
pub struct GpuAdapterMetadata {
    pub id: GpuAdapterId,
    pub hardware_reserved_bytes: Option<u64>,
    pub driver: GpuDriverDetails,
    pub directx_feature_level: Option<String>,
    pub metadata_errors: Vec<GpuSampleError>,
}

#[derive(Clone, Debug, PartialEq, Eq)]
pub struct GpuEngineSample {
    pub id: GpuEngineId,
    pub kind: GpuEngineKind,
    pub utilization_percent: u8,
}

pub struct EngineSampleView {
    pub id: GpuEngineId,
    pub kind: EngineKindView,
    pub utilization_percent: u8,
}

impl View for GpuEngineSample {
    type V = EngineSampleView;

    open spec fn view(&self) -> EngineSampleView {
        EngineSampleView {
            id: self.id,
            kind: self.kind@,
            utilization_percent: self.utilization_percent,
        }
    }
}

/// What the counters say of one adapter, each source on its own: a value that a source did not
/// deliver is missing, never zero.
#[derive(Clone, Debug, PartialEq, Eq)]
pub struct GpuCounterSample {
    pub info: Arc<GpuAdapterInfo>,
    pub overall_utilization_percent: Option<u8>,
    pub engines: Vec<GpuEngineSample>,
    pub dedicated_usage_bytes: Option<u64>,
    pub shared_usage_bytes: Option<u64>,
    pub temperature_deci_c: Option<u32>,
    pub row_errors: Vec<GpuSampleIssue>,
}

/// A complete sample of one adapter.
#[derive(Clone, Debug, PartialEq, Eq)]
pub struct GpuAdapterSample {
    pub info: Arc<GpuAdapterInfo>,
    pub overall_utilization_percent: u8,
    pub engines: Vec<GpuEngineSample>,
    pub dedicated_usage_bytes: u64,
    pub shared_usage_bytes: u64,
    pub temperature_deci_c: Option<u32>,
    pub row_errors: Vec<GpuSampleError>,
}

#[derive(Clone, Debug, PartialEq, Eq)]
pub struct GpuInventorySnapshot {
    pub generation: u64,
    pub adapters: Vec<Arc<GpuAdapterInfo>>,
}

/// What the counters said at one moment, each source on its own.
#[derive(Clone, Debug, PartialEq, Eq)]
pub struct GpuCounterSnapshot {
    pub generation: u64,
    pub timestamp_ms: u64,
    pub adapters: Vec<GpuCounterSample>,
}

#[derive(Clone, Debug, PartialEq, Eq)]
pub struct GpuDynamicSnapshot {
    pub generation: u64,
    pub timestamp_ms: u64,
    pub adapters: Vec<GpuAdapterSample>,
}

/// What one round of sampling comes to.
#[derive(Clone, Debug, PartialEq, Eq)]
pub enum GpuCollectOutcome {
    Inventory(GpuInventorySnapshot),
    AwaitingBaseline { generation: u64 },
    Dynamic(GpuDynamicSnapshot),
}

#[derive(Clone, Debug, PartialEq, Eq)]
pub struct GpuMetadataSnapshot {
    pub generation: u64,
    pub adapters: Vec<GpuAdapterMetadata>,
}

#[derive(Clone, Debug)]
pub struct GpuMetadataRequest {
    pub generation: u64,
    pub adapters: Vec<Arc<GpuAdapterInfo>>,
}

} // verus!
