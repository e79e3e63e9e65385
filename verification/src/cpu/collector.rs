//! When each source of processor details is asked, and what becomes of its answer.
//!
//! Every source is asked once for a topology. A source that failed is asked again only when the
//! user asks for it, and the answer of one source never touches the others.
use vstd::prelude::*;

use super::firmware::CpuFirmwareProcessor;
use super::model::{
    invalid, CpuComponentUpdate, CpuDetailError, CpuDetailRefresh, CpuDynamicInfo,
    CpuSupplementalTopology, CpuTopologyKey,
};
use super::native::bad;
use crate::win32::{error_or_gen_failure, ERROR_GEN_FAILURE, ERROR_INSUFFICIENT_BUFFER,
    ERROR_SUCCESS};

verus! {

/// What a round of the counters brought: a first reading to compare with, or a sample.
#[derive(Clone, Copy, Debug, PartialEq, Eq, Structural)]
pub enum CpuPdhCollectOutcome {
    Primed(u64),
    Sample(CpuDynamicInfo),
}

/// What to do about the counters in a round.
#[derive(Clone, Copy, Debug, PartialEq, Eq, Structural)]
pub enum DynamicAction {
    /// The counters failed earlier and are left alone.
    Skip,
    /// Open the counters, and collect if that works.
    Open,
    /// Collect from the open counters.
    Collect,
}

/// What is known of the native sources of one topology.
pub struct CpuNativeCollector {
    pub topology_key: Option<CpuTopologyKey>,
    pub topology_done: bool,
    pub topology_failed: bool,
    pub features_done: bool,
    pub pdh_open: bool,
    pub pdh_failed: bool,
}

pub open spec fn key_view(key: Option<CpuTopologyKey>) -> Option<
    Seq<super::model::ProcessorTopologyIdentity>,
> {
    match key {
        Some(key) => Some(key.0@),
        None => None,
    }
}

impl CpuNativeCollector {
    /// Whether nothing has been asked yet.
    pub open spec fn is_fresh(&self) -> bool {
        !self.topology_done && !self.topology_failed && !self.features_done && !self.pdh_open
            && !self.pdh_failed
    }

    /// Whether the topology has to be asked for in a round.
    pub open spec fn topology_due(&self, refresh: CpuDetailRefresh) -> bool {
        !self.topology_done || (refresh == CpuDetailRefresh::User && self.topology_failed)
    }

    pub fn new() -> (collector: Self)
        ensures
            collector.topology_key is None,
            collector.is_fresh(),
    {
        CpuNativeCollector {
            topology_key: None,
            topology_done: false,
            topology_failed: false,
            features_done: false,
            pdh_open: false,
            pdh_failed: false,
        }
    }

    /// Starts a round for a topology. Another topology than before starts from scratch.
    pub fn select_topology(&mut self, key: &CpuTopologyKey)
        ensures
            key_view(final(self).topology_key) == Some(key.0@),
            if key_view(old(self).topology_key) == Some(key.0@) {
                *final(self) == *old(self)
            } else {
                final(self).is_fresh()
            },
    {
        let same = match &self.topology_key {
            Some(current) => current.same_as(key),
            None => false,
        };
        if !same {
            *self = CpuNativeCollector::new();
            self.topology_key = Some(key.copied());
        }
    }

    /// Whether the topology has to be asked for.
    pub fn wants_topology(&self, refresh: CpuDetailRefresh) -> (wanted: bool)
        ensures
            wanted == self.topology_due(refresh),
    {
        !self.topology_done || (refresh == CpuDetailRefresh::User && self.topology_failed)
    }

    /// Takes the answer to the question for the topology.
    pub fn note_topology(
        &mut self,
        result: Result<CpuSupplementalTopology, CpuDetailError>,
    ) -> (update: CpuComponentUpdate<CpuSupplementalTopology>)
        ensures
            *final(self) == (CpuNativeCollector {
                topology_done: true,
                topology_failed: result is Err,
                ..*old(self)
            }),
            update == match result {
                Ok(value) => CpuComponentUpdate::Success(value),
                Err(error) => CpuComponentUpdate::Failed(error),
            },
    {
        self.topology_done = true;
        match result {
            Ok(value) => {
                self.topology_failed = false;
                CpuComponentUpdate::Success(value)
            },
            Err(error) => {
                self.topology_failed = true;
                CpuComponentUpdate::Failed(error)
            },
        }
    }

    /// Whether the features have to be asked for; they count as asked from now on.
    pub fn take_features(&mut self) -> (wanted: bool)
        ensures
            wanted == !old(self).features_done,
            *final(self) == (CpuNativeCollector { features_done: true, ..*old(self) }),
    {
        let wanted = !self.features_done;
        self.features_done = true;
        wanted
    }

    /// What to do about the counters. The user gets counters that failed opened again.
    pub fn plan_dynamic(&mut self, refresh: CpuDetailRefresh) -> (action: DynamicAction)
        ensures
            ({
                let retry = refresh == CpuDetailRefresh::User && old(self).pdh_failed;
                let open = old(self).pdh_open && !retry;
                let failed = old(self).pdh_failed && !retry;
                &&& *final(self) == (CpuNativeCollector {
                    pdh_open: open,
                    pdh_failed: failed,
                    ..*old(self)
                })
                &&& action == if open {
                    DynamicAction::Collect
                } else if failed {
                    DynamicAction::Skip
                } else {
                    DynamicAction::Open
                }
            }),
    {
        if refresh == CpuDetailRefresh::User && self.pdh_failed {
            self.pdh_open = false;
            self.pdh_failed = false;
        }
        if self.pdh_open {
            DynamicAction::Collect
        } else if self.pdh_failed {
            DynamicAction::Skip
        } else {
            DynamicAction::Open
        }
    }

    /// Takes the answer to the opening of the counters. Nothing is reported yet where it worked.
    pub fn note_opened(&mut self, result: Result<(), CpuDetailError>) -> (update: Option<
        CpuComponentUpdate<CpuDynamicInfo>,
    >)
        ensures
            *final(self) == (CpuNativeCollector {
                pdh_open: if result is Ok {
                    true
                } else {
                    old(self).pdh_open
                },
                pdh_failed: if result is Ok {
                    old(self).pdh_failed
                } else {
                    true
                },
                ..*old(self)
            }),
            update == match result {
                Ok(_) => None,
                Err(error) => Some(CpuComponentUpdate::<CpuDynamicInfo>::Failed(error)),
            },
    {
        match result {
            Ok(()) => {
                self.pdh_open = true;
                None
            },
            Err(error) => {
                self.pdh_failed = true;
                Some(CpuComponentUpdate::Failed(error))
            },
        }
    }

    /// Whether the counters have to forget their last reading first.
    pub fn resets_baseline(refresh: CpuDetailRefresh) -> (reset: bool)
        ensures
            reset == (refresh == CpuDetailRefresh::Activation),
    {
        refresh == CpuDetailRefresh::Activation
    }

    /// Takes what a round of the counters brought. Counters that failed are closed.
    pub fn note_collected(&mut self, result: Result<CpuPdhCollectOutcome, CpuDetailError>) -> (update:
        (CpuComponentUpdate<CpuDynamicInfo>, Option<u64>))
        ensures
            *final(self) == (CpuNativeCollector {
                pdh_open: if result is Ok {
                    old(self).pdh_open
                } else {
                    false
                },
                pdh_failed: if result is Ok {
                    old(self).pdh_failed
                } else {
                    true
                },
                ..*old(self)
            }),
            update == match result {
                Ok(CpuPdhCollectOutcome::Sample(value)) => (
                    CpuComponentUpdate::Success(value),
                    None,
                ),
                Ok(CpuPdhCollectOutcome::Primed(time)) => (
                    CpuComponentUpdate::<CpuDynamicInfo>::Unchanged,
                    Some(time),
                ),
                Err(error) => (CpuComponentUpdate::<CpuDynamicInfo>::Failed(error), None::<u64>),
            },
    {
        match result {
            Ok(CpuPdhCollectOutcome::Sample(value)) => (CpuComponentUpdate::Success(value), None),
            Ok(CpuPdhCollectOutcome::Primed(time)) => (CpuComponentUpdate::Unchanged, Some(time)),
            Err(error) => {
                self.pdh_open = false;
                self.pdh_failed = true;
                (CpuComponentUpdate::Failed(error), None)
            },
        }
    }
}

/// Whether counters have a first reading to compare with.
#[derive(Clone, Copy, Debug, PartialEq, Eq, Structural)]
pub struct SampleBaseline {
    pub ready: bool,
}

/// What a collected reading is good for.
#[derive(Clone, Copy, Debug, PartialEq, Eq, Structural)]
pub enum BaselineStep {
    Primed,
    Readable,
}

impl SampleBaseline {
    pub fn reset_sample_baseline(&mut self)
        ensures
            !final(self).ready,
    {
        self.ready = false;
    }

    /// Takes the status of a collected reading. The first one only sets the baseline.
    pub fn advance(&mut self, status: u32) -> (step: Result<BaselineStep, CpuDetailError>)
        ensures
            step == if status != ERROR_SUCCESS {
                Err::<BaselineStep, CpuDetailError>(
                    CpuDetailError::Pdh {
                        context: "PdhCollectQueryData for CPU diagnostics",
                        status,
                    },
                )
            } else if old(self).ready {
                Ok(BaselineStep::Readable)
            } else {
                Ok(BaselineStep::Primed)
            },
            final(self).ready == (old(self).ready || status == ERROR_SUCCESS),
    {
        if status != ERROR_SUCCESS {
            return Err(
                CpuDetailError::Pdh { context: "PdhCollectQueryData for CPU diagnostics", status },
            );
        }
        if !self.ready {
            self.ready = true;
            return Ok(BaselineStep::Primed);
        }
        Ok(BaselineStep::Readable)
    }
}

/// What is known of the firmware source of one topology.
pub struct CpuFirmwareCollector {
    pub topology_key: Option<CpuTopologyKey>,
    pub firmware_done: bool,
    pub firmware_failed: bool,
}

/// What to do about the firmware in a round.
#[derive(Clone, Copy, Debug, PartialEq, Eq, Structural)]
pub struct FirmwarePlan {
    pub reconnect: bool,
    pub query: bool,
}

impl CpuFirmwareCollector {
    pub fn new() -> (collector: Self)
        ensures
            collector.topology_key is None,
            !collector.firmware_done,
            !collector.firmware_failed,
    {
        CpuFirmwareCollector { topology_key: None, firmware_done: false, firmware_failed: false }
    }

    /// Starts a round: whether to connect again, and whether to ask. A failure is only tried
    /// again when the user asks for it.
    pub fn plan(&mut self, key: &CpuTopologyKey, refresh: CpuDetailRefresh) -> (plan: FirmwarePlan)
        ensures
            ({
                let same = key_view(old(self).topology_key) == Some(key.0@);
                let failed = same && old(self).firmware_failed;
                let done = same && old(self).firmware_done;
                let retry = refresh == CpuDetailRefresh::User && failed;
                &&& key_view(final(self).topology_key) == Some(key.0@)
                &&& plan.reconnect == retry
                &&& plan.query == (retry || !done)
                &&& final(self).firmware_done == !plan.query
                &&& final(self).firmware_failed == (failed && !retry)
            }),
    {
        let same = match &self.topology_key {
            Some(current) => current.same_as(key),
            None => false,
        };
        if !same {
            self.topology_key = Some(key.copied());
            self.firmware_done = false;
            self.firmware_failed = false;
        }
        let reconnect = refresh == CpuDetailRefresh::User && self.firmware_failed;
        if reconnect {
            self.firmware_done = false;
            self.firmware_failed = false;
        }
        FirmwarePlan { reconnect, query: !self.firmware_done }
    }

    /// Takes the answer to the question for the processors.
    pub fn note_result(
        &mut self,
        result: Result<Vec<CpuFirmwareProcessor>, CpuDetailError>,
    ) -> (update: CpuComponentUpdate<Vec<CpuFirmwareProcessor>>)
        ensures
            *final(self) == (CpuFirmwareCollector {
                firmware_done: true,
                firmware_failed: result is Err,
                ..*old(self)
            }),
            update == match result {
                Ok(value) => CpuComponentUpdate::Success(value),
                Err(error) => CpuComponentUpdate::Failed(error),
            },
    {
        self.firmware_done = true;
        match result {
            Ok(value) => {
                self.firmware_failed = false;
                CpuComponentUpdate::Success(value)
            },
            Err(error) => {
                self.firmware_failed = true;
                CpuComponentUpdate::Failed(error)
            },
        }
    }
}

/// Decides on the answer to the question for the size of the topology records: how many words
/// to hand over for them.
pub fn relation_buffer_words(succeeded: bool, byte_len: u32, last_error: u32) -> (outcome: Result<
    usize,
    CpuDetailError,
>)
    ensures
        if succeeded || byte_len == 0 || last_error != ERROR_INSUFFICIENT_BUFFER {
            outcome == Err::<usize, CpuDetailError>(
                CpuDetailError::Win32 {
                    context: "CPU RelationAll buffer sizing",
                    code: if last_error == 0 {
                        ERROR_GEN_FAILURE
                    } else {
                        last_error
                    },
                },
            )
        } else {
            outcome matches Ok(words) && (words - 1) * 8 < byte_len <= words * 8
        },
{
    if succeeded || byte_len == 0 || last_error != ERROR_INSUFFICIENT_BUFFER {
        return Err(
            CpuDetailError::Win32 {
                context: "CPU RelationAll buffer sizing",
                code: error_or_gen_failure(last_error),
            },
        );
    }
    Ok(
        (byte_len as usize) / 8 + if byte_len % 8 == 0 {
            0
        } else {
            1
        },
    )
}

/// Decides whether the topology records that were delivered may be read.
pub fn check_relation_buffer(
    succeeded: bool,
    returned_len: u32,
    capacity: usize,
    last_error: u32,
) -> (outcome: Result<(), CpuDetailError>)
    ensures
        outcome == if !succeeded {
            Err::<(), CpuDetailError>(
                CpuDetailError::Win32 {
                    context: "CPU RelationAll query",
                    code: if last_error == 0 {
                        ERROR_GEN_FAILURE
                    } else {
                        last_error
                    },
                },
            )
        } else if returned_len == 0 || returned_len > capacity {
            bad("CPU RelationAll returned bounds")
        } else {
            Ok(())
        },
{
    if !succeeded {
        return Err(
            CpuDetailError::Win32 {
                context: "CPU RelationAll query",
                code: error_or_gen_failure(last_error),
            },
        );
    }
    if returned_len == 0 || returned_len as usize > capacity {
        return invalid("CPU RelationAll returned bounds");
    }
    Ok(())
}

} // verus!
