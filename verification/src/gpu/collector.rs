//! Rounds of sampling: when the list of adapters is made anew, and when there is a sample.
use std::sync::Arc;

use vstd::prelude::*;

use super::counters::{
    assemble_counter_samples, error_views, first_fault, is_sample, issue_views,
    keep_known_kinds, keeps_known_kinds, kind_views, kinds_after, readings, CounterItemIssue,
    CounterRead, EngineReading, MemoryReading, TemperatureReading,
};
use super::counters::{displayed_ids, errors_of, find_fault};
use super::inventory::Inventory;
use super::model::{
    GpuAdapterInfo, GpuAdapterSample, GpuCollectOutcome, GpuCounterSample, GpuCounterSnapshot,
    GpuDynamicSnapshot, GpuEngineId, GpuEngineKind, GpuInventorySnapshot, GpuSampleError,
    GpuSampleSource, DEDICATED_MEMORY_COUNTER_PATH, ENGINE_COUNTER_PATH,
    SHARED_MEMORY_COUNTER_PATH,
};
use crate::percent::Utilization;
use crate::table::Table;
use crate::win32::{ERROR_SUCCESS, PDH_CSTATUS_INVALID_DATA};

verus! {

/// The counters of the query: which of them could not be added, and whether the query was
/// collected before.
pub struct QueryState {
    pub engine_error: Option<GpuSampleError>,
    pub dedicated_error: Option<GpuSampleError>,
    pub shared_error: Option<GpuSampleError>,
    pub primed: bool,
}

/// The error of a counter that could not be added.
pub open spec fn counter_error(path: &'static str, status: u32) -> Option<GpuSampleError> {
    if status != ERROR_SUCCESS {
        Some(GpuSampleError::Pdh { context: path, status })
    } else {
        None
    }
}

fn add_optional_counter(path: &'static str, status: u32) -> (error: Option<GpuSampleError>)
    ensures
        error == counter_error(path, status),
{
    if status != ERROR_SUCCESS {
        Some(GpuSampleError::Pdh { context: path, status })
    } else {
        None
    }
}

pub struct GpuCounterCapability {
    pub source: GpuSampleSource,
    pub error: Option<GpuSampleError>,
}

impl QueryState {
    /// The query after its counters were added, with the status of each.
    pub fn new(
        open_status: u32,
        engine_status: u32,
        dedicated_status: u32,
        shared_status: u32,
    ) -> (outcome: Result<Self, GpuSampleError>)
        ensures
            outcome == if open_status != ERROR_SUCCESS {
                Err::<Self, GpuSampleError>(
                    GpuSampleError::Pdh {
                        context: "PdhOpenQueryW for GPU counters",
                        status: open_status,
                    },
                )
            } else {
                Ok(
                    QueryState {
                        engine_error: counter_error(ENGINE_COUNTER_PATH, engine_status),
                        dedicated_error: counter_error(
                            DEDICATED_MEMORY_COUNTER_PATH,
                            dedicated_status,
                        ),
                        shared_error: counter_error(SHARED_MEMORY_COUNTER_PATH, shared_status),
                        primed: false,
                    },
                )
            },
    {
        if open_status != ERROR_SUCCESS {
            return Err(
                GpuSampleError::Pdh {
                    context: "PdhOpenQueryW for GPU counters",
                    status: open_status,
                },
            );
        }
        Ok(
            QueryState {
                engine_error: add_optional_counter(ENGINE_COUNTER_PATH, engine_status),
                dedicated_error: add_optional_counter(
                    DEDICATED_MEMORY_COUNTER_PATH,
                    dedicated_status,
                ),
                shared_error: add_optional_counter(SHARED_MEMORY_COUNTER_PATH, shared_status),
                primed: false,
            },
        )
    }

    pub open spec fn has_counter(&self) -> bool {
        self.engine_error is None || self.dedicated_error is None || self.shared_error is None
    }

    /// Whether there is anything to collect.
    pub fn has_any_counter(&self) -> (has: bool)
        ensures
            has == self.has_counter(),
    {
        self.engine_error.is_none() || self.dedicated_error.is_none() || self.shared_error.is_none()
    }

    /// Notes a collection, and tells whether the counters have values. They have from the second
    /// collection on. Without a counter nothing is collected, and `status` does not matter.
    pub fn collect(&mut self, status: u32) -> (outcome: Result<bool, GpuSampleError>)
        ensures
            if old(self).has_counter() && status != ERROR_SUCCESS {
                outcome == Err::<bool, GpuSampleError>(
                    GpuSampleError::Pdh { context: "PdhCollectQueryData for GPU counters", status },
                ) && *final(self) == *old(self)
            } else {
                outcome == Ok::<bool, GpuSampleError>(!old(self).has_counter() || old(self).primed)
                    && *final(self) == (QueryState { primed: true, ..*old(self) })
            },
    {
        if !self.has_any_counter() {
            self.primed = true;
            return Ok(true);
        }
        if status != ERROR_SUCCESS {
            return Err(
                GpuSampleError::Pdh { context: "PdhCollectQueryData for GPU counters", status },
            );
        }
        if !self.primed {
            self.primed = true;
            return Ok(false);
        }
        Ok(true)
    }

    /// Which counters the machine offers.
    pub fn probe_counter_capabilities(&self) -> (capabilities: [GpuCounterCapability; 3])
        ensures
            capabilities@[0] == (GpuCounterCapability {
                source: GpuSampleSource::Engine,
                error: self.engine_error,
            }),
            capabilities@[1] == (GpuCounterCapability {
                source: GpuSampleSource::DedicatedMemory,
                error: self.dedicated_error,
            }),
            capabilities@[2] == (GpuCounterCapability {
                source: GpuSampleSource::SharedMemory,
                error: self.shared_error,
            }),
    {
        [
            GpuCounterCapability { source: GpuSampleSource::Engine, error: self.engine_error },
            GpuCounterCapability {
                source: GpuSampleSource::DedicatedMemory,
                error: self.dedicated_error,
            },
            GpuCounterCapability { source: GpuSampleSource::SharedMemory, error: self.shared_error },
        ]
    }
}

/// The list of adapters and its counters, through all rounds.
pub struct GpuCollector {
    pub topology: Option<Inventory>,
    pub query: Option<QueryState>,
    pub query_error: Option<GpuSampleError>,
    pub engine_kinds: Table<GpuEngineId, GpuEngineKind>,
    pub generation: u64,
    pub inventory_pending: bool,
    pub dynamic_ready: bool,
}

/// How a round goes on.
pub enum CollectStep {
    /// It is done.
    Done(GpuCollectOutcome),
    /// The counters are collected.
    Counters,
}

/// The generation that follows another: never zero, and never the same.
pub open spec fn next_generation(generation: u64) -> u64 {
    if generation == u64::MAX {
        1
    } else {
        (generation + 1) as u64
    }
}

/// Whether some issue says that a counter has no value yet.
pub open spec fn baseline_pending(issues: Seq<CounterItemIssue>) -> bool {
    exists|i: int|
        0 <= i < issues.len() && (#[trigger] issues[i]).error.pdh_status() == Some(
            PDH_CSTATUS_INVALID_DATA,
        )
}

fn copied_infos(infos: &Vec<Arc<GpuAdapterInfo>>) -> (copied: Vec<Arc<GpuAdapterInfo>>)
    ensures
        copied@ == infos@,
{
    let mut copied: Vec<Arc<GpuAdapterInfo>> = Vec::new();
    for index in 0..infos.len()
        invariant
            copied@ =~= infos@.take(index as int),
    {
        copied.push(Arc::clone(&infos[index]));
    }
    copied
}

impl GpuCollector {
    pub open spec fn well_formed(&self) -> bool {
        self.engine_kinds.well_formed()
    }

    pub fn new() -> (collector: Self)
        ensures
            collector.well_formed(),
            collector.topology is None,
            collector.query is None,
            collector.query_error is None,
            collector.engine_kinds@ == Map::<GpuEngineId, GpuEngineKind>::empty(),
            collector.generation == 0,
            !collector.inventory_pending,
            !collector.dynamic_ready,
    {
        GpuCollector {
            topology: None,
            query: None,
            query_error: None,
            engine_kinds: Table::new(),
            generation: 0,
            inventory_pending: false,
            dynamic_ready: false,
        }
    }

    /// Whether the list of adapters has to be made anew.
    pub fn is_stale(&self, is_current: bool) -> (stale: bool)
        ensures
            stale == (self.topology is None || !is_current),
    {
        self.topology.is_none() || !is_current
    }

    /// Takes over a new list of adapters and a new query, which was collected once. Without
    /// adapters there is no query, and `query` does not matter.
    pub fn rebuild(
        &mut self,
        topology: Result<Inventory, GpuSampleError>,
        query: Result<QueryState, GpuSampleError>,
    ) -> (outcome: Result<(), GpuSampleError>)
        requires
            old(self).well_formed(),
        ensures
            final(self).well_formed(),
            match topology {
                Err(error) => outcome == Err::<(), GpuSampleError>(error) && *final(self) == *old(
                    self,
                ),
                Ok(inventory) => {
                    &&& outcome is Ok
                    &&& final(self).topology == Some(inventory)
                    &&& final(self).query == match query {
                        Ok(query) if inventory.infos@.len() > 0 => Some(query),
                        _ => None,
                    }
                    &&& final(self).query_error == match query {
                        Err(error) if inventory.infos@.len() > 0 => Some(error),
                        _ => None,
                    }
                    &&& final(self).engine_kinds@ == Map::<GpuEngineId, GpuEngineKind>::empty()
                    &&& final(self).generation == next_generation(old(self).generation)
                    &&& final(self).generation != 0
                    &&& final(self).generation != old(self).generation
                    &&& final(self).inventory_pending
                    &&& !final(self).dynamic_ready
                },
            },
    {
        let inventory = match topology {
            Ok(inventory) => inventory,
            Err(error) => return Err(error),
        };
        if inventory.infos.len() == 0 {
            self.query = None;
            self.query_error = None;
        } else {
            match query {
                Ok(query) => {
                    self.query = Some(query);
                    self.query_error = None;
                },
                Err(error) => {
                    self.query = None;
                    self.query_error = Some(error);
                },
            }
        }
        self.topology = Some(inventory);
        self.engine_kinds = Table::new();
        let next: u64 = self.generation.wrapping_add(1);
        self.generation = if next < 1 {
            1
        } else {
            next
        };
        self.inventory_pending = true;
        self.dynamic_ready = false;
        Ok(())
    }

    /// Starts a round. A new list of adapters is handed on before anything is sampled.
    pub fn collect(&mut self, timestamp_ms: u64) -> (outcome: Result<CollectStep, GpuSampleError>)
        requires
            old(self).well_formed(),
        ensures
            final(self).well_formed(),
            *final(self) == (GpuCollector {
                inventory_pending: old(self).inventory_pending && old(self).topology is None,
                ..*old(self)
            }),
            match old(self).topology {
                None => outcome == Err::<CollectStep, GpuSampleError>(
                    GpuSampleError::InvalidData { context: "GPU topology commit" },
                ),
                Some(topology) => if old(self).inventory_pending {
                    outcome matches Ok(CollectStep::Done(GpuCollectOutcome::Inventory(snapshot)))
                        && snapshot.generation == old(self).generation && snapshot.adapters@
                        == topology.infos@
                } else if topology.infos@.len() == 0 {
                    outcome matches Ok(CollectStep::Done(GpuCollectOutcome::Dynamic(snapshot)))
                        && snapshot.generation == old(self).generation && snapshot.timestamp_ms
                        == timestamp_ms && snapshot.adapters@.len() == 0
                } else if let Some(error) = old(self).query_error {
                    outcome == Err::<CollectStep, GpuSampleError>(error)
                } else if old(self).query is None {
                    outcome == Err::<CollectStep, GpuSampleError>(
                        GpuSampleError::InvalidData { context: "GPU PDH query state" },
                    )
                } else {
                    outcome == Ok::<CollectStep, GpuSampleError>(CollectStep::Counters)
                },
            },
    {
        let infos = match &self.topology {
            Some(topology) => &topology.infos,
            None => return Err(GpuSampleError::InvalidData { context: "GPU topology commit" }),
        };
        if self.inventory_pending {
            let adapters = copied_infos(infos);
            self.inventory_pending = false;
            return Ok(
                CollectStep::Done(
                    GpuCollectOutcome::Inventory(
                        GpuInventorySnapshot { generation: self.generation, adapters },
                    ),
                ),
            );
        }
        if infos.len() == 0 {
            return Ok(
                CollectStep::Done(
                    GpuCollectOutcome::Dynamic(
                        GpuDynamicSnapshot {
                            generation: self.generation,
                            timestamp_ms,
                            adapters: Vec::new(),
                        },
                    ),
                ),
            );
        }
        if let Some(error) = self.query_error {
            return Err(error);
        }
        if self.query.is_none() {
            return Err(GpuSampleError::InvalidData { context: "GPU PDH query state" });
        }
        Ok(CollectStep::Counters)
    }

    /// Notes that the counters were collected, with the status of it, and tells whether they
    /// have values.
    pub fn collect_counters(&mut self, status: u32) -> (outcome: Result<bool, GpuSampleError>)
        requires
            old(self).well_formed(),
        ensures
            final(self).well_formed(),
            match old(self).query {
                None => outcome == Err::<bool, GpuSampleError>(
                    GpuSampleError::InvalidData { context: "GPU PDH query state" },
                ) && *final(self) == *old(self),
                Some(query) => if query.has_counter() && status != ERROR_SUCCESS {
                    outcome == Err::<bool, GpuSampleError>(
                        GpuSampleError::Pdh {
                            context: "PdhCollectQueryData for GPU counters",
                            status,
                        },
                    ) && *final(self) == *old(self)
                } else {
                    outcome == Ok::<bool, GpuSampleError>(!query.has_counter() || query.primed)
                        && *final(self) == (GpuCollector {
                        query: Some(QueryState { primed: true, ..query }),
                        ..*old(self)
                    })
                },
            },
    {
        match &mut self.query {
            None => Err(GpuSampleError::InvalidData { context: "GPU PDH query state" }),
            Some(query) => query.collect(status),
        }
    }

    /// Whether the engines still have no value, as long as there was none before.
    pub fn awaits_baseline<U: Utilization>(&self, engines: &CounterRead<EngineReading<U>>) -> (awaits:
        bool)
        ensures
            awaits == (!self.dynamic_ready && engines.values@.len() == 0 && baseline_pending(
                engines.issues@,
            )),
    {
        if self.dynamic_ready || engines.values.len() > 0 {
            return false;
        }
        for index in 0..engines.issues.len()
            invariant
                !self.dynamic_ready,
                engines.values@.len() == 0,
                forall|i: int|
                    0 <= i < index ==> (#[trigger] engines.issues@[i]).error.pdh_status() != Some(
                        PDH_CSTATUS_INVALID_DATA,
                    ),
        {
            if engines.issues[index].error.is_baseline_pending() {
                return true;
            }
        }
        false
    }

    /// Makes a snapshot of what the counters delivered.
    pub fn finish<U: Utilization>(
        &mut self,
        engines: CounterRead<EngineReading<U>>,
        dedicated: CounterRead<MemoryReading>,
        shared: CounterRead<MemoryReading>,
        temperatures: Vec<TemperatureReading>,
        timestamp_ms: u64,
    ) -> (outcome: Result<GpuCounterSnapshot, GpuSampleError>)
        requires
            old(self).well_formed(),
        ensures
            final(self).well_formed(),
            match old(self).topology {
                None => outcome == Err::<GpuCounterSnapshot, GpuSampleError>(
                    GpuSampleError::InvalidData { context: "GPU topology commit" },
                ) && *final(self) == *old(self),
                Some(topology) => {
                    let all = readings(
                        topology.infos@,
                        topology.known_luids@,
                        engines@,
                        dedicated@,
                        shared@,
                        temperatures@,
                    );
                    let known = kind_views(old(self).engine_kinds@);
                    &&& outcome matches Ok(snapshot)
                    &&& snapshot.generation == old(self).generation
                    &&& snapshot.timestamp_ms == timestamp_ms
                    &&& snapshot.adapters@.len() == topology.infos@.len()
                    &&& exists|samples: Seq<GpuCounterSample>|
                        {
                            &&& samples.len() == topology.infos@.len()
                            &&& forall|i: int|
                                0 <= i < samples.len() ==> is_sample(
                                    #[trigger] samples[i],
                                    all,
                                    topology.infos@[i],
                                    displayed_ids(topology.infos@).take(i).contains(
                                        topology.infos@[i].id,
                                    ),
                                )
                            &&& forall|i: int|
                                0 <= i < samples.len() ==> keeps_known_kinds(
                                    #[trigger] snapshot.adapters@[i],
                                    samples[i],
                                    kinds_after(known, samples.take(i)),
                                )
                            &&& kind_views(final(self).engine_kinds@) == #[trigger] kinds_after(
                                known,
                                samples,
                            )
                        }
                    &&& *final(self) == (GpuCollector {
                        engine_kinds: final(self).engine_kinds,
                        dynamic_ready: true,
                        ..*old(self)
                    })
                },
            },
    {
        let (infos, luids) = match &self.topology {
            Some(topology) => (&topology.infos, &topology.known_luids),
            None => return Err(GpuSampleError::InvalidData { context: "GPU topology commit" }),
        };
        let samples = match assemble_counter_samples(
            infos.as_slice(),
            luids.as_slice(),
            engines,
            dedicated,
            shared,
            temperatures,
        ) {
            Ok(samples) => samples,
            Err(error) => return Err(error),
        };
        let ghost assembled = samples@;
        let ghost known = kind_views(self.engine_kinds@);
        let (kinds, adapters) = keep_known_kinds(&self.engine_kinds, samples);
        self.engine_kinds = kinds;
        self.dynamic_ready = true;
        assert(kind_views(self.engine_kinds@) == kinds_after(known, assembled));
        Ok(GpuCounterSnapshot { generation: self.generation, timestamp_ms, adapters })
    }
}

/// The error that keeps a sample from being complete: the first issue other than about its
/// temperature.
pub open spec fn fault_of(sample: GpuCounterSample) -> Option<GpuSampleError> {
    match first_fault(issue_views(sample.row_errors@)) {
        Some(error) => Some(error),
        None => if sample.overall_utilization_percent is Some && sample.dedicated_usage_bytes
            is Some && sample.shared_usage_bytes is Some {
            None
        } else {
            Some(GpuSampleError::InvalidData { context: "GPU dynamic adapter completeness" })
        },
    }
}

pub open spec fn first_fault_of(samples: Seq<GpuCounterSample>) -> Option<GpuSampleError>
    decreases samples.len(),
{
    if samples.len() == 0 {
        None
    } else {
        match first_fault_of(samples.drop_last()) {
            Some(error) => Some(error),
            None => fault_of(samples.last()),
        }
    }
}

/// Whether a complete sample says what the counters said.
pub open spec fn completes(complete: GpuAdapterSample, sample: GpuCounterSample) -> bool {
    &&& complete.info == sample.info
    &&& sample.overall_utilization_percent == Some(complete.overall_utilization_percent)
    &&& complete.engines == sample.engines
    &&& sample.dedicated_usage_bytes == Some(complete.dedicated_usage_bytes)
    &&& sample.shared_usage_bytes == Some(complete.shared_usage_bytes)
    &&& complete.temperature_deci_c == sample.temperature_deci_c
    &&& complete.row_errors@ == error_views(issue_views(sample.row_errors@))
}

proof fn lemma_fault_stays(samples: Seq<GpuCounterSample>, n: int)
    requires
        0 <= n <= samples.len(),
        first_fault_of(samples.take(n)) is Some,
    ensures
        first_fault_of(samples) == first_fault_of(samples.take(n)),
    decreases samples.len(),
{
    if n == samples.len() {
        assert(samples.take(n) =~= samples);
    } else {
        assert(samples.drop_last().take(n) =~= samples.take(n));
        lemma_fault_stays(samples.drop_last(), n);
    }
}

/// The snapshot with complete samples; a sample that is not complete leaves no snapshot.
pub fn complete_snapshot(snapshot: GpuCounterSnapshot) -> (outcome: Result<
    GpuDynamicSnapshot,
    GpuSampleError,
>)
    ensures
        match first_fault_of(snapshot.adapters@) {
            Some(error) => outcome == Err::<GpuDynamicSnapshot, GpuSampleError>(error),
            None => {
                &&& outcome matches Ok(complete)
                &&& complete.generation == snapshot.generation
                &&& complete.timestamp_ms == snapshot.timestamp_ms
                &&& complete.adapters@.len() == snapshot.adapters@.len()
                &&& forall|i: int|
                    0 <= i < complete.adapters@.len() ==> completes(
                        #[trigger] complete.adapters@[i],
                        snapshot.adapters@[i],
                    )
            },
        },
{
    let generation: u64 = snapshot.generation;
    let timestamp_ms: u64 = snapshot.timestamp_ms;
    let ghost given = snapshot.adapters@;
    let mut rest = snapshot.adapters;
    let mut adapters: Vec<GpuAdapterSample> = Vec::new();
    let count: usize = rest.len();
    assert(given.take(0) =~= Seq::<GpuCounterSample>::empty());
    for index in 0..count
        invariant
            given == snapshot.adapters@,
            count == given.len(),
            rest@ == given.skip(index as int),
            first_fault_of(given.take(index as int)) is None,
            adapters@.len() == index,
            forall|i: int| 0 <= i < index ==> completes(#[trigger] adapters@[i], given[i]),
    {
        let sample = rest.remove(0);
        proof {
            assert(rest@ =~= given.skip(index + 1));
            assert(sample == given[index as int]);
            assert(given.take(index + 1).drop_last() =~= given.take(index as int));
            if fault_of(sample) is Some {
                lemma_fault_stays(given, index + 1);
            }
        }
        if let Some(error) = find_fault(&sample.row_errors) {
            return Err(error);
        }
        let row_errors = errors_of(&sample.row_errors);
        match (
            sample.overall_utilization_percent,
            sample.dedicated_usage_bytes,
            sample.shared_usage_bytes,
        ) {
            (Some(overall), Some(dedicated), Some(shared)) => {
                adapters.push(
                    GpuAdapterSample {
                        info: sample.info,
                        overall_utilization_percent: overall,
                        engines: sample.engines,
                        dedicated_usage_bytes: dedicated,
                        shared_usage_bytes: shared,
                        temperature_deci_c: sample.temperature_deci_c,
                        row_errors,
                    },
                );
            },
            _ => {
                return Err(
                    GpuSampleError::InvalidData { context: "GPU dynamic adapter completeness" },
                );
            },
        }
    }
    assert(given.take(count as int) =~= given);
    Ok(GpuDynamicSnapshot { generation, timestamp_ms, adapters })
}

} // verus!
