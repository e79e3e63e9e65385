//! Assembly of counter readings into one sample per adapter.
//!
//! Every source stands on its own: what one of them did not deliver is reported as an issue and
//! stays missing, and never becomes a zero.
use std::sync::Arc;

use vstd::prelude::*;

use super::instances::{
    adapter_id_from_instance, engine_instance, instance_adapter, memory_instance,
    parse_engine_instance, parse_memory_instance, EngineInstanceView, ParsedEngineInstance,
};
use super::model::{
    name_view, AdapterLuid, EngineKindView, EngineSampleView, GpuAdapterId, GpuAdapterInfo,
    GpuAdapterSample, GpuCounterSample, GpuEngineId, GpuEngineKind, GpuEngineSample,
    GpuSampleError, GpuSampleIssue, GpuSampleSource, IssueView,
};
use crate::percent::Utilization;
use crate::seqs::lemma_push_contains;
use crate::table::{has_key, lemma_has_key_prefix, Key, Table};

verus! {

impl Key for GpuAdapterId {
    fn same(&self, other: &Self) -> (same: bool) {
        *self == *other
    }
}

impl Key for GpuEngineId {
    fn same(&self, other: &Self) -> (same: bool) {
        *self == *other
    }
}

/// What a process used of an engine.
#[derive(Clone, Debug, PartialEq, Eq)]
pub struct EngineReading<U> {
    pub instance_name: String,
    pub utilization: U,
}

/// How much memory of an adapter is in use.
#[derive(Clone, Debug, PartialEq, Eq)]
pub struct MemoryReading {
    pub instance_name: String,
    pub bytes: i64,
}

/// A reading that came without a usable value.
#[derive(Clone, Debug, PartialEq, Eq)]
pub struct CounterItemIssue {
    pub instance_name: Option<String>,
    pub error: GpuSampleError,
}

/// What one counter delivered.
#[derive(Clone, Debug, PartialEq, Eq)]
pub struct CounterRead<T> {
    pub values: Vec<T>,
    pub issues: Vec<CounterItemIssue>,
}

pub struct CounterReadView<T> {
    pub values: Seq<T>,
    pub issues: Seq<CounterItemIssue>,
}

impl<T> View for CounterRead<T> {
    type V = CounterReadView<T>;

    open spec fn view(&self) -> CounterReadView<T> {
        CounterReadView { values: self.values@, issues: self.issues@ }
    }
}

/// What a counter delivered that had a usable value for every instance.
pub open spec fn all_usable<T>(values: Seq<T>) -> CounterReadView<T> {
    CounterReadView { values, issues: Seq::empty() }
}

impl<T> CounterRead<T> {
    pub fn values(values: Vec<T>) -> (read: Self)
        ensures
            read@ == all_usable(values@),
    {
        let read = CounterRead { values, issues: Vec::new() };
        assert(read.issues@ =~= Seq::<CounterItemIssue>::empty());
        read
    }

    /// What is read of a counter that failed as a whole.
    pub fn source_error(error: GpuSampleError) -> (read: Self)
        ensures
            read.values@ == Seq::<T>::empty(),
            read.issues@ == seq![CounterItemIssue { instance_name: None, error }],
    {
        let mut issues: Vec<CounterItemIssue> = Vec::new();
        issues.push(CounterItemIssue { instance_name: None, error });
        assert(issues@ =~= seq![CounterItemIssue { instance_name: None, error }]);
        CounterRead { values: Vec::new(), issues }
    }
}

/// What the query of an adapter's temperature returned.
#[derive(Clone, Copy, Debug, PartialEq, Eq)]
pub struct TemperatureReading {
    pub id: GpuAdapterId,
    pub result: Result<Option<u32>, GpuSampleError>,
}

/// The issues noted so far: those that concern every adapter, and those of single adapters.
pub struct IssueLists {
    pub global: Seq<IssueView>,
    pub rows: Seq<IssueView>,
}

pub open spec fn issue(
    adapter_id: Option<GpuAdapterId>,
    source: GpuSampleSource,
    instance_name: Option<Seq<char>>,
    context: &'static str,
) -> IssueView {
    IssueView {
        adapter_id,
        source,
        instance_name,
        error: GpuSampleError::InvalidData { context },
    }
}

impl IssueLists {
    pub open spec fn with_global(self, noted: IssueView) -> IssueLists {
        IssueLists { global: self.global.push(noted), ..self }
    }

    pub open spec fn with_row(self, noted: IssueView) -> IssueLists {
        IssueLists { rows: self.rows.push(noted), ..self }
    }

    /// The lists after a reading that came without a usable value. It is an issue of the adapter
    /// that its instance names, where that one is displayed, and of every adapter otherwise.
    pub open spec fn with_item_issue(
        self,
        source: GpuSampleSource,
        item: CounterItemIssue,
        displayed: Seq<GpuAdapterId>,
    ) -> IssueLists {
        let adapter_id = match item.instance_name {
            Some(name) => instance_adapter(source, name@),
            None => None,
        };
        let noted = IssueView {
            adapter_id,
            source,
            instance_name: name_view(item.instance_name),
            error: item.error,
        };
        if adapter_id is Some && displayed.contains(adapter_id->0) {
            self.with_row(noted)
        } else {
            self.with_global(noted)
        }
    }

    pub open spec fn with_item_issues(
        self,
        source: GpuSampleSource,
        items: Seq<CounterItemIssue>,
        displayed: Seq<GpuAdapterId>,
    ) -> IssueLists
        decreases items.len(),
    {
        if items.len() == 0 {
            self
        } else {
            self.with_item_issues(source, items.drop_last(), displayed).with_item_issue(
                source,
                items.last(),
                displayed,
            )
        }
    }
}

/// What has been made of the engine readings so far.
pub struct EngineTotals<U> {
    pub issues: IssueLists,
    pub seen: Set<EngineInstanceView>,
    pub engines: Map<GpuEngineId, (EngineKindView, U)>,
}

/// What is made of one more engine reading.
pub open spec fn with_engine_reading<U: Utilization>(
    totals: EngineTotals<U>,
    name: Seq<char>,
    utilization: U,
    known: Seq<AdapterLuid>,
    displayed: Seq<GpuAdapterId>,
) -> EngineTotals<U> {
    let source = GpuSampleSource::Engine;
    match engine_instance(name) {
        Err(error) => EngineTotals {
            issues: totals.issues.with_global(
                IssueView { adapter_id: None, source, instance_name: Some(name), error },
            ),
            ..totals
        },
        Ok(instance) => {
            let adapter = instance.id.adapter;
            let here = Some(adapter);
            if !known.contains(adapter.luid) {
                EngineTotals {
                    issues: totals.issues.with_global(
                        issue(here, source, Some(name), "GPU engine references unknown LUID"),
                    ),
                    ..totals
                }
            } else if !displayed.contains(adapter) {
                totals
            } else if totals.seen.contains(instance) {
                EngineTotals {
                    issues: totals.issues.with_row(
                        issue(here, source, Some(name), "duplicate GPU engine process instance"),
                    ),
                    ..totals
                }
            } else {
                let seen = totals.seen.insert(instance);
                if !utilization.valid() {
                    EngineTotals {
                        issues: totals.issues.with_row(
                            issue(here, source, Some(name), "GPU engine utilization value"),
                        ),
                        seen,
                        ..totals
                    }
                } else if totals.engines.contains_key(instance.id) && totals.engines[instance.id].0
                    != instance.kind {
                    EngineTotals {
                        issues: totals.issues.with_row(
                            issue(
                                here,
                                source,
                                Some(name),
                                "GPU engine type changed within one snapshot",
                            ),
                        ),
                        seen,
                        ..totals
                    }
                } else {
                    let base = if totals.engines.contains_key(instance.id) {
                        totals.engines[instance.id].1
                    } else {
                        U::nothing()
                    };
                    match base.total(utilization) {
                        Some(sum) => EngineTotals {
                            seen,
                            engines: totals.engines.insert(instance.id, (instance.kind, sum)),
                            ..totals
                        },
                        None => EngineTotals {
                            issues: totals.issues.with_row(
                                issue(here, source, Some(name), "GPU engine utilization aggregate"),
                            ),
                            seen,
                            engines: totals.engines.remove(instance.id),
                        },
                    }
                }
            }
        },
    }
}

pub open spec fn with_engine_readings<U: Utilization>(
    totals: EngineTotals<U>,
    readings: Seq<EngineReading<U>>,
    known: Seq<AdapterLuid>,
    displayed: Seq<GpuAdapterId>,
) -> EngineTotals<U>
    decreases readings.len(),
{
    if readings.len() == 0 {
        totals
    } else {
        with_engine_reading(
            with_engine_readings(totals, readings.drop_last(), known, displayed),
            readings.last().instance_name@,
            readings.last().utilization,
            known,
            displayed,
        )
    }
}

/// What has been made of the memory readings of one source so far. An adapter with a reading
/// that cannot be used, or with two readings, has no value.
pub struct MemoryTotals {
    pub issues: IssueLists,
    pub values: Map<GpuAdapterId, u64>,
    pub invalid: Set<GpuAdapterId>,
}

pub open spec fn with_memory_reading(
    totals: MemoryTotals,
    name: Seq<char>,
    bytes: i64,
    known: Seq<AdapterLuid>,
    displayed: Seq<GpuAdapterId>,
    source: GpuSampleSource,
    duplicate: &'static str,
) -> MemoryTotals {
    match memory_instance(name) {
        Err(error) => MemoryTotals {
            issues: totals.issues.with_global(
                IssueView { adapter_id: None, source, instance_name: Some(name), error },
            ),
            ..totals
        },
        Ok(id) => if !known.contains(id.luid) {
            MemoryTotals {
                issues: totals.issues.with_global(
                    issue(Some(id), source, Some(name), "GPU memory references unknown LUID"),
                ),
                ..totals
            }
        } else if !displayed.contains(id) {
            totals
        } else if bytes < 0 {
            MemoryTotals {
                issues: totals.issues.with_row(
                    issue(Some(id), source, Some(name), "GPU memory usage conversion"),
                ),
                values: totals.values.remove(id),
                invalid: totals.invalid.insert(id),
            }
        } else if totals.invalid.contains(id) || totals.values.contains_key(id) {
            MemoryTotals {
                issues: totals.issues.with_row(issue(Some(id), source, Some(name), duplicate)),
                values: totals.values.remove(id),
                invalid: totals.invalid.insert(id),
            }
        } else {
            MemoryTotals { values: totals.values.insert(id, bytes as u64), ..totals }
        },
    }
}

pub open spec fn with_memory_readings(
    totals: MemoryTotals,
    readings: Seq<MemoryReading>,
    known: Seq<AdapterLuid>,
    displayed: Seq<GpuAdapterId>,
    source: GpuSampleSource,
    duplicate: &'static str,
) -> MemoryTotals
    decreases readings.len(),
{
    if readings.len() == 0 {
        totals
    } else {
        with_memory_reading(
            with_memory_readings(
                totals,
                readings.drop_last(),
                known,
                displayed,
                source,
                duplicate,
            ),
            readings.last().instance_name@,
            readings.last().bytes,
            known,
            displayed,
            source,
            duplicate,
        )
    }
}

/// What one memory counter says of the displayed adapters, with the issues noted on the way.
pub open spec fn memory_totals(
    issues: IssueLists,
    read: CounterReadView<MemoryReading>,
    known: Seq<AdapterLuid>,
    displayed: Seq<GpuAdapterId>,
    source: GpuSampleSource,
    duplicate: &'static str,
) -> MemoryTotals {
    with_memory_readings(
        MemoryTotals {
            issues: issues.with_item_issues(source, read.issues, displayed),
            values: Map::empty(),
            invalid: Set::empty(),
        },
        read.values,
        known,
        displayed,
        source,
        duplicate,
    )
}

pub open spec fn engine_totals<U: Utilization>(
    read: CounterReadView<EngineReading<U>>,
    known: Seq<AdapterLuid>,
    displayed: Seq<GpuAdapterId>,
) -> EngineTotals<U> {
    with_engine_readings(
        EngineTotals {
            issues: IssueLists { global: Seq::empty(), rows: Seq::empty() }.with_item_issues(
                GpuSampleSource::Engine,
                read.issues,
                displayed,
            ),
            seen: Set::empty(),
            engines: Map::empty(),
        },
        read.values,
        known,
        displayed,
    )
}

pub open spec fn dedicated_totals(
    issues: IssueLists,
    read: CounterReadView<MemoryReading>,
    known: Seq<AdapterLuid>,
    displayed: Seq<GpuAdapterId>,
) -> MemoryTotals {
    memory_totals(
        issues,
        read,
        known,
        displayed,
        GpuSampleSource::DedicatedMemory,
        "duplicate dedicated GPU memory instance",
    )
}

pub open spec fn shared_totals(
    issues: IssueLists,
    read: CounterReadView<MemoryReading>,
    known: Seq<AdapterLuid>,
    displayed: Seq<GpuAdapterId>,
) -> MemoryTotals {
    memory_totals(
        issues,
        read,
        known,
        displayed,
        GpuSampleSource::SharedMemory,
        "duplicate shared GPU memory instance",
    )
}

pub open spec fn displayed_ids(infos: Seq<Arc<GpuAdapterInfo>>) -> Seq<GpuAdapterId> {
    infos.map_values(|info: Arc<GpuAdapterInfo>| info.id)
}

/// The first result for an adapter, if there is one.
pub open spec fn temperature_for(
    readings: Seq<TemperatureReading>,
    id: GpuAdapterId,
) -> Option<Result<Option<u32>, GpuSampleError>>
    decreases readings.len(),
{
    if readings.len() == 0 {
        None
    } else if readings[0].id == id {
        Some(readings[0].result)
    } else {
        temperature_for(readings.drop_first(), id)
    }
}

/// Everything that the counters say, before it is split by adapter.
pub struct Readings<U> {
    pub engines: Map<GpuEngineId, (EngineKindView, U)>,
    pub dedicated: Map<GpuAdapterId, u64>,
    pub shared: Map<GpuAdapterId, u64>,
    pub issues: IssueLists,
    pub temperatures: Seq<TemperatureReading>,
}

pub open spec fn readings<U: Utilization>(
    infos: Seq<Arc<GpuAdapterInfo>>,
    known: Seq<AdapterLuid>,
    engine_read: CounterReadView<EngineReading<U>>,
    dedicated_read: CounterReadView<MemoryReading>,
    shared_read: CounterReadView<MemoryReading>,
    temperatures: Seq<TemperatureReading>,
) -> Readings<U> {
    let displayed = displayed_ids(infos);
    let engines = engine_totals(engine_read, known, displayed);
    let dedicated = dedicated_totals(engines.issues, dedicated_read, known, displayed);
    let shared = shared_totals(dedicated.issues, shared_read, known, displayed);
    Readings {
        engines: engines.engines,
        dedicated: dedicated.values,
        shared: shared.values,
        issues: shared.issues,
        temperatures,
    }
}

pub open spec fn rows_of(rows: Seq<IssueView>, id: GpuAdapterId) -> Seq<IssueView> {
    rows.filter(|noted: IssueView| noted.adapter_id == Some(id))
}

pub open spec fn temperature_issues(
    id: GpuAdapterId,
    found: Option<Result<Option<u32>, GpuSampleError>>,
) -> Seq<IssueView> {
    match found {
        Some(Ok(_)) => Seq::empty(),
        Some(Err(error)) => seq![
            IssueView {
                adapter_id: Some(id),
                source: GpuSampleSource::Temperature,
                instance_name: None,
                error,
            },
        ],
        None => seq![
            issue(
                Some(id),
                GpuSampleSource::Temperature,
                None,
                "missing GPU temperature query result",
            ),
        ],
    }
}

pub open spec fn missing_issues(
    id: GpuAdapterId,
    source: GpuSampleSource,
    value: Option<u64>,
    context: &'static str,
) -> Seq<IssueView> {
    if value is Some {
        Seq::empty()
    } else {
        seq![issue(Some(id), source, None, context)]
    }
}

pub open spec fn value_of(values: Map<GpuAdapterId, u64>, id: GpuAdapterId) -> Option<u64> {
    if values.contains_key(id) {
        Some(values[id])
    } else {
        None
    }
}

/// The issues of the adapter `id`: those of every adapter, its own, and what is missing. The
/// entries of one adapter are handed out once, so that a second row for it has none.
pub open spec fn sample_issues<U>(
    all: Readings<U>,
    id: GpuAdapterId,
    repeated: bool,
) -> Seq<IssueView> {
    all.issues.global + (if repeated {
        Seq::empty()
    } else {
        rows_of(all.issues.rows, id)
    }) + temperature_issues(id, sample_temperature(all, id, repeated)) + missing_issues(
        id,
        GpuSampleSource::DedicatedMemory,
        value_of(all.dedicated, id),
        "missing dedicated GPU memory instance",
    ) + missing_issues(
        id,
        GpuSampleSource::SharedMemory,
        value_of(all.shared, id),
        "missing shared GPU memory instance",
    )
}

pub open spec fn sample_temperature<U>(all: Readings<U>, id: GpuAdapterId, repeated: bool) -> Option<
    Result<Option<u32>, GpuSampleError>,
> {
    if repeated {
        None
    } else {
        temperature_for(all.temperatures, id)
    }
}

/// Whether `samples` are exactly the engines of the adapter `id`, ordered by ordinal.
pub open spec fn lists_engines<U: Utilization>(
    samples: Seq<GpuEngineSample>,
    engines: Map<GpuEngineId, (EngineKindView, U)>,
    id: GpuAdapterId,
) -> bool {
    &&& forall|i: int|
        0 <= i < samples.len() ==> {
            let sample = #[trigger] samples[i];
            &&& sample.id.adapter == id
            &&& engines.contains_key(sample.id)
            &&& sample.kind@ == engines[sample.id].0
            &&& sample.utilization_percent == engines[sample.id].1.displayed()
            &&& sample.utilization_percent <= 100
        }
    &&& by_ordinal(samples)
    &&& forall|engine: GpuEngineId| #[trigger]
        engines.contains_key(engine) && engine.adapter == id ==> exists|i: int|
            0 <= i < samples.len() && (#[trigger] samples[i]).id == engine
}

/// Whether `percent` is the largest utilization among the engines; zero where there are none.
pub open spec fn is_busiest(percent: u8, samples: Seq<GpuEngineSample>) -> bool {
    &&& forall|i: int|
        0 <= i < samples.len() ==> (#[trigger] samples[i]).utilization_percent <= percent
    &&& percent == 0 || exists|i: int|
        0 <= i < samples.len() && (#[trigger] samples[i]).utilization_percent == percent
}

pub open spec fn concerns_engines(issues: Seq<IssueView>) -> bool {
    exists|i: int|
        0 <= i < issues.len() && (#[trigger] issues[i]).source == GpuSampleSource::Engine
}

pub open spec fn issue_views(issues: Seq<GpuSampleIssue>) -> Seq<IssueView> {
    issues.map_values(|noted: GpuSampleIssue| noted@)
}

/// Whether `sample` is what the readings say of one adapter.
pub open spec fn is_sample<U: Utilization>(
    sample: GpuCounterSample,
    all: Readings<U>,
    info: Arc<GpuAdapterInfo>,
    repeated: bool,
) -> bool {
    let issues = sample_issues(all, info.id, repeated);
    &&& sample.info == info
    &&& issue_views(sample.row_errors@) == issues
    &&& if repeated {
        sample.engines@ == Seq::<GpuEngineSample>::empty()
    } else {
        lists_engines(sample.engines@, all.engines, info.id)
    }
    &&& match sample.overall_utilization_percent {
        Some(percent) => !concerns_engines(issues) && is_busiest(percent, sample.engines@),
        None => concerns_engines(issues),
    }
    &&& sample.dedicated_usage_bytes == value_of(all.dedicated, info.id)
    &&& sample.shared_usage_bytes == value_of(all.shared, info.id)
    &&& sample.temperature_deci_c == match sample_temperature(all, info.id, repeated) {
        Some(Ok(value)) => value,
        _ => None,
    }
}

/// The issues noted so far.
struct IssueLog {
    global: Vec<GpuSampleIssue>,
    rows: Vec<GpuSampleIssue>,
}

impl View for IssueLog {
    type V = IssueLists;

    closed spec fn view(&self) -> IssueLists {
        IssueLists { global: issue_views(self.global@), rows: issue_views(self.rows@) }
    }
}

impl IssueLog {
    fn new() -> (log: Self)
        ensures
            log@ == (IssueLists { global: Seq::empty(), rows: Seq::empty() }),
    {
        let log = IssueLog { global: Vec::new(), rows: Vec::new() };
        assert(log@.global =~= Seq::<IssueView>::empty());
        assert(log@.rows =~= Seq::<IssueView>::empty());
        log
    }

    fn push_global(&mut self, noted: GpuSampleIssue)
        ensures
            final(self)@ == old(self)@.with_global(noted@),
    {
        self.global.push(noted);
        assert(self@.global =~= old(self)@.global.push(noted@));
    }

    fn push_row(&mut self, noted: GpuSampleIssue)
        ensures
            final(self)@ == old(self)@.with_row(noted@),
    {
        self.rows.push(noted);
        assert(self@.rows =~= old(self)@.rows.push(noted@));
    }

    fn push_invalid_row(
        &mut self,
        id: GpuAdapterId,
        source: GpuSampleSource,
        name: &String,
        context: &'static str,
    )
        ensures
            final(self)@ == old(self)@.with_row(issue(Some(id), source, Some(name@), context)),
    {
        self.push_row(
            GpuSampleIssue::new(
                Some(id),
                source,
                Some(name.clone()),
                GpuSampleError::InvalidData { context },
            ),
        );
    }

    fn collect_counter_issues(
        &mut self,
        source: GpuSampleSource,
        issues: &Vec<CounterItemIssue>,
        displayed: &Vec<GpuAdapterId>,
    )
        ensures
            final(self)@ == old(self)@.with_item_issues(source, issues@, displayed@),
    {
        for index in 0..issues.len()
            invariant
                self@ == old(self)@.with_item_issues(
                    source,
                    issues@.take(index as int),
                    displayed@,
                ),
        {
            assert(issues@.take(index + 1).drop_last() =~= issues@.take(index as int));
            let item = &issues[index];
            let adapter_id = match &item.instance_name {
                Some(name) => adapter_id_from_instance(source, name.as_str()),
                None => None,
            };
            let instance_name = match &item.instance_name {
                Some(name) => Some(name.clone()),
                None => None,
            };
            let noted = GpuSampleIssue::new(adapter_id, source, instance_name, item.error);
            let own_row = match adapter_id {
                Some(id) => contains_id(displayed, id),
                None => false,
            };
            if own_row {
                self.push_row(noted);
            } else {
                self.push_global(noted);
            }
        }
        assert(issues@.take(issues@.len() as int) =~= issues@);
    }
}

pub(crate) fn contains_id(ids: &Vec<GpuAdapterId>, id: GpuAdapterId) -> (found: bool)
    ensures
        found == ids@.contains(id),
{
    for index in 0..ids.len()
        invariant
            forall|i: int| 0 <= i < index ==> ids@[i] != id,
    {
        if ids[index] == id {
            return true;
        }
    }
    false
}

pub(crate) fn contains_luid(luids: &[AdapterLuid], luid: AdapterLuid) -> (found: bool)
    ensures
        found == luids@.contains(luid),
{
    for index in 0..luids.len()
        invariant
            forall|i: int| 0 <= i < index ==> luids@[i] != luid,
    {
        if luids[index] == luid {
            return true;
        }
    }
    false
}

/// What has been made of the engine readings so far.
struct EngineState<U> {
    log: IssueLog,
    seen: Vec<ParsedEngineInstance>,
    engines: Table<GpuEngineId, (GpuEngineKind, U)>,
}

spec fn instance_set(seen: Seq<ParsedEngineInstance>) -> Set<EngineInstanceView> {
    Set::new(
        |instance: EngineInstanceView|
            exists|i: int| 0 <= i < seen.len() && #[trigger] seen[i]@ == instance,
    )
}

spec fn engine_views<U>(engines: Map<GpuEngineId, (GpuEngineKind, U)>) -> Map<
    GpuEngineId,
    (EngineKindView, U),
> {
    engines.map_values(|engine: (GpuEngineKind, U)| (engine.0@, engine.1))
}

impl<U> View for EngineState<U> {
    type V = EngineTotals<U>;

    closed spec fn view(&self) -> EngineTotals<U> {
        EngineTotals {
            issues: self.log@,
            seen: instance_set(self.seen@),
            engines: engine_views(self.engines@),
        }
    }
}

impl<U: Utilization> EngineState<U> {
    /// Whether the instance came before; it counts as seen from now on.
    fn note_instance(&mut self, parsed: &ParsedEngineInstance) -> (repeated: bool)
        ensures
            repeated == old(self)@.seen.contains(parsed@),
            final(self)@ == (EngineTotals {
                seen: old(self)@.seen.insert(parsed@),
                ..old(self)@
            }),
            final(self).engines == old(self).engines,
    {
        let ghost before = self.seen@;
        for index in 0..self.seen.len()
            invariant
                *self == *old(self),
                before == self.seen@,
                forall|i: int| 0 <= i < index ==> (#[trigger] before[i])@ != parsed@,
        {
            let known = &self.seen[index];
            if known.pid == parsed.pid && known.id == parsed.id && known.kind.same_as(
                &parsed.kind,
            ) {
                proof {
                    assert(before[index as int]@ == parsed@);
                    assert(self@.seen =~= old(self)@.seen.insert(parsed@));
                }
                return true;
            }
        }
        self.seen.push(
            ParsedEngineInstance { pid: parsed.pid, id: parsed.id, kind: parsed.kind.copied() },
        );
        proof {
            assert forall|instance: EngineInstanceView|
                instance_set(self.seen@).contains(instance) == instance_set(before).insert(
                    parsed@,
                ).contains(instance) by {
                assert(self.seen@[before.len() as int]@ == parsed@);
                if instance_set(before).contains(instance) {
                    let i = choose|i: int| 0 <= i < before.len() && #[trigger] before[i]@ == instance;
                    assert(self.seen@[i]@ == instance);
                }
                if instance_set(self.seen@).contains(instance) {
                    let i = choose|i: int|
                        0 <= i < self.seen@.len() && #[trigger] self.seen@[i]@ == instance;
                    if i < before.len() {
                        assert(before[i]@ == instance);
                    }
                }
            }
            assert(self@.seen =~= old(self)@.seen.insert(parsed@));
        }
        false
    }

    fn add_reading(
        &mut self,
        reading: &EngineReading<U>,
        known: &[AdapterLuid],
        displayed: &Vec<GpuAdapterId>,
    )
        requires
            old(self).engines.well_formed(),
        ensures
            final(self).engines.well_formed(),
            final(self)@ == with_engine_reading(
                old(self)@,
                reading.instance_name@,
                reading.utilization,
                known@,
                displayed@,
            ),
    {
        let source = GpuSampleSource::Engine;
        let parsed = match parse_engine_instance(reading.instance_name.as_str()) {
            Ok(parsed) => parsed,
            Err(error) => {
                self.log.push_global(
                    GpuSampleIssue::new(None, source, Some(reading.instance_name.clone()), error),
                );
                return;
            },
        };
        let adapter = parsed.id.adapter;
        if !contains_luid(known, adapter.luid) {
            self.log.push_global(
                GpuSampleIssue::new(
                    Some(adapter),
                    source,
                    Some(reading.instance_name.clone()),
                    GpuSampleError::InvalidData { context: "GPU engine references unknown LUID" },
                ),
            );
            return;
        }
        if !contains_id(displayed, adapter) {
            return;
        }
        if self.note_instance(&parsed) {
            proof {
                assert(self@.seen =~= old(self)@.seen);
            }
            self.log.push_invalid_row(
                adapter,
                source,
                &reading.instance_name,
                "duplicate GPU engine process instance",
            );
            return;
        }
        if !reading.utilization.is_valid() {
            self.log.push_invalid_row(
                adapter,
                source,
                &reading.instance_name,
                "GPU engine utilization value",
            );
            return;
        }
        let base: U = match self.engines.get(&parsed.id) {
            Some(engine) => {
                if !engine.0.same_as(&parsed.kind) {
                    self.log.push_invalid_row(
                        adapter,
                        source,
                        &reading.instance_name,
                        "GPU engine type changed within one snapshot",
                    );
                    return;
                }
                engine.1
            },
            None => U::zero(),
        };
        let ghost engines = self.engines@;
        match base.plus(&reading.utilization) {
            Some(sum) => {
                self.engines.insert(parsed.id, (parsed.kind, sum));
                assert(engine_views(self.engines@) =~= engine_views(engines).insert(
                    parsed.id,
                    (parsed.kind@, sum),
                ));
            },
            None => {
                self.engines.remove(&parsed.id);
                assert(engine_views(self.engines@) =~= engine_views(engines).remove(parsed.id));
                self.log.push_invalid_row(
                    adapter,
                    source,
                    &reading.instance_name,
                    "GPU engine utilization aggregate",
                );
            },
        }
    }
}

fn collect_engine_readings<U: Utilization>(
    read: &CounterRead<EngineReading<U>>,
    known: &[AdapterLuid],
    displayed: &Vec<GpuAdapterId>,
) -> (state: EngineState<U>)
    ensures
        state.engines.well_formed(),
        state@ == engine_totals(read@, known@, displayed@),
{
    let mut log = IssueLog::new();
    log.collect_counter_issues(GpuSampleSource::Engine, &read.issues, displayed);
    let mut state = EngineState { log, seen: Vec::new(), engines: Table::new() };
    let ghost start = state@;
    assert(state@.seen =~= Set::<EngineInstanceView>::empty());
    assert(state@.engines =~= Map::<GpuEngineId, (EngineKindView, U)>::empty());
    for index in 0..read.values.len()
        invariant
            state.engines.well_formed(),
            state@ == with_engine_readings(
                start,
                read.values@.take(index as int),
                known@,
                displayed@,
            ),
    {
        assert(read.values@.take(index + 1).drop_last() =~= read.values@.take(index as int));
        state.add_reading(&read.values[index], known, displayed);
    }
    assert(read.values@.take(read.values@.len() as int) =~= read.values@);
    state
}

/// Adds the memory readings of one source, and returns the usable values.
fn collect_memory_readings(
    log: &mut IssueLog,
    read: &CounterRead<MemoryReading>,
    known: &[AdapterLuid],
    displayed: &Vec<GpuAdapterId>,
    source: GpuSampleSource,
    duplicate: &'static str,
) -> (values: Table<GpuAdapterId, u64>)
    ensures
        values.well_formed(),
        ({
            let totals = memory_totals(old(log)@, read@, known@, displayed@, source, duplicate);
            final(log)@ == totals.issues && values@ == totals.values
        }),
{
    log.collect_counter_issues(source, &read.issues, displayed);
    let ghost start = MemoryTotals {
        issues: log@,
        values: Map::empty(),
        invalid: Set::empty(),
    };
    let mut values: Table<GpuAdapterId, u64> = Table::new();
    let mut invalid: Vec<GpuAdapterId> = Vec::new();
    let ghost mut totals = start;
    assert(invalid@.to_set() =~= Set::<GpuAdapterId>::empty());
    for index in 0..read.values.len()
        invariant
            values.well_formed(),
            totals == with_memory_readings(
                start,
                read.values@.take(index as int),
                known@,
                displayed@,
                source,
                duplicate,
            ),
            log@ == totals.issues,
            values@ == totals.values,
            invalid@.to_set() == totals.invalid,
    {
        assert(read.values@.take(index + 1).drop_last() =~= read.values@.take(index as int));
        let reading = &read.values[index];
        let ghost before = totals;
        proof {
            totals = with_memory_reading(
                before,
                reading.instance_name@,
                reading.bytes,
                known@,
                displayed@,
                source,
                duplicate,
            );
        }
        match parse_memory_instance(reading.instance_name.as_str()) {
            Err(error) => {
                log.push_global(
                    GpuSampleIssue::new(None, source, Some(reading.instance_name.clone()), error),
                );
            },
            Ok(id) => {
                if !contains_luid(known, id.luid) {
                    log.push_global(
                        GpuSampleIssue::new(
                            Some(id),
                            source,
                            Some(reading.instance_name.clone()),
                            GpuSampleError::InvalidData {
                                context: "GPU memory references unknown LUID",
                            },
                        ),
                    );
                } else if contains_id(displayed, id) {
                    let negative = reading.bytes < 0;
                    let repeated = contains_id(&invalid, id) || values.contains_key(&id);
                    if negative || repeated {
                        let ghost listed = invalid@;
                        invalid.push(id);
                        proof {
                            lemma_push_contains(listed, id);
                            assert(invalid@.to_set() =~= listed.to_set().insert(id));
                        }
                        values.remove(&id);
                        log.push_invalid_row(
                            id,
                            source,
                            &reading.instance_name,
                            if negative {
                                "GPU memory usage conversion"
                            } else {
                                duplicate
                            },
                        );
                    } else {
                        values.insert(id, reading.bytes as u64);
                    }
                }
            },
        }
    }
    assert(read.values@.take(read.values@.len() as int) =~= read.values@);
    values
}

pub open spec fn by_ordinal(samples: Seq<GpuEngineSample>) -> bool {
    forall|i: int, j: int|
        0 <= i < j < samples.len() ==> (#[trigger] samples[i]).id.ordinal < (
        #[trigger] samples[j]).id.ordinal
}

/// Puts `sample` into its place among the others.
fn insert_by_ordinal(samples: &mut Vec<GpuEngineSample>, sample: GpuEngineSample)
    requires
        by_ordinal(old(samples)@),
        forall|i: int|
            0 <= i < old(samples)@.len() ==> (#[trigger] old(samples)@[i]).id.ordinal
                != sample.id.ordinal,
    ensures
        by_ordinal(final(samples)@),
        exists|at: int|
            0 <= at <= old(samples)@.len() && final(samples)@ == #[trigger] old(samples)@.insert(
                at,
                sample,
            ),
{
    let ghost earlier = samples@;
    let mut at: usize = 0;
    while at < samples.len() && samples[at].id.ordinal < sample.id.ordinal
        invariant
            at <= samples.len(),
            samples@ == earlier,
            forall|i: int|
                0 <= i < at ==> (#[trigger] samples@[i]).id.ordinal < sample.id.ordinal,
        decreases samples.len() - at,
    {
        at += 1;
    }
    samples.insert(at, sample);
    proof {
        assert(samples@ == earlier.insert(at as int, sample));
        assert forall|i: int, j: int| 0 <= i < j < samples@.len() implies (
        #[trigger] samples@[i]).id.ordinal < (#[trigger] samples@[j]).id.ordinal by {
            let a = if i < at { i } else { i - 1 };
            let b = if j < at { j } else { j - 1 };
            if i != at {
                assert(samples@[i] == earlier[a]);
            }
            if j != at {
                assert(samples@[j] == earlier[b]);
            }
            if at < earlier.len() {
                assert(earlier[at as int].id.ordinal > sample.id.ordinal);
            }
        }
    }
}

/// Whether the samples are those of the engines of adapter `id` among the first entries.
#[verifier::opaque]
spec fn lists_entries<U: Utilization>(
    samples: Seq<GpuEngineSample>,
    entries: Seq<(GpuEngineId, (GpuEngineKind, U))>,
    id: GpuAdapterId,
) -> bool {
    &&& forall|i: int|
        0 <= i < samples.len() ==> {
            let sample = #[trigger] samples[i];
            &&& sample.id.adapter == id
            &&& sample.utilization_percent <= 100
            &&& exists|k: int|
                0 <= k < entries.len() && (#[trigger] entries[k]).0 == sample.id
                    && entries[k].1.0@ == sample.kind@ && entries[k].1.1.displayed()
                    == sample.utilization_percent
        }
    &&& forall|k: int|
        0 <= k < entries.len() && (#[trigger] entries[k]).0.adapter == id ==> exists|i: int|
            0 <= i < samples.len() && (#[trigger] samples[i]).id == entries[k].0
}

proof fn lemma_lists_entries_insert<U: Utilization>(
    samples: Seq<GpuEngineSample>,
    entries: Seq<(GpuEngineId, (GpuEngineKind, U))>,
    id: GpuAdapterId,
    at: int,
    sample: GpuEngineSample,
    entry: (GpuEngineId, (GpuEngineKind, U)),
)
    requires
        lists_entries(samples, entries, id),
        0 <= at <= samples.len(),
        sample.id == entry.0,
        sample.id.adapter == id,
        sample.kind@ == entry.1.0@,
        sample.utilization_percent == entry.1.1.displayed(),
        sample.utilization_percent <= 100,
    ensures
        lists_entries(samples.insert(at, sample), entries.push(entry), id),
{
    reveal(lists_entries);
    let after = samples.insert(at, sample);
    let more = entries.push(entry);
    assert forall|i: int| 0 <= i < after.len() implies {
        let found = #[trigger] after[i];
        &&& found.id.adapter == id
        &&& found.utilization_percent <= 100
        &&& exists|k: int|
            0 <= k < more.len() && (#[trigger] more[k]).0 == found.id && more[k].1.0@ == found.kind@
                && more[k].1.1.displayed() == found.utilization_percent
    } by {
        if i == at {
            assert(more[entries.len() as int] == entry);
        } else {
            let b = if i < at { i } else { i - 1 };
            assert(after[i] == samples[b]);
            let k = choose|k: int|
                0 <= k < entries.len() && (#[trigger] entries[k]).0 == samples[b].id
                    && entries[k].1.0@ == samples[b].kind@ && entries[k].1.1.displayed()
                    == samples[b].utilization_percent;
            assert(more[k] == entries[k]);
        }
    }
    assert forall|k: int|
        0 <= k < more.len() && (#[trigger] more[k]).0.adapter == id implies exists|i: int|
        0 <= i < after.len() && (#[trigger] after[i]).id == more[k].0 by {
        if k == entries.len() {
            assert(after[at].id == more[k].0);
        } else {
            assert(more[k] == entries[k]);
            let b = choose|i: int|
                0 <= i < samples.len() && (#[trigger] samples[i]).id == entries[k].0;
            let i = if b < at { b } else { b + 1 };
            assert(after[i] == samples[b]);
        }
    }
}

proof fn lemma_lists_entries_skip<U: Utilization>(
    samples: Seq<GpuEngineSample>,
    entries: Seq<(GpuEngineId, (GpuEngineKind, U))>,
    id: GpuAdapterId,
    entry: (GpuEngineId, (GpuEngineKind, U)),
)
    requires
        lists_entries(samples, entries, id),
        entry.0.adapter != id,
    ensures
        lists_entries(samples, entries.push(entry), id),
{
    reveal(lists_entries);
    let more = entries.push(entry);
    assert forall|i: int| 0 <= i < samples.len() implies {
        let found = #[trigger] samples[i];
        &&& found.id.adapter == id
        &&& found.utilization_percent <= 100
        &&& exists|k: int|
            0 <= k < more.len() && (#[trigger] more[k]).0 == found.id && more[k].1.0@ == found.kind@
                && more[k].1.1.displayed() == found.utilization_percent
    } by {
        let found = samples[i];
        let k = choose|k: int|
            0 <= k < entries.len() && (#[trigger] entries[k]).0 == found.id && entries[k].1.0@
                == found.kind@ && entries[k].1.1.displayed() == found.utilization_percent;
        assert(more[k] == entries[k]);
    }
    assert forall|k: int|
        0 <= k < more.len() && (#[trigger] more[k]).0.adapter == id implies exists|i: int|
        0 <= i < samples.len() && (#[trigger] samples[i]).id == more[k].0 by {
        assert(more[k] == entries[k]);
    }
}

/// No sample has the ordinal of an engine of the adapter that is not among the entries.
proof fn lemma_lists_entries_ordinals<U: Utilization>(
    samples: Seq<GpuEngineSample>,
    entries: Seq<(GpuEngineId, (GpuEngineKind, U))>,
    id: GpuAdapterId,
    engine: GpuEngineId,
)
    requires
        lists_entries(samples, entries, id),
        engine.adapter == id,
        forall|k: int| 0 <= k < entries.len() ==> (#[trigger] entries[k]).0 != engine,
    ensures
        forall|i: int|
            0 <= i < samples.len() ==> (#[trigger] samples[i]).id.ordinal != engine.ordinal,
{
    reveal(lists_entries);
    assert forall|i: int| 0 <= i < samples.len() implies (#[trigger] samples[i]).id.ordinal
        != engine.ordinal by {
        let k = choose|k: int| 0 <= k < entries.len() && (#[trigger] entries[k]).0 == samples[i].id;
        assert(entries[k].0 != engine);
    }
}

/// The engines of one adapter, ordered by ordinal.
fn engines_of<U: Utilization>(
    engines: &Table<GpuEngineId, (GpuEngineKind, U)>,
    id: GpuAdapterId,
) -> (samples: Vec<GpuEngineSample>)
    requires
        engines.well_formed(),
    ensures
        lists_engines(samples@, engine_views(engines@), id),
{
    let mut samples: Vec<GpuEngineSample> = Vec::new();
    let count: usize = engines.len();
    assert(lists_entries(samples@, engines.entries().take(0), id)) by {
        reveal(lists_entries);
    }
    for index in 0..count
        invariant
            engines.well_formed(),
            count == engines.entries().len(),
            by_ordinal(samples@),
            lists_entries(samples@, engines.entries().take(index as int), id),
    {
        let ghost entries = engines.entries();
        let ghost earlier = samples@;
        let ghost before = entries.take(index as int);
        let entry = engines.entry(index);
        let engine: GpuEngineId = entry.0;
        proof {
            engines.lemma_entries();
            assert(entries.take(index + 1) =~= before.push(*entry));
        }
        if engine.adapter == id {
            let sample = GpuEngineSample {
                id: engine,
                kind: entry.1.0.copied(),
                utilization_percent: entry.1.1.percent(),
            };
            proof {
                assert forall|k: int| 0 <= k < before.len() implies (#[trigger] before[k]).0
                    != entry.0 by {
                    assert(entries[k].0 != entries[index as int].0);
                }
                lemma_lists_entries_ordinals(earlier, before, id, engine);
            }
            insert_by_ordinal(&mut samples, sample);
            proof {
                let at = choose|at: int|
                    0 <= at <= earlier.len() && samples@ == #[trigger] earlier.insert(at, sample);
                lemma_lists_entries_insert(earlier, before, id, at, sample, *entry);
            }
        } else {
            proof {
                lemma_lists_entries_skip(earlier, before, id, *entry);
            }
        }
    }
    proof {
        engines.lemma_entries();
        let entries = engines.entries();
        assert(entries.take(count as int) =~= entries);
        reveal(lists_entries);
        let model = engine_views(engines@);
        assert forall|i: int| 0 <= i < samples@.len() implies {
            let sample = #[trigger] samples@[i];
            &&& model.contains_key(sample.id)
            &&& sample.kind@ == model[sample.id].0
            &&& sample.utilization_percent == model[sample.id].1.displayed()
        } by {
            let sample = samples@[i];
            let k = choose|k: int|
                0 <= k < entries.len() && (#[trigger] entries[k]).0 == sample.id
                    && entries[k].1.0@ == sample.kind@ && entries[k].1.1.displayed()
                    == sample.utilization_percent;
            assert(engines@[entries[k].0] == entries[k].1);
        }
        assert forall|engine: GpuEngineId| #[trigger]
            model.contains_key(engine) && engine.adapter == id implies exists|i: int|
            0 <= i < samples@.len() && (#[trigger] samples@[i]).id == engine by {
            assert(has_key(entries, engine));
            let k = choose|k: int| 0 <= k < entries.len() && #[trigger] entries[k].0 == engine;
            assert(entries[k].0.adapter == id);
        }
    }
    samples
}

/// Appends the issues of one adapter to `issues`.
fn append_rows(issues: &mut Vec<GpuSampleIssue>, rows: &Vec<GpuSampleIssue>, id: GpuAdapterId)
    ensures
        issue_views(final(issues)@) == issue_views(old(issues)@) + rows_of(
            issue_views(rows@),
            id,
        ),
{
    let ghost own = |noted: IssueView| noted.adapter_id == Some(id);
    proof {
        reveal(Seq::filter);
        assert(issue_views(rows@.take(0)).filter(own) =~= Seq::<IssueView>::empty());
    }
    for index in 0..rows.len()
        invariant
            own == (|noted: IssueView| noted.adapter_id == Some(id)),
            issue_views(issues@) =~= issue_views(old(issues)@) + issue_views(
                rows@.take(index as int),
            ).filter(own),
    {
        proof {
            reveal(Seq::filter);
            let upto = issue_views(rows@.take(index + 1));
            assert(upto.drop_last() =~= issue_views(rows@.take(index as int)));
            assert(upto.last() == rows@[index as int]@);
        }
        let is_own = match rows[index].adapter_id {
            Some(other) => other == id,
            None => false,
        };
        let ghost before = issues@;
        if is_own {
            let row = rows[index].copied();
            issues.push(row);
            assert(issue_views(issues@) =~= issue_views(before).push(row@));
        }
    }
    assert(rows@.take(rows@.len() as int) =~= rows@);
}

fn append_global(issues: &mut Vec<GpuSampleIssue>, global: &Vec<GpuSampleIssue>)
    ensures
        issue_views(final(issues)@) == issue_views(old(issues)@) + issue_views(global@),
{
    for index in 0..global.len()
        invariant
            issue_views(issues@) =~= issue_views(old(issues)@) + issue_views(
                global@.take(index as int),
            ),
    {
        let ghost before = issues@;
        let noted = global[index].copied();
        issues.push(noted);
        assert(issue_views(issues@) =~= issue_views(before).push(noted@));
        assert(issue_views(global@.take(index + 1)) =~= issue_views(
            global@.take(index as int),
        ).push(noted@));
    }
    assert(global@.take(global@.len() as int) =~= global@);
}

fn find_temperature(readings: &Vec<TemperatureReading>, id: GpuAdapterId) -> (found: Option<
    Result<Option<u32>, GpuSampleError>,
>)
    ensures
        found == temperature_for(readings@, id),
{
    assert(readings@.skip(0) =~= readings@);
    for index in 0..readings.len()
        invariant
            temperature_for(readings@, id) == temperature_for(readings@.skip(index as int), id),
    {
        assert(readings@.skip(index as int).drop_first() =~= readings@.skip(index + 1));
        if readings[index].id == id {
            return Some(readings[index].result);
        }
    }
    None
}

fn busiest(samples: &Vec<GpuEngineSample>) -> (percent: u8)
    ensures
        is_busiest(percent, samples@),
{
    let mut percent: u8 = 0;
    for index in 0..samples.len()
        invariant
            forall|i: int|
                0 <= i < index ==> (#[trigger] samples@[i]).utilization_percent <= percent,
            percent == 0 || exists|i: int|
                0 <= i < samples@.len() && (#[trigger] samples@[i]).utilization_percent == percent,
    {
        if samples[index].utilization_percent > percent {
            percent = samples[index].utilization_percent;
        }
    }
    percent
}

fn any_engine_issue(issues: &Vec<GpuSampleIssue>) -> (found: bool)
    ensures
        found == concerns_engines(issue_views(issues@)),
{
    let ghost noted = issue_views(issues@);
    for index in 0..issues.len()
        invariant
            noted == issue_views(issues@),
            forall|i: int|
                0 <= i < index ==> (#[trigger] noted[i]).source != GpuSampleSource::Engine,
    {
        if issues[index].source == GpuSampleSource::Engine {
            assert(noted[index as int].source == GpuSampleSource::Engine);
            return true;
        }
    }
    false
}

/// Assembles what the counters delivered into one sample for each adapter.
///
/// What one source failed to deliver leaves the values of the others as they are.
pub fn assemble_counter_samples<U: Utilization>(
    infos: &[Arc<GpuAdapterInfo>],
    known_luids: &[AdapterLuid],
    engine_readings: CounterRead<EngineReading<U>>,
    dedicated_readings: CounterRead<MemoryReading>,
    shared_readings: CounterRead<MemoryReading>,
    temperatures: Vec<TemperatureReading>,
) -> (outcome: Result<Vec<GpuCounterSample>, GpuSampleError>)
    ensures
        ({
            let all = readings(
                infos@,
                known_luids@,
                engine_readings@,
                dedicated_readings@,
                shared_readings@,
                temperatures@,
            );
            &&& outcome matches Ok(samples)
            &&& samples@.len() == infos@.len()
            &&& forall|i: int|
                0 <= i < samples@.len() ==> is_sample(
                    #[trigger] samples@[i],
                    all,
                    infos@[i],
                    displayed_ids(infos@).take(i).contains(infos@[i].id),
                )
        }),
{
    let mut displayed: Vec<GpuAdapterId> = Vec::new();
    for index in 0..infos.len()
        invariant
            displayed@ =~= displayed_ids(infos@).take(index as int),
    {
        displayed.push(infos[index].id);
    }
    assert(displayed@ =~= displayed_ids(infos@));
    let ghost all = readings(
        infos@,
        known_luids@,
        engine_readings@,
        dedicated_readings@,
        shared_readings@,
        temperatures@,
    );
    let engine_state = collect_engine_readings(&engine_readings, known_luids, &displayed);
    let engines = engine_state.engines;
    let mut log = engine_state.log;
    let dedicated = collect_memory_readings(
        &mut log,
        &dedicated_readings,
        known_luids,
        &displayed,
        GpuSampleSource::DedicatedMemory,
        "duplicate dedicated GPU memory instance",
    );
    let shared = collect_memory_readings(
        &mut log,
        &shared_readings,
        known_luids,
        &displayed,
        GpuSampleSource::SharedMemory,
        "duplicate shared GPU memory instance",
    );
    assert(all.engines == engine_views(engines@));
    assert(all.dedicated == dedicated@);
    assert(all.shared == shared@);
    assert(all.issues == log@);
    let mut done: Vec<GpuAdapterId> = Vec::new();
    let mut samples: Vec<GpuCounterSample> = Vec::new();
    for index in 0..infos.len()
        invariant
            engines.well_formed(),
            dedicated.well_formed(),
            shared.well_formed(),
            all.engines == engine_views(engines@),
            all.dedicated == dedicated@,
            all.shared == shared@,
            all.issues == log@,
            all.temperatures == temperatures@,
            done@ =~= displayed_ids(infos@).take(index as int),
            samples@.len() == index,
            forall|i: int|
                0 <= i < index ==> is_sample(
                    #[trigger] samples@[i],
                    all,
                    infos@[i],
                    displayed_ids(infos@).take(i).contains(infos@[i].id),
                ),
    {
        let info = &infos[index];
        let id: GpuAdapterId = info.id;
        let repeated = contains_id(&done, id);
        let adapter_engines = if repeated {
            Vec::new()
        } else {
            engines_of(&engines, id)
        };
        let mut row_errors: Vec<GpuSampleIssue> = Vec::new();
        assert(issue_views(row_errors@) =~= Seq::<IssueView>::empty());
        append_global(&mut row_errors, &log.global);
        assert(issue_views(row_errors@) =~= all.issues.global);
        if !repeated {
            append_rows(&mut row_errors, &log.rows, id);
        }
        let ghost own: Seq<IssueView> = if repeated {
            Seq::empty()
        } else {
            rows_of(all.issues.rows, id)
        };
        assert(issue_views(row_errors@) =~= all.issues.global + own);
        let found = if repeated {
            None
        } else {
            find_temperature(&temperatures, id)
        };
        let ghost noted = issue_views(row_errors@);
        let temperature_deci_c: Option<u32> = match found {
            Some(Ok(value)) => value,
            Some(Err(error)) => {
                row_errors.push(
                    GpuSampleIssue::new(Some(id), GpuSampleSource::Temperature, None, error),
                );
                None
            },
            None => {
                row_errors.push(
                    GpuSampleIssue::new(
                        Some(id),
                        GpuSampleSource::Temperature,
                        None,
                        GpuSampleError::InvalidData {
                            context: "missing GPU temperature query result",
                        },
                    ),
                );
                None
            },
        };
        assert(issue_views(row_errors@) =~= noted + temperature_issues(id, found));
        let ghost noted = issue_views(row_errors@);
        let dedicated_usage_bytes: Option<u64> = match dedicated.get(&id) {
            Some(bytes) => Some(*bytes),
            None => {
                row_errors.push(
                    GpuSampleIssue::new(
                        Some(id),
                        GpuSampleSource::DedicatedMemory,
                        None,
                        GpuSampleError::InvalidData {
                            context: "missing dedicated GPU memory instance",
                        },
                    ),
                );
                None
            },
        };
        assert(issue_views(row_errors@) =~= noted + missing_issues(
            id,
            GpuSampleSource::DedicatedMemory,
            value_of(all.dedicated, id),
            "missing dedicated GPU memory instance",
        ));
        let ghost noted = issue_views(row_errors@);
        let shared_usage_bytes: Option<u64> = match shared.get(&id) {
            Some(bytes) => Some(*bytes),
            None => {
                row_errors.push(
                    GpuSampleIssue::new(
                        Some(id),
                        GpuSampleSource::SharedMemory,
                        None,
                        GpuSampleError::InvalidData {
                            context: "missing shared GPU memory instance",
                        },
                    ),
                );
                None
            },
        };
        assert(issue_views(row_errors@) =~= noted + missing_issues(
            id,
            GpuSampleSource::SharedMemory,
            value_of(all.shared, id),
            "missing shared GPU memory instance",
        ));
        assert(issue_views(row_errors@) == sample_issues(all, id, repeated));
        let overall_utilization_percent: Option<u8> = if any_engine_issue(&row_errors) {
            None
        } else {
            Some(busiest(&adapter_engines))
        };
        samples.push(
            GpuCounterSample {
                info: info.clone(),
                overall_utilization_percent,
                engines: adapter_engines,
                dedicated_usage_bytes,
                shared_usage_bytes,
                temperature_deci_c,
                row_errors,
            },
        );
        done.push(id);
    }
    Ok(samples)
}

/// The error of the first issue that makes a sample incomplete. Without its temperature a
/// sample is still complete.
pub open spec fn first_fault(issues: Seq<IssueView>) -> Option<GpuSampleError>
    decreases issues.len(),
{
    if issues.len() == 0 {
        None
    } else if issues[0].source != GpuSampleSource::Temperature {
        Some(issues[0].error)
    } else {
        first_fault(issues.drop_first())
    }
}

pub open spec fn is_repeated(infos: Seq<Arc<GpuAdapterInfo>>, index: int) -> bool {
    displayed_ids(infos).take(index).contains(infos[index].id)
}

/// The error of the first incomplete sample, from the adapter at `index` on.
pub open spec fn first_sample_fault<U>(
    all: Readings<U>,
    infos: Seq<Arc<GpuAdapterInfo>>,
    index: int,
) -> Option<GpuSampleError>
    decreases infos.len() - index,
{
    if index < 0 || index >= infos.len() {
        None
    } else {
        match first_fault(sample_issues(all, infos[index].id, is_repeated(infos, index))) {
            Some(error) => Some(error),
            None => first_sample_fault(all, infos, index + 1),
        }
    }
}

pub open spec fn error_views(issues: Seq<IssueView>) -> Seq<GpuSampleError> {
    issues.map_values(|noted: IssueView| noted.error)
}

/// Whether `sample` is the complete sample that the readings give of one adapter.
pub open spec fn is_complete_sample<U: Utilization>(
    sample: GpuAdapterSample,
    all: Readings<U>,
    info: Arc<GpuAdapterInfo>,
    repeated: bool,
) -> bool {
    &&& sample.info == info
    &&& sample.row_errors@ == error_views(sample_issues(all, info.id, repeated))
    &&& if repeated {
        sample.engines@ == Seq::<GpuEngineSample>::empty()
    } else {
        lists_engines(sample.engines@, all.engines, info.id)
    }
    &&& is_busiest(sample.overall_utilization_percent, sample.engines@)
    &&& value_of(all.dedicated, info.id) == Some(sample.dedicated_usage_bytes)
    &&& value_of(all.shared, info.id) == Some(sample.shared_usage_bytes)
    &&& sample.temperature_deci_c == match sample_temperature(all, info.id, repeated) {
        Some(Ok(value)) => value,
        _ => None,
    }
}

proof fn lemma_no_fault(issues: Seq<IssueView>)
    requires
        first_fault(issues) is None,
    ensures
        forall|i: int|
            0 <= i < issues.len() ==> (#[trigger] issues[i]).source == GpuSampleSource::Temperature,
    decreases issues.len(),
{
    if issues.len() > 0 {
        lemma_no_fault(issues.drop_first());
        assert forall|i: int| 0 <= i < issues.len() implies (#[trigger] issues[i]).source
            == GpuSampleSource::Temperature by {
            if i > 0 {
                assert(issues.drop_first()[i - 1] == issues[i]);
            }
        }
    }
}

/// Which error, if any, makes the sample incomplete.
pub(crate) fn find_fault(issues: &Vec<GpuSampleIssue>) -> (fault: Option<GpuSampleError>)
    ensures
        fault == first_fault(issue_views(issues@)),
{
    let ghost noted = issue_views(issues@);
    assert(noted.skip(0) =~= noted);
    for index in 0..issues.len()
        invariant
            noted == issue_views(issues@),
            first_fault(noted) == first_fault(noted.skip(index as int)),
    {
        assert(noted.skip(index as int).drop_first() =~= noted.skip(index + 1));
        assert(noted.skip(index as int)[0] == issues@[index as int]@);
        if issues[index].source != GpuSampleSource::Temperature {
            return Some(issues[index].error);
        }
    }
    None
}

pub(crate) fn errors_of(issues: &Vec<GpuSampleIssue>) -> (errors: Vec<GpuSampleError>)
    ensures
        errors@ == error_views(issue_views(issues@)),
{
    let mut errors: Vec<GpuSampleError> = Vec::new();
    for index in 0..issues.len()
        invariant
            errors@ =~= error_views(issue_views(issues@.take(index as int))),
    {
        errors.push(issues[index].error);
    }
    assert(issues@.take(issues@.len() as int) =~= issues@);
    errors
}

/// Assembles complete samples, or reports the first thing that is missing or malformed.
#[verifier::loop_isolation(false)]
pub fn assemble_samples<U: Utilization>(
    infos: &[Arc<GpuAdapterInfo>],
    known_luids: &[AdapterLuid],
    engine_readings: Vec<EngineReading<U>>,
    dedicated_readings: Vec<MemoryReading>,
    shared_readings: Vec<MemoryReading>,
    temperatures: Vec<TemperatureReading>,
) -> (outcome: Result<Vec<GpuAdapterSample>, GpuSampleError>)
    ensures
        ({
            let all = readings(
                infos@,
                known_luids@,
                all_usable(engine_readings@),
                all_usable(dedicated_readings@),
                all_usable(shared_readings@),
                temperatures@,
            );
            match first_sample_fault(all, infos@, 0) {
                Some(error) => outcome == Err::<Vec<GpuAdapterSample>, GpuSampleError>(error),
                None => {
                    &&& outcome matches Ok(samples)
                    &&& samples@.len() == infos@.len()
                    &&& forall|i: int|
                        0 <= i < samples@.len() ==> is_complete_sample(
                            #[trigger] samples@[i],
                            all,
                            infos@[i],
                            is_repeated(infos@, i),
                        )
                },
            }
        }),
{
    let ghost all = readings(
        infos@,
        known_luids@,
        all_usable(engine_readings@),
        all_usable(dedicated_readings@),
        all_usable(shared_readings@),
        temperatures@,
    );
    let partial = match assemble_counter_samples(
        infos,
        known_luids,
        CounterRead::values(engine_readings),
        CounterRead::values(dedicated_readings),
        CounterRead::values(shared_readings),
        temperatures,
    ) {
        Ok(partial) => partial,
        Err(error) => return Err(error),
    };
    let ghost given = partial@;
    let mut rest = partial;
    let mut samples: Vec<GpuAdapterSample> = Vec::new();
    let count: usize = infos.len();
    for index in 0..count
        invariant
            count == infos@.len(),
            given.len() == count,
            forall|i: int|
                0 <= i < count ==> is_sample(
                    #[trigger] given[i],
                    all,
                    infos@[i],
                    is_repeated(infos@, i),
                ),
            rest@ == given.skip(index as int),
            first_sample_fault(all, infos@, 0) == first_sample_fault(all, infos@, index as int),
            samples@.len() == index,
            forall|i: int|
                0 <= i < index ==> is_complete_sample(
                    #[trigger] samples@[i],
                    all,
                    infos@[i],
                    is_repeated(infos@, i),
                ),
    {
        let sample = rest.remove(0);
        assert(rest@ =~= given.skip(index + 1));
        assert(sample == given[index as int]);
        let ghost noted = sample_issues(all, infos@[index as int].id, is_repeated(infos@, index as int));
        if let Some(error) = find_fault(&sample.row_errors) {
            return Err(error);
        }
        proof {
            lemma_no_fault(noted);
            lemma_complete(all, infos@[index as int].id, is_repeated(infos@, index as int));
        }
        let row_errors = errors_of(&sample.row_errors);
        match (
            sample.overall_utilization_percent,
            sample.dedicated_usage_bytes,
            sample.shared_usage_bytes,
        ) {
            (Some(overall), Some(dedicated), Some(shared)) => {
                samples.push(
                    GpuAdapterSample {
                        info: sample.info,
                        overall_utilization_percent: overall,
                        engines: sample.engines,
                        dedicated_usage_bytes: dedicated,
                        shared_usage_bytes: shared,
                        temperature_deci_c: sample.temperature_deci_c,
                        row_errors,
                    },
                );
            },
            _ => {
                assert(false);
            },
        }
    }
    Ok(samples)
}

/// A sample whose only issues are about its temperature has both amounts of memory.
proof fn lemma_complete<U>(all: Readings<U>, id: GpuAdapterId, repeated: bool)
    requires
        forall|i: int|
            0 <= i < sample_issues(all, id, repeated).len() ==> (#[trigger] sample_issues(
                all,
                id,
                repeated,
            )[i]).source == GpuSampleSource::Temperature,
    ensures
        value_of(all.dedicated, id) is Some,
        value_of(all.shared, id) is Some,
{
    let issues = sample_issues(all, id, repeated);
    let shared = missing_issues(
        id,
        GpuSampleSource::SharedMemory,
        value_of(all.shared, id),
        "missing shared GPU memory instance",
    );
    let dedicated = missing_issues(
        id,
        GpuSampleSource::DedicatedMemory,
        value_of(all.dedicated, id),
        "missing dedicated GPU memory instance",
    );
    let head = issues.len() - shared.len() - dedicated.len();
    if dedicated.len() > 0 {
        assert(issues[head as int] == dedicated[0]);
    }
    if shared.len() > 0 {
        assert(issues[head + dedicated.len()] == shared[0]);
    }
}

pub open spec fn kind_views(kinds: Map<GpuEngineId, GpuEngineKind>) -> Map<
    GpuEngineId,
    EngineKindView,
> {
    kinds.map_values(|kind: GpuEngineKind| kind@)
}

pub open spec fn engine_sample_views(engines: Seq<GpuEngineSample>) -> Seq<EngineSampleView> {
    engines.map_values(|engine: GpuEngineSample| engine@)
}

/// Whether the engine was known under another kind.
pub open spec fn changes_kind(
    kinds: Map<GpuEngineId, EngineKindView>,
    engine: EngineSampleView,
) -> bool {
    kinds.contains_key(engine.id) && kinds[engine.id] != engine.kind
}

/// The kinds that are known after some engines were seen. The first kind of an engine stays.
pub open spec fn with_kinds(
    kinds: Map<GpuEngineId, EngineKindView>,
    engines: Seq<EngineSampleView>,
) -> Map<GpuEngineId, EngineKindView>
    decreases engines.len(),
{
    if engines.len() == 0 {
        kinds
    } else {
        with_kind(with_kinds(kinds, engines.drop_last()), engines.last())
    }
}

/// The kinds that are known after one more engine was seen.
pub open spec fn with_kind(
    kinds: Map<GpuEngineId, EngineKindView>,
    engine: EngineSampleView,
) -> Map<GpuEngineId, EngineKindView> {
    if kinds.contains_key(engine.id) {
        kinds
    } else {
        kinds.insert(engine.id, engine.kind)
    }
}

/// The engines that do not change their kind, in order.
pub open spec fn keeping_kind(
    kinds: Map<GpuEngineId, EngineKindView>,
    engines: Seq<EngineSampleView>,
) -> Seq<EngineSampleView>
    decreases engines.len(),
{
    if engines.len() == 0 {
        engines
    } else {
        let before = keeping_kind(kinds, engines.drop_last());
        if changes_kind(with_kinds(kinds, engines.drop_last()), engines.last()) {
            before
        } else {
            before.push(engines.last())
        }
    }
}

pub open spec fn all_engines(samples: Seq<GpuAdapterSample>) -> Seq<EngineSampleView>
    decreases samples.len(),
{
    if samples.len() == 0 {
        Seq::empty()
    } else {
        all_engines(samples.drop_last()) + engine_sample_views(samples.last().engines@)
    }
}

fn copied_kinds(kinds: &Table<GpuEngineId, GpuEngineKind>) -> (copied: Table<
    GpuEngineId,
    GpuEngineKind,
>)
    requires
        kinds.well_formed(),
    ensures
        copied.well_formed(),
        kind_views(copied@) == kind_views(kinds@),
{
    let mut copied: Table<GpuEngineId, GpuEngineKind> = Table::new();
    let count: usize = kinds.len();
    for index in 0..count
        invariant
            kinds.well_formed(),
            copied.well_formed(),
            count == kinds.entries().len(),
            forall|key: GpuEngineId| #[trigger]
                copied@.contains_key(key) <==> has_key(kinds.entries().take(index as int), key),
            forall|key: GpuEngineId| #[trigger]
                copied@.contains_key(key) ==> kinds@.contains_key(key) && copied@[key]@
                    == kinds@[key]@,
    {
        proof {
            kinds.lemma_entries();
            lemma_has_key_prefix(kinds.entries(), index as int);
        }
        let entry = kinds.entry(index);
        copied.insert(entry.0, entry.1.copied());
    }
    proof {
        kinds.lemma_entries();
        assert(kinds.entries().take(count as int) =~= kinds.entries());
        assert(kind_views(copied@) =~= kind_views(kinds@));
    }
    copied
}

/// Adds the kind of one engine, and tells whether it was known under another one.
fn note_kind(kinds: &mut Table<GpuEngineId, GpuEngineKind>, engine: &GpuEngineSample) -> (changed:
    bool)
    requires
        old(kinds).well_formed(),
    ensures
        final(kinds).well_formed(),
        changed == changes_kind(kind_views(old(kinds)@), engine@),
        kind_views(final(kinds)@) == with_kind(kind_views(old(kinds)@), engine@),
{
    let ghost before = kind_views(kinds@);
    match kinds.get(&engine.id) {
        Some(kind) => !kind.same_as(&engine.kind),
        None => {
            kinds.insert(engine.id, engine.kind.copied());
            assert(kind_views(kinds@) =~= before.insert(engine.id, engine.kind@));
            false
        },
    }
}

/// The kinds of all engines, where none of them changes its kind.
pub fn validated_engine_kinds(
    existing: &Table<GpuEngineId, GpuEngineKind>,
    samples: &Vec<GpuAdapterSample>,
) -> (outcome: Result<Table<GpuEngineId, GpuEngineKind>, GpuSampleError>)
    requires
        existing.well_formed(),
    ensures
        ({
            let engines = all_engines(samples@);
            let kinds = kind_views(existing@);
            if keeping_kind(kinds, engines) == engines {
                outcome matches Ok(known) && known.well_formed() && kind_views(known@)
                    == with_kinds(kinds, engines)
            } else {
                outcome == Err::<Table<GpuEngineId, GpuEngineKind>, GpuSampleError>(
                    GpuSampleError::InvalidData {
                        context: "GPU engine type changed without a topology generation",
                    },
                )
            }
        }),
{
    let mut candidate = copied_kinds(existing);
    let ghost kinds = kind_views(existing@);
    let ghost mut seen: Seq<EngineSampleView> = Seq::empty();
    for at in 0..samples.len()
        invariant
            kinds == kind_views(existing@),
            candidate.well_formed(),
            seen == all_engines(samples@.take(at as int)),
            kind_views(candidate@) == with_kinds(kinds, seen),
            keeping_kind(kinds, seen) == seen,
    {
        let engines = &samples[at].engines;
        let ghost base = seen;
        let ghost own = engine_sample_views(engines@);
        proof {
            assert(samples@.take(at + 1).drop_last() =~= samples@.take(at as int));
            assert(base + own.take(0) =~= base);
        }
        for index in 0..engines.len()
            invariant
                kinds == kind_views(existing@),
                at < samples@.len(),
                engines == samples@[at as int].engines,
                own == engine_sample_views(engines@),
                base == all_engines(samples@.take(at as int)),
                candidate.well_formed(),
                seen == base + own.take(index as int),
                kind_views(candidate@) == with_kinds(kinds, seen),
                keeping_kind(kinds, seen) == seen,
        {
            let ghost engine = engines@[index as int]@;
            let changed = note_kind(&mut candidate, &engines[index]);
            proof {
                assert(base + own.take(index + 1) =~= seen.push(engine));
                assert(seen.push(engine).drop_last() =~= seen);
                seen = seen.push(engine);
            }
            if changed {
                proof {
                    lemma_change_is_noticed(kinds, samples@, at as int, seen);
                }
                return Err(
                    GpuSampleError::InvalidData {
                        context: "GPU engine type changed without a topology generation",
                    },
                );
            }
        }
        assert(own.take(engines@.len() as int) =~= own);
    }
    assert(samples@.take(samples@.len() as int) =~= samples@);
    Ok(candidate)
}

/// A change of kind among the first engines shows in all of them.
proof fn lemma_change_is_noticed(
    kinds: Map<GpuEngineId, EngineKindView>,
    samples: Seq<GpuAdapterSample>,
    at: int,
    seen: Seq<EngineSampleView>,
)
    requires
        0 <= at < samples.len(),
        seen.len() > 0,
        ({
            let own = engine_sample_views(samples[at].engines@);
            let base = all_engines(samples.take(at));
            base.len() <= seen.len() <= base.len() + own.len() && seen == base + own.take(
                seen.len() - base.len(),
            )
        }),
        changes_kind(with_kinds(kinds, seen.drop_last()), seen.last()),
    ensures
        keeping_kind(kinds, all_engines(samples)) != all_engines(samples),
{
    let all = all_engines(samples);
    let own = engine_sample_views(samples[at].engines@);
    let base = all_engines(samples.take(at));
    let prefix = all_engines(samples.take(at + 1));
    lemma_keeping_length(kinds, seen.drop_last());
    lemma_all_engines_prefix(samples, at);
    assert(samples.take(at + 1).drop_last() =~= samples.take(at));
    assert(prefix == base + own);
    assert(all.take(seen.len() as int) =~= seen) by {
        assert(all.take(prefix.len() as int) == prefix);
        assert(seen =~= prefix.take(seen.len() as int));
        assert(all.take(seen.len() as int) =~= all.take(prefix.len() as int).take(
            seen.len() as int,
        ));
    }
    lemma_keeping_prefix(kinds, all, seen.len() as int);
}

proof fn lemma_all_engines_prefix(samples: Seq<GpuAdapterSample>, at: int)
    requires
        0 <= at < samples.len(),
    ensures
        ({
            let prefix = all_engines(samples.take(at + 1));
            prefix.len() <= all_engines(samples).len() && all_engines(samples).take(
                prefix.len() as int,
            ) == prefix
        }),
    decreases samples.len() - at,
{
    let prefix = all_engines(samples.take(at + 1));
    if at + 1 == samples.len() {
        assert(samples.take(at + 1) =~= samples);
        assert(all_engines(samples).take(prefix.len() as int) =~= prefix);
    } else {
        lemma_all_engines_prefix(samples, at + 1);
        let next = all_engines(samples.take(at + 2));
        assert(samples.take(at + 2).drop_last() =~= samples.take(at + 1));
        assert(next.take(prefix.len() as int) =~= prefix);
        assert(all_engines(samples).take(prefix.len() as int) =~= all_engines(samples).take(
            next.len() as int,
        ).take(prefix.len() as int));
    }
}

proof fn lemma_keeping_length(
    kinds: Map<GpuEngineId, EngineKindView>,
    engines: Seq<EngineSampleView>,
)
    ensures
        keeping_kind(kinds, engines).len() <= engines.len(),
    decreases engines.len(),
{
    if engines.len() > 0 {
        lemma_keeping_length(kinds, engines.drop_last());
    }
}

/// If an engine of a prefix changes its kind, fewer engines than there are keep theirs.
proof fn lemma_keeping_prefix(
    kinds: Map<GpuEngineId, EngineKindView>,
    engines: Seq<EngineSampleView>,
    n: int,
)
    requires
        0 <= n <= engines.len(),
    ensures
        keeping_kind(kinds, engines.take(n)).len() < n ==> keeping_kind(kinds, engines).len()
            < engines.len(),
    decreases engines.len() - n,
{
    if n == engines.len() {
        assert(engines.take(n) =~= engines);
    } else {
        lemma_keeping_prefix(kinds, engines, n + 1);
        assert(engines.take(n + 1).drop_last() =~= engines.take(n));
    }
}

pub open spec fn kind_change_issue(id: GpuAdapterId) -> IssueView {
    issue(
        Some(id),
        GpuSampleSource::Engine,
        None,
        "GPU engine type changed without a topology generation",
    )
}

/// The kinds that are known after the engines of some samples were seen.
pub open spec fn kinds_after(
    kinds: Map<GpuEngineId, EngineKindView>,
    samples: Seq<GpuCounterSample>,
) -> Map<GpuEngineId, EngineKindView>
    decreases samples.len(),
{
    if samples.len() == 0 {
        kinds
    } else {
        with_kinds(
            kinds_after(kinds, samples.drop_last()),
            engine_sample_views(samples.last().engines@),
        )
    }
}

/// Whether `after` is `before` without the engines that change their kind. For each of them
/// there is an issue, and no overall utilization where there is any.
pub open spec fn keeps_known_kinds(
    after: GpuCounterSample,
    before: GpuCounterSample,
    kinds: Map<GpuEngineId, EngineKindView>,
) -> bool {
    let engines = engine_sample_views(before.engines@);
    let kept = keeping_kind(kinds, engines);
    &&& engine_sample_views(after.engines@) == kept
    &&& issue_views(after.row_errors@) == issue_views(before.row_errors@) + Seq::new(
        (engines.len() - kept.len()) as nat,
        |i: int| kind_change_issue(before.info.id),
    )
    &&& after.overall_utilization_percent == if kept.len() < engines.len() {
        None
    } else {
        before.overall_utilization_percent
    }
    &&& after.info == before.info
    &&& after.dedicated_usage_bytes == before.dedicated_usage_bytes
    &&& after.shared_usage_bytes == before.shared_usage_bytes
    &&& after.temperature_deci_c == before.temperature_deci_c
}

fn keep_known_kinds_of(
    kinds: &mut Table<GpuEngineId, GpuEngineKind>,
    sample: GpuCounterSample,
) -> (kept: GpuCounterSample)
    requires
        old(kinds).well_formed(),
    ensures
        final(kinds).well_formed(),
        kind_views(final(kinds)@) == with_kinds(
            kind_views(old(kinds)@),
            engine_sample_views(sample.engines@),
        ),
        keeps_known_kinds(kept, sample, kind_views(old(kinds)@)),
{
    let ghost start = kind_views(kinds@);
    let ghost all = engine_sample_views(sample.engines@);
    let ghost noted = issue_views(sample.row_errors@);
    let id: GpuAdapterId = sample.info.id;
    let mut valid: Vec<GpuEngineSample> = Vec::new();
    let mut row_errors = sample.row_errors;
    let mut changed_any = false;
    assert(engine_sample_views(valid@) =~= keeping_kind(start, all.take(0)));
    for index in 0..sample.engines.len()
        invariant
            kinds.well_formed(),
            all == engine_sample_views(sample.engines@),
            kind_views(kinds@) == with_kinds(start, all.take(index as int)),
            engine_sample_views(valid@) == keeping_kind(start, all.take(index as int)),
            valid@.len() <= index,
            changed_any == (valid@.len() < index),
            issue_views(row_errors@) =~= noted + Seq::new(
                (index - valid@.len()) as nat,
                |i: int| kind_change_issue(id),
            ),
    {
        let engine = &sample.engines[index];
        let ghost known = valid@;
        let ghost before = row_errors@;
        assert(all.take(index + 1).drop_last() =~= all.take(index as int));
        assert(all.take(index + 1).last() == engine@);
        if note_kind(kinds, engine) {
            let change = GpuSampleIssue::new(
                Some(id),
                GpuSampleSource::Engine,
                None,
                GpuSampleError::InvalidData {
                    context: "GPU engine type changed without a topology generation",
                },
            );
            row_errors.push(change);
            changed_any = true;
            assert(issue_views(row_errors@) =~= issue_views(before).push(change@));
        } else {
            let copied = GpuEngineSample {
                id: engine.id,
                kind: engine.kind.copied(),
                utilization_percent: engine.utilization_percent,
            };
            valid.push(copied);
            assert(engine_sample_views(valid@) =~= engine_sample_views(known).push(engine@));
        }
    }
    assert(all.take(all.len() as int) =~= all);
    GpuCounterSample {
        info: sample.info,
        overall_utilization_percent: if changed_any {
            None
        } else {
            sample.overall_utilization_percent
        },
        engines: valid,
        dedicated_usage_bytes: sample.dedicated_usage_bytes,
        shared_usage_bytes: sample.shared_usage_bytes,
        temperature_deci_c: sample.temperature_deci_c,
        row_errors,
    }
}

/// Takes out of the samples the engines that are known under another kind, and returns the
/// kinds that are known from now on.
pub fn keep_known_kinds(
    existing: &Table<GpuEngineId, GpuEngineKind>,
    samples: Vec<GpuCounterSample>,
) -> (outcome: (Table<GpuEngineId, GpuEngineKind>, Vec<GpuCounterSample>))
    requires
        existing.well_formed(),
    ensures
        outcome.0.well_formed(),
        kind_views(outcome.0@) == kinds_after(kind_views(existing@), samples@),
        outcome.1@.len() == samples@.len(),
        forall|i: int|
            0 <= i < samples@.len() ==> keeps_known_kinds(
                #[trigger] outcome.1@[i],
                samples@[i],
                kinds_after(kind_views(existing@), samples@.take(i)),
            ),
{
    let ghost start = kind_views(existing@);
    let ghost given = samples@;
    let mut kinds = copied_kinds(existing);
    let mut rest = samples;
    let mut kept: Vec<GpuCounterSample> = Vec::new();
    let count: usize = rest.len();
    assert(given.take(0) =~= Seq::<GpuCounterSample>::empty());
    for index in 0..count
        invariant
            count == given.len(),
            rest@ == given.skip(index as int),
            kinds.well_formed(),
            kind_views(kinds@) == kinds_after(start, given.take(index as int)),
            kept@.len() == index,
            forall|i: int|
                0 <= i < index ==> keeps_known_kinds(
                    #[trigger] kept@[i],
                    given[i],
                    kinds_after(start, given.take(i)),
                ),
    {
        let sample = rest.remove(0);
        assert(rest@ =~= given.skip(index + 1));
        assert(given.take(index + 1).drop_last() =~= given.take(index as int));
        kept.push(keep_known_kinds_of(&mut kinds, sample));
    }
    assert(given.take(count as int) =~= given);
    (kinds, kept)
}

/// A counter value that was read for one instance.
#[derive(Clone, Debug, PartialEq, Eq)]
pub struct CounterArrayItem<V> {
    pub name: String,
    pub value: V,
}

#[derive(Clone, Debug, PartialEq, Eq)]
pub struct CounterArrayRead<V> {
    pub values: Vec<CounterArrayItem<V>>,
    pub issues: Vec<CounterItemIssue>,
}

pub open spec fn usable_engine_items<U: Utilization>(items: Seq<CounterArrayItem<U>>) -> Seq<
    (Seq<char>, U),
>
    decreases items.len(),
{
    if items.len() == 0 {
        Seq::empty()
    } else {
        let before = usable_engine_items(items.drop_last());
        if items.last().value.valid() {
            before.push((items.last().name@, items.last().value))
        } else {
            before
        }
    }
}

pub open spec fn usable_memory_items(items: Seq<CounterArrayItem<i64>>) -> Seq<(Seq<char>, i64)>
    decreases items.len(),
{
    if items.len() == 0 {
        Seq::empty()
    } else {
        let before = usable_memory_items(items.drop_last());
        if items.last().value >= 0 {
            before.push((items.last().name@, items.last().value))
        } else {
            before
        }
    }
}

/// The names of the engine items without a usable value.
pub open spec fn unusable_engine_items<U: Utilization>(items: Seq<CounterArrayItem<U>>) -> Seq<
    Seq<char>,
>
    decreases items.len(),
{
    if items.len() == 0 {
        Seq::empty()
    } else {
        let before = unusable_engine_items(items.drop_last());
        if items.last().value.valid() {
            before
        } else {
            before.push(items.last().name@)
        }
    }
}

pub open spec fn unusable_memory_items(items: Seq<CounterArrayItem<i64>>) -> Seq<Seq<char>>
    decreases items.len(),
{
    if items.len() == 0 {
        Seq::empty()
    } else {
        let before = unusable_memory_items(items.drop_last());
        if items.last().value >= 0 {
            before
        } else {
            before.push(items.last().name@)
        }
    }
}

/// A reading that came without a usable value, with its name as characters.
pub struct ItemIssueView {
    pub instance_name: Option<Seq<char>>,
    pub error: GpuSampleError,
}

impl View for CounterItemIssue {
    type V = ItemIssueView;

    open spec fn view(&self) -> ItemIssueView {
        ItemIssueView { instance_name: name_view(self.instance_name), error: self.error }
    }
}

pub open spec fn item_issue_views(issues: Seq<CounterItemIssue>) -> Seq<ItemIssueView> {
    issues.map_values(|noted: CounterItemIssue| noted@)
}

pub open spec fn value_issues(names: Seq<Seq<char>>, context: &'static str) -> Seq<ItemIssueView> {
    names.map_values(
        |name: Seq<char>|
            ItemIssueView {
                instance_name: Some(name),
                error: GpuSampleError::InvalidData { context },
            },
    )
}

pub open spec fn engine_reading_views<U>(values: Seq<EngineReading<U>>) -> Seq<(Seq<char>, U)> {
    values.map_values(|reading: EngineReading<U>| (reading.instance_name@, reading.utilization))
}

pub open spec fn memory_reading_views(values: Seq<MemoryReading>) -> Seq<(Seq<char>, i64)> {
    values.map_values(|reading: MemoryReading| (reading.instance_name@, reading.bytes))
}

/// Sorts the items of the engine counter into usable readings and issues.
pub fn engine_values<U: Utilization>(items: CounterArrayRead<U>) -> (read: CounterRead<
    EngineReading<U>,
>)
    ensures
        engine_reading_views(read.values@) == usable_engine_items(items.values@),
        item_issue_views(read.issues@) == item_issue_views(items.issues@) + value_issues(
            unusable_engine_items(items.values@),
            "GPU engine utilization value",
        ),
{
    let ghost given = items.values@;
    let ghost noted = item_issue_views(items.issues@);
    let mut values: Vec<EngineReading<U>> = Vec::new();
    let mut issues = items.issues;
    assert(given.take(0) =~= Seq::<CounterArrayItem<U>>::empty());
    for index in 0..items.values.len()
        invariant
            given == items.values@,
            engine_reading_views(values@) =~= usable_engine_items(given.take(index as int)),
            item_issue_views(issues@) =~= noted + value_issues(
                unusable_engine_items(given.take(index as int)),
                "GPU engine utilization value",
            ),
    {
        assert(given.take(index + 1).drop_last() =~= given.take(index as int));
        let item = &items.values[index];
        let ghost known = values@;
        let ghost before = issues@;
        if item.value.is_valid() {
            let reading = EngineReading {
                instance_name: item.name.clone(),
                utilization: item.value,
            };
            values.push(reading);
            assert(engine_reading_views(values@) =~= engine_reading_views(known).push(
                (item.name@, item.value),
            ));
        } else {
            let unusable = CounterItemIssue {
                instance_name: Some(item.name.clone()),
                error: GpuSampleError::InvalidData { context: "GPU engine utilization value" },
            };
            issues.push(unusable);
            assert(item_issue_views(issues@) =~= item_issue_views(before).push(unusable@));
        }
    }
    assert(given.take(given.len() as int) =~= given);
    CounterRead { values, issues }
}

/// Sorts the items of a memory counter into usable readings and issues.
pub fn memory_values(items: CounterArrayRead<i64>) -> (read: CounterRead<MemoryReading>)
    ensures
        memory_reading_views(read.values@) == usable_memory_items(items.values@),
        item_issue_views(read.issues@) == item_issue_views(items.issues@) + value_issues(
            unusable_memory_items(items.values@),
            "GPU memory usage value",
        ),
{
    let ghost given = items.values@;
    let ghost noted = item_issue_views(items.issues@);
    let mut values: Vec<MemoryReading> = Vec::new();
    let mut issues = items.issues;
    assert(given.take(0) =~= Seq::<CounterArrayItem<i64>>::empty());
    for index in 0..items.values.len()
        invariant
            given == items.values@,
            memory_reading_views(values@) =~= usable_memory_items(given.take(index as int)),
            item_issue_views(issues@) =~= noted + value_issues(
                unusable_memory_items(given.take(index as int)),
                "GPU memory usage value",
            ),
    {
        assert(given.take(index + 1).drop_last() =~= given.take(index as int));
        let item = &items.values[index];
        let ghost known = values@;
        let ghost before = issues@;
        if item.value >= 0 {
            let reading = MemoryReading { instance_name: item.name.clone(), bytes: item.value };
            values.push(reading);
            assert(memory_reading_views(values@) =~= memory_reading_views(known).push(
                (item.name@, item.value),
            ));
        } else {
            let unusable = CounterItemIssue {
                instance_name: Some(item.name.clone()),
                error: GpuSampleError::InvalidData { context: "GPU memory usage value" },
            };
            issues.push(unusable);
            assert(item_issue_views(issues@) =~= item_issue_views(before).push(unusable@));
        }
    }
    assert(given.take(given.len() as int) =~= given);
    CounterRead { values, issues }
}

} // verus!
