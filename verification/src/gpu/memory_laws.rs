//! What the samples say of memory and temperature, and of kinds, told from the readings.
use std::sync::Arc;

use vstd::prelude::*;

use super::counters::{
    dedicated_totals, displayed_ids, engine_totals, is_complete_sample, is_sample, keeping_kind,
    readings,
    temperature_for, usable_engine_items, usable_memory_items, unusable_engine_items,
    unusable_memory_items, with_kinds, with_memory_readings, CounterArrayItem, CounterReadView,
    EngineReading, MemoryReading, MemoryTotals, TemperatureReading,
};
use super::instances::memory_instance;
use super::model::{
    AdapterLuid, EngineKindView, EngineSampleView, GpuAdapterId, GpuAdapterInfo, GpuAdapterSample,
    GpuCounterSample, GpuEngineId, GpuSampleError, GpuSampleSource,
};
use crate::percent::Utilization;

verus! {

/// Whether a reading is one of the adapter.
pub open spec fn is_memory_of(reading: MemoryReading, id: GpuAdapterId) -> bool {
    memory_instance(reading.instance_name@) == Ok::<GpuAdapterId, GpuSampleError>(id)
}

proof fn lemma_memory_of_one(
    start: MemoryTotals,
    list: Seq<MemoryReading>,
    known: Seq<AdapterLuid>,
    displayed: Seq<GpuAdapterId>,
    source: GpuSampleSource,
    duplicate: &'static str,
    id: GpuAdapterId,
)
    requires
        known.contains(id.luid),
        displayed.contains(id),
        !start.values.contains_key(id),
        !start.invalid.contains(id),
    ensures
        ({
            let totals = with_memory_readings(start, list, known, displayed, source, duplicate);
            let own = list.filter(|reading: MemoryReading| is_memory_of(reading, id));
            &&& own.len() == 0 ==> !totals.values.contains_key(id) && !totals.invalid.contains(id)
            &&& own.len() == 1 && own[0].bytes >= 0 ==> totals.values.contains_key(id)
                && totals.values[id] == own[0].bytes && !totals.invalid.contains(id)
            &&& own.len() == 1 && own[0].bytes < 0 || own.len() > 1
                ==> !totals.values.contains_key(id) && totals.invalid.contains(id)
        }),
    decreases list.len(),
{
    reveal(Seq::filter);
    let wanted = |reading: MemoryReading| is_memory_of(reading, id);
    if list.len() > 0 {
        lemma_memory_of_one(start, list.drop_last(), known, displayed, source, duplicate, id);
        let before = list.drop_last().filter(wanted);
        if wanted(list.last()) {
            assert(list.filter(wanted) == before.push(list.last()));
        }
    }
}

/// The amount of memory in a sample is that of the one reading of the adapter. An adapter with no
/// reading, with two, or with a negative one has no amount. Dedicated and shared memory come each
/// from their own counter.
pub proof fn memory_is_that_of_the_only_reading<U: Utilization>(
    sample: GpuCounterSample,
    infos: Seq<Arc<GpuAdapterInfo>>,
    known: Seq<AdapterLuid>,
    engines: CounterReadView<EngineReading<U>>,
    dedicated: CounterReadView<MemoryReading>,
    shared: CounterReadView<MemoryReading>,
    temperatures: Seq<TemperatureReading>,
    info: Arc<GpuAdapterInfo>,
    repeated: bool,
)
    requires
        is_sample(
            sample,
            readings(infos, known, engines, dedicated, shared, temperatures),
            info,
            repeated,
        ),
        known.contains(info.id.luid),
        displayed_ids(infos).contains(info.id),
    ensures
        ({
            let wanted = |reading: MemoryReading| is_memory_of(reading, info.id);
            let (first, second) = (dedicated.values.filter(wanted), shared.values.filter(wanted));
            &&& match sample.dedicated_usage_bytes {
                Some(bytes) => first.len() == 1 && first[0].bytes == bytes,
                None => first.len() != 1 || first[0].bytes < 0,
            }
            &&& match sample.shared_usage_bytes {
                Some(bytes) => second.len() == 1 && second[0].bytes == bytes,
                None => second.len() != 1 || second[0].bytes < 0,
            }
        }),
{
    lemma_memory_of_readings(infos, known, engines, dedicated, shared, temperatures, info.id);
}

proof fn lemma_temperature_for(list: Seq<TemperatureReading>, id: GpuAdapterId)
    ensures
        match temperature_for(list, id) {
            None => forall|i: int| 0 <= i < list.len() ==> (#[trigger] list[i]).id != id,
            Some(result) => exists|i: int|
                0 <= i < list.len() && (#[trigger] list[i]).id == id
                    && list[i].result == result && (
                forall|j: int| 0 <= j < i ==> (#[trigger] list[j]).id != id),
        },
    decreases list.len(),
{
    if list.len() > 0 && list[0].id != id {
        let rest = list.drop_first();
        lemma_temperature_for(rest, id);
        match temperature_for(rest, id) {
            None => {
                assert forall|i: int| 0 <= i < list.len() implies (#[trigger] list[i]).id != id by {
                    if i > 0 {
                        assert(rest[i - 1] == list[i]);
                    }
                }
            },
            Some(result) => {
                let i = choose|i: int|
                    0 <= i < rest.len() && (#[trigger] rest[i]).id == id && rest[i].result == result
                        && (forall|j: int| 0 <= j < i ==> (#[trigger] rest[j]).id != id);
                assert(list[i + 1] == rest[i]);
                assert forall|j: int| 0 <= j < i + 1 implies (#[trigger] list[j]).id != id by {
                    if j > 0 {
                        assert(rest[j - 1] == list[j]);
                    }
                }
            },
        }
    }
}

/// The temperature in the first sample of an adapter is what the query of that adapter returned;
/// where the query failed, or there was none, there is no temperature, but an issue.
pub proof fn temperature_is_that_of_the_adapter<U: Utilization>(
    sample: GpuCounterSample,
    infos: Seq<Arc<GpuAdapterInfo>>,
    known: Seq<AdapterLuid>,
    engines: CounterReadView<EngineReading<U>>,
    dedicated: CounterReadView<MemoryReading>,
    shared: CounterReadView<MemoryReading>,
    temperatures: Seq<TemperatureReading>,
    info: Arc<GpuAdapterInfo>,
    at: int,
)
    requires
        is_sample(
            sample,
            readings(infos, known, engines, dedicated, shared, temperatures),
            info,
            false,
        ),
        0 <= at < temperatures.len(),
        temperatures[at].id == info.id,
        forall|i: int|
            0 <= i < temperatures.len() && i != at ==> (#[trigger] temperatures[i]).id != info.id,
    ensures
        match temperatures[at].result {
            Ok(value) => sample.temperature_deci_c == value,
            Err(_) => sample.temperature_deci_c is None,
        },
{
    lemma_temperature_for(temperatures, info.id);
    assert(temperatures[at].id == info.id);
}

/// An item with a usable value becomes a reading, with its name and its value and in its place;
/// any other becomes an issue, under its name.
pub proof fn engine_items_are_sorted_by_use<U: Utilization>(items: Seq<CounterArrayItem<U>>)
    ensures
        usable_engine_items(items) == items.filter(
            |item: CounterArrayItem<U>| item.value.valid(),
        ).map_values(|item: CounterArrayItem<U>| (item.name@, item.value)),
        unusable_engine_items(items) == items.filter(
            |item: CounterArrayItem<U>| !item.value.valid(),
        ).map_values(|item: CounterArrayItem<U>| item.name@),
    decreases items.len(),
{
    reveal(Seq::filter);
    let usable = |item: CounterArrayItem<U>| item.value.valid();
    let unusable = |item: CounterArrayItem<U>| !item.value.valid();
    let whole = |item: CounterArrayItem<U>| (item.name@, item.value);
    let named = |item: CounterArrayItem<U>| item.name@;
    if items.len() > 0 {
        engine_items_are_sorted_by_use(items.drop_last());
    }
    assert(usable_engine_items(items) =~= items.filter(usable).map_values(whole));
    assert(unusable_engine_items(items) =~= items.filter(unusable).map_values(named));
}

/// The same for memory, where every amount is usable that is not negative.
pub proof fn memory_items_are_sorted_by_use(items: Seq<CounterArrayItem<i64>>)
    ensures
        usable_memory_items(items) == items.filter(
            |item: CounterArrayItem<i64>| item.value >= 0,
        ).map_values(|item: CounterArrayItem<i64>| (item.name@, item.value)),
        unusable_memory_items(items) == items.filter(
            |item: CounterArrayItem<i64>| item.value < 0,
        ).map_values(|item: CounterArrayItem<i64>| item.name@),
    decreases items.len(),
{
    reveal(Seq::filter);
    let usable = |item: CounterArrayItem<i64>| item.value >= 0;
    let unusable = |item: CounterArrayItem<i64>| item.value < 0;
    let whole = |item: CounterArrayItem<i64>| (item.name@, item.value);
    let named = |item: CounterArrayItem<i64>| item.name@;
    if items.len() > 0 {
        memory_items_are_sorted_by_use(items.drop_last());
    }
    assert(usable_memory_items(items) =~= items.filter(usable).map_values(whole));
    assert(unusable_memory_items(items) =~= items.filter(unusable).map_values(named));
}

/// The kind under which an engine is known: the one it was known under, or else the first one
/// that a sample gives it.
pub proof fn first_kind_of_an_engine_stays(
    kinds: Map<GpuEngineId, EngineKindView>,
    engines: Seq<EngineSampleView>,
    id: GpuEngineId,
)
    ensures
        ({
            let after = with_kinds(kinds, engines);
            &&& kinds.contains_key(id) ==> after.contains_key(id) && after[id] == kinds[id]
            &&& !kinds.contains_key(id) && after.contains_key(id) ==> exists|i: int|
                0 <= i < engines.len() && (#[trigger] engines[i]).id == id && engines[i].kind
                    == after[id] && forall|j: int|
                    0 <= j < i ==> (#[trigger] engines[j]).id != id
            &&& !after.contains_key(id) ==> forall|i: int|
                0 <= i < engines.len() ==> (#[trigger] engines[i]).id != id
        }),
    decreases engines.len(),
{
    if engines.len() > 0 {
        let front = engines.drop_last();
        let n = engines.len() - 1;
        first_kind_of_an_engine_stays(kinds, front, id);
        let before = with_kinds(kinds, front);
        let after = with_kinds(kinds, engines);
        assert(engines[n] == engines.last());
        if !kinds.contains_key(id) && after.contains_key(id) {
            if before.contains_key(id) {
                let i = choose|i: int|
                    0 <= i < front.len() && (#[trigger] front[i]).id == id && front[i].kind
                        == before[id] && forall|j: int|
                        0 <= j < i ==> (#[trigger] front[j]).id != id;
                assert(engines[i] == front[i]);
                assert forall|j: int| 0 <= j < i implies (#[trigger] engines[j]).id != id by {
                    assert(front[j].id != id);
                }
            } else {
                assert forall|j: int| 0 <= j < n implies (#[trigger] engines[j]).id != id by {
                    assert(front[j].id != id);
                }
                assert(engines[n].id == id);
            }
        }
        if !after.contains_key(id) {
            assert forall|i: int| 0 <= i < engines.len() implies (#[trigger] engines[i]).id
                != id by {
                if i < n {
                    assert(front[i].id != id);
                }
            }
        }
    }
}

/// Of the engines exactly those are kept that are of the kind under which they are known.
pub proof fn kept_engines_are_of_their_known_kind(
    kinds: Map<GpuEngineId, EngineKindView>,
    engines: Seq<EngineSampleView>,
)
    ensures
        keeping_kind(kinds, engines) == engines.filter(
            |engine: EngineSampleView| with_kinds(kinds, engines)[engine.id] == engine.kind,
        ),
{
    lemma_kept(kinds, engines, with_kinds(kinds, engines));
}

proof fn lemma_kept(
    kinds: Map<GpuEngineId, EngineKindView>,
    engines: Seq<EngineSampleView>,
    known: Map<GpuEngineId, EngineKindView>,
)
    requires
        forall|id: GpuEngineId| #[trigger]
            with_kinds(kinds, engines).contains_key(id) ==> known.contains_key(id) && known[id]
                == with_kinds(kinds, engines)[id],
    ensures
        keeping_kind(kinds, engines) == engines.filter(
            |engine: EngineSampleView| known[engine.id] == engine.kind,
        ),
    decreases engines.len(),
{
    reveal(Seq::filter);
    let fits = |engine: EngineSampleView| known[engine.id] == engine.kind;
    if engines.len() > 0 {
        let front = engines.drop_last();
        let before = with_kinds(kinds, front);
        let after = with_kinds(kinds, engines);
        assert forall|id: GpuEngineId| #[trigger]
            before.contains_key(id) implies known.contains_key(id) && known[id] == before[id] by {
            assert(after.contains_key(id));
        }
        lemma_kept(kinds, front, known);
        assert(after.contains_key(engines.last().id));
    } else {
        assert(keeping_kind(kinds, engines) =~= engines.filter(fits));
    }
}

/// A complete sample of an adapter holds the amounts of the only readings of it as well, and the
/// utilization of its busiest engine.
pub proof fn complete_sample_holds_the_only_readings<U: Utilization>(
    sample: GpuAdapterSample,
    infos: Seq<Arc<GpuAdapterInfo>>,
    known: Seq<AdapterLuid>,
    engines: CounterReadView<EngineReading<U>>,
    dedicated: CounterReadView<MemoryReading>,
    shared: CounterReadView<MemoryReading>,
    temperatures: Seq<TemperatureReading>,
    info: Arc<GpuAdapterInfo>,
    repeated: bool,
)
    requires
        is_complete_sample(
            sample,
            readings(infos, known, engines, dedicated, shared, temperatures),
            info,
            repeated,
        ),
        known.contains(info.id.luid),
        displayed_ids(infos).contains(info.id),
    ensures
        ({
            let wanted = |reading: MemoryReading| is_memory_of(reading, info.id);
            let (first, second) = (dedicated.values.filter(wanted), shared.values.filter(wanted));
            &&& sample.info == info
            &&& first.len() == 1 && first[0].bytes == sample.dedicated_usage_bytes
            &&& second.len() == 1 && second[0].bytes == sample.shared_usage_bytes
            &&& forall|i: int|
                0 <= i < sample.engines@.len()
                    ==> (#[trigger] sample.engines@[i]).utilization_percent
                    <= sample.overall_utilization_percent
            &&& sample.engines@.len() == 0 ==> sample.overall_utilization_percent == 0
        }),
{
    lemma_memory_of_readings(infos, known, engines, dedicated, shared, temperatures, info.id);
}

proof fn lemma_memory_of_readings<U: Utilization>(
    infos: Seq<Arc<GpuAdapterInfo>>,
    known: Seq<AdapterLuid>,
    engines: CounterReadView<EngineReading<U>>,
    dedicated: CounterReadView<MemoryReading>,
    shared: CounterReadView<MemoryReading>,
    temperatures: Seq<TemperatureReading>,
    id: GpuAdapterId,
)
    requires
        known.contains(id.luid),
        displayed_ids(infos).contains(id),
    ensures
        ({
            let all = readings(infos, known, engines, dedicated, shared, temperatures);
            let wanted = |reading: MemoryReading| is_memory_of(reading, id);
            let (first, second) = (dedicated.values.filter(wanted), shared.values.filter(wanted));
            &&& all.dedicated.contains_key(id) ==> first.len() == 1 && first[0].bytes
                == all.dedicated[id]
            &&& !all.dedicated.contains_key(id) ==> first.len() != 1 || first[0].bytes < 0
            &&& all.shared.contains_key(id) ==> second.len() == 1 && second[0].bytes
                == all.shared[id]
            &&& !all.shared.contains_key(id) ==> second.len() != 1 || second[0].bytes < 0
        }),
{
    let displayed = displayed_ids(infos);
    let issues = engine_totals(engines, known, displayed).issues;
    let between = dedicated_totals(issues, dedicated, known, displayed).issues;
    lemma_memory_of_one(
        MemoryTotals {
            issues: issues.with_item_issues(
                GpuSampleSource::DedicatedMemory,
                dedicated.issues,
                displayed,
            ),
            values: Map::empty(),
            invalid: Set::empty(),
        },
        dedicated.values,
        known,
        displayed,
        GpuSampleSource::DedicatedMemory,
        "duplicate dedicated GPU memory instance",
        id,
    );
    lemma_memory_of_one(
        MemoryTotals {
            issues: between.with_item_issues(
                GpuSampleSource::SharedMemory,
                shared.issues,
                displayed,
            ),
            values: Map::empty(),
            invalid: Set::empty(),
        },
        shared.values,
        known,
        displayed,
        GpuSampleSource::SharedMemory,
        "duplicate shared GPU memory instance",
        id,
    );
}

} // verus!
