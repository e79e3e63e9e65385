//! What holds of samples whatever the counters deliver.
use std::sync::Arc;

use vstd::prelude::*;

use super::counters::{
    dedicated_totals, displayed_ids, engine_totals, memory_totals, readings, with_memory_readings,
    CounterReadView, EngineReading, IssueLists, MemoryReading, MemoryTotals, TemperatureReading,
};
use super::instances::memory_instance;
use super::model::{AdapterLuid, GpuAdapterId, GpuAdapterInfo, GpuSampleError, GpuSampleSource};
use crate::percent::Utilization;

verus! {

/// A reading that says that an adapter uses an amount of memory.
pub open spec fn says(reading: MemoryReading, id: GpuAdapterId, bytes: u64) -> bool {
    memory_instance(reading.instance_name@) == Ok::<GpuAdapterId, GpuSampleError>(id)
        && reading.bytes >= 0 && reading.bytes == bytes
}

proof fn lemma_memory_is_read(
    start: MemoryTotals,
    list: Seq<MemoryReading>,
    known: Seq<AdapterLuid>,
    displayed: Seq<GpuAdapterId>,
    source: GpuSampleSource,
    duplicate: &'static str,
)
    requires
        start.values == Map::<GpuAdapterId, u64>::empty(),
    ensures
        ({
            let totals = with_memory_readings(start, list, known, displayed, source, duplicate);
            forall|id: GpuAdapterId| #[trigger]
                totals.values.contains_key(id) ==> exists|i: int|
                    0 <= i < list.len() && says(#[trigger] list[i], id, totals.values[id])
        }),
    decreases list.len(),
{
    let totals = with_memory_readings(start, list, known, displayed, source, duplicate);
    if list.len() > 0 {
        let front = list.drop_last();
        let earlier = with_memory_readings(start, front, known, displayed, source, duplicate);
        lemma_memory_is_read(start, front, known, displayed, source, duplicate);
        assert forall|id: GpuAdapterId| #[trigger] totals.values.contains_key(id) implies exists|
            i: int,
        |
            0 <= i < list.len() && says(#[trigger] list[i], id, totals.values[id]) by {
            if earlier.values.contains_key(id) && earlier.values[id] == totals.values[id] {
                let i = choose|i: int|
                    0 <= i < front.len() && says(#[trigger] front[i], id, earlier.values[id]);
                assert(says(list[i], id, totals.values[id]));
            } else {
                assert(says(list[list.len() - 1], id, totals.values[id]));
            }
        }
    }
}

/// An amount of memory in a sample was read: without a reading there is no amount, never a zero.
pub proof fn memory_is_never_invented<U: Utilization>(
    infos: Seq<Arc<GpuAdapterInfo>>,
    known: Seq<AdapterLuid>,
    engines: CounterReadView<EngineReading<U>>,
    dedicated: CounterReadView<MemoryReading>,
    shared: CounterReadView<MemoryReading>,
    temperatures: Seq<TemperatureReading>,
    id: GpuAdapterId,
)
    ensures
        ({
            let all = readings(infos, known, engines, dedicated, shared, temperatures);
            &&& all.dedicated.contains_key(id) ==> exists|i: int|
                0 <= i < dedicated.values.len() && says(
                    #[trigger] dedicated.values[i],
                    id,
                    all.dedicated[id],
                )
            &&& all.shared.contains_key(id) ==> exists|i: int|
                0 <= i < shared.values.len() && says(
                    #[trigger] shared.values[i],
                    id,
                    all.shared[id],
                )
        }),
{
    let displayed = displayed_ids(infos);
    let first = engine_totals(engines, known, displayed).issues;
    let second = dedicated_totals(first, dedicated, known, displayed).issues;
    lemma_memory_is_read(
        MemoryTotals {
            issues: first.with_item_issues(
                GpuSampleSource::DedicatedMemory,
                dedicated.issues,
                displayed,
            ),
            values: Map::empty(),
            invalid: Set::empty(),
        },
        dedicated.values,
        known,
        displayed,
        GpuSampleSource::DedicatedMemory,
        "duplicate dedicated GPU memory instance",
    );
    lemma_memory_is_read(
        MemoryTotals {
            issues: second.with_item_issues(
                GpuSampleSource::SharedMemory,
                shared.issues,
                displayed,
            ),
            values: Map::empty(),
            invalid: Set::empty(),
        },
        shared.values,
        known,
        displayed,
        GpuSampleSource::SharedMemory,
        "duplicate shared GPU memory instance",
    );
}

proof fn lemma_memory_stands_alone(
    first: MemoryTotals,
    second: MemoryTotals,
    list: Seq<MemoryReading>,
    known: Seq<AdapterLuid>,
    displayed: Seq<GpuAdapterId>,
    source: GpuSampleSource,
    duplicate: &'static str,
)
    requires
        first.values == second.values,
        first.invalid == second.invalid,
    ensures
        with_memory_readings(first, list, known, displayed, source, duplicate).values
            == with_memory_readings(second, list, known, displayed, source, duplicate).values,
        with_memory_readings(first, list, known, displayed, source, duplicate).invalid
            == with_memory_readings(second, list, known, displayed, source, duplicate).invalid,
    decreases list.len(),
{
    if list.len() > 0 {
        lemma_memory_stands_alone(
            first,
            second,
            list.drop_last(),
            known,
            displayed,
            source,
            duplicate,
        );
    }
}

proof fn lemma_totals_stand_alone(
    first: IssueLists,
    second: IssueLists,
    read: CounterReadView<MemoryReading>,
    known: Seq<AdapterLuid>,
    displayed: Seq<GpuAdapterId>,
    source: GpuSampleSource,
    duplicate: &'static str,
)
    ensures
        memory_totals(first, read, known, displayed, source, duplicate).values == memory_totals(
            second,
            read,
            known,
            displayed,
            source,
            duplicate,
        ).values,
{
    lemma_memory_stands_alone(
        MemoryTotals {
            issues: first.with_item_issues(source, read.issues, displayed),
            values: Map::empty(),
            invalid: Set::empty(),
        },
        MemoryTotals {
            issues: second.with_item_issues(source, read.issues, displayed),
            values: Map::empty(),
            invalid: Set::empty(),
        },
        read.values,
        known,
        displayed,
        source,
        duplicate,
    );
}

/// Every source stands on its own: whatever the other sources deliver, the engines and the
/// amounts of memory that one source delivers stay the same.
pub proof fn sources_are_independent<U: Utilization>(
    infos: Seq<Arc<GpuAdapterInfo>>,
    known: Seq<AdapterLuid>,
    engines: CounterReadView<EngineReading<U>>,
    other_engines: CounterReadView<EngineReading<U>>,
    dedicated: CounterReadView<MemoryReading>,
    other_dedicated: CounterReadView<MemoryReading>,
    shared: CounterReadView<MemoryReading>,
    other_shared: CounterReadView<MemoryReading>,
    temperatures: Seq<TemperatureReading>,
)
    ensures
        readings(infos, known, engines, dedicated, shared, temperatures).engines == readings(
            infos,
            known,
            engines,
            other_dedicated,
            other_shared,
            temperatures,
        ).engines,
        readings(infos, known, engines, dedicated, shared, temperatures).dedicated == readings(
            infos,
            known,
            other_engines,
            dedicated,
            other_shared,
            temperatures,
        ).dedicated,
        readings(infos, known, engines, dedicated, shared, temperatures).shared == readings(
            infos,
            known,
            other_engines,
            other_dedicated,
            shared,
            temperatures,
        ).shared,
{
    let displayed = displayed_ids(infos);
    let first = engine_totals(engines, known, displayed).issues;
    let second = engine_totals(other_engines, known, displayed).issues;
    lemma_totals_stand_alone(
        first,
        second,
        dedicated,
        known,
        displayed,
        GpuSampleSource::DedicatedMemory,
        "duplicate dedicated GPU memory instance",
    );
    lemma_totals_stand_alone(
        dedicated_totals(first, dedicated, known, displayed).issues,
        dedicated_totals(second, other_dedicated, known, displayed).issues,
        shared,
        known,
        displayed,
        GpuSampleSource::SharedMemory,
        "duplicate shared GPU memory instance",
    );
}

} // verus!
