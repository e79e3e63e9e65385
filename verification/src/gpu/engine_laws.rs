//! What the samples say of engines, told from the readings alone.
use std::sync::Arc;

use vstd::prelude::*;

use super::counters::{
    concerns_engines, dedicated_totals, displayed_ids, engine_totals, is_complete_sample,
    is_sample, readings, rows_of,
    sample_issues, shared_totals, with_engine_reading, with_engine_readings, with_memory_readings,
    CounterReadView, EngineReading, EngineTotals, IssueLists, MemoryReading, MemoryTotals,
    TemperatureReading,
};
use super::instances::{engine_instance, EngineInstanceView};
use super::model::{
    AdapterLuid, EngineKindView, GpuAdapterId, GpuAdapterInfo, GpuAdapterSample,
    GpuCounterSample, GpuEngineId,
    GpuSampleSource, IssueView,
};
use crate::percent::{HundredthPercent, Utilization};

verus! {

/// Whether a reading tells what some process used of the engine.
pub open spec fn reads<U>(reading: EngineReading<U>, engine: GpuEngineId) -> bool {
    engine_instance(reading.instance_name@) is Ok && engine_instance(
        reading.instance_name@,
    )->Ok_0.id == engine
}

/// What all processes used of the engine, in the order of the readings.
pub open spec fn amounts_on<U>(list: Seq<EngineReading<U>>, engine: GpuEngineId) -> Seq<U> {
    list.filter(|reading: EngineReading<U>| reads(reading, engine)).map_values(
        |reading: EngineReading<U>| reading.utilization,
    )
}

/// The sum of all amounts, where it can be represented.
pub open spec fn sum_of<U: Utilization>(amounts: Seq<U>) -> Option<U> {
    amounts.fold_left(
        Some(U::nothing()),
        |sum: Option<U>, amount: U|
            match sum {
                Some(sum) => sum.total(amount),
                None => None,
            },
    )
}

/// Whether the readings of the engine are usable, come from different processes and agree that
/// it is of the kind `kind`.
pub open spec fn reads_well<U: Utilization>(
    list: Seq<EngineReading<U>>,
    engine: GpuEngineId,
    kind: EngineKindView,
) -> bool {
    &&& forall|i: int|
        0 <= i < list.len() && reads(#[trigger] list[i], engine) ==> list[i].utilization.valid()
            && engine_instance(list[i].instance_name@)->Ok_0.kind == kind
    &&& forall|i: int, j: int|
        0 <= i < j < list.len() && reads(#[trigger] list[i], engine) && reads(
            #[trigger] list[j],
            engine,
        ) ==> engine_instance(list[i].instance_name@)->Ok_0.pid != engine_instance(
            list[j].instance_name@,
        )->Ok_0.pid
}

proof fn lemma_amounts_step<U: Utilization>(list: Seq<EngineReading<U>>, engine: GpuEngineId)
    requires
        list.len() > 0,
    ensures
        amounts_on(list, engine) == if reads(list.last(), engine) {
            amounts_on(list.drop_last(), engine).push(list.last().utilization)
        } else {
            amounts_on(list.drop_last(), engine)
        },
        reads(list.last(), engine) ==> sum_of(amounts_on(list, engine)) == match sum_of(
            amounts_on(list.drop_last(), engine),
        ) {
            Some(sum) => sum.total(list.last().utilization),
            None => None,
        },
        !reads(list.last(), engine) ==> sum_of(amounts_on(list, engine)) == sum_of(
            amounts_on(list.drop_last(), engine),
        ),
{
    reveal(Seq::filter);
    let before = amounts_on(list.drop_last(), engine);
    let after = amounts_on(list, engine);
    if reads(list.last(), engine) {
        assert(after =~= before.push(list.last().utilization));
        assert(after.drop_last() =~= before);
    } else {
        assert(after =~= before);
    }
}

proof fn lemma_amounts_empty<U: Utilization>(list: Seq<EngineReading<U>>, engine: GpuEngineId)
    requires
        list.len() == 0,
    ensures
        amounts_on(list, engine) == Seq::<U>::empty(),
        sum_of(amounts_on(list, engine)) == Some(U::nothing()),
{
    reveal(Seq::filter);
    assert(amounts_on(list, engine) =~= Seq::<U>::empty());
}

/// Readings that tell nothing of an engine leave it as it was.
proof fn lemma_other_engine_stays<U: Utilization>(
    totals: EngineTotals<U>,
    reading: EngineReading<U>,
    known: Seq<AdapterLuid>,
    displayed: Seq<GpuAdapterId>,
    engine: GpuEngineId,
)
    requires
        !reads(reading, engine),
    ensures
        ({
            let after = with_engine_reading(
                totals,
                reading.instance_name@,
                reading.utilization,
                known,
                displayed,
            );
            &&& after.engines.contains_key(engine) == totals.engines.contains_key(engine)
            &&& totals.engines.contains_key(engine) ==> after.engines[engine]
                == totals.engines[engine]
            &&& forall|instance: EngineInstanceView|
                instance.id == engine ==> after.seen.contains(instance) == totals.seen.contains(
                    instance,
                )
        }),
{
}

proof fn lemma_engine_sum<U: Utilization>(
    start: EngineTotals<U>,
    list: Seq<EngineReading<U>>,
    known: Seq<AdapterLuid>,
    displayed: Seq<GpuAdapterId>,
    engine: GpuEngineId,
    kind: EngineKindView,
)
    requires
        known.contains(engine.adapter.luid),
        displayed.contains(engine.adapter),
        reads_well(list, engine, kind),
        sum_of(amounts_on(list, engine)) is Some,
        !start.engines.contains_key(engine),
        forall|instance: EngineInstanceView| #[trigger]
            start.seen.contains(instance) ==> instance.id != engine,
    ensures
        ({
            let totals = with_engine_readings(start, list, known, displayed);
            &&& forall|instance: EngineInstanceView| #[trigger]
                totals.seen.contains(instance) && instance.id == engine ==> exists|i: int|
                    0 <= i < list.len() && engine_instance((#[trigger] list[i]).instance_name@)
                        is Ok && engine_instance(list[i].instance_name@)->Ok_0 == instance
            &&& totals.engines.contains_key(engine) == (amounts_on(list, engine).len() > 0)
            &&& amounts_on(list, engine).len() > 0 ==> totals.engines[engine] == (
                kind,
                sum_of(amounts_on(list, engine))->0,
            )
        }),
    decreases list.len(),
{
    let totals = with_engine_readings(start, list, known, displayed);
    if list.len() == 0 {
        lemma_amounts_empty(list, engine);
    } else {
        let front = list.drop_last();
        let last = list.last();
        let earlier = with_engine_readings(start, front, known, displayed);
        lemma_amounts_step(list, engine);
        assert(reads_well(front, engine, kind)) by {
            assert forall|i: int| 0 <= i < front.len() && reads(#[trigger] front[i], engine) implies
                front[i].utilization.valid() && engine_instance(
                front[i].instance_name@,
            )->Ok_0.kind == kind by {
                assert(front[i] == list[i]);
            }
            assert forall|i: int, j: int|
                0 <= i < j < front.len() && reads(#[trigger] front[i], engine) && reads(
                    #[trigger] front[j],
                    engine,
                ) implies engine_instance(front[i].instance_name@)->Ok_0.pid != engine_instance(
                front[j].instance_name@,
            )->Ok_0.pid by {
                assert(front[i] == list[i] && front[j] == list[j]);
            }
        }
        lemma_engine_sum(start, front, known, displayed, engine, kind);
        if reads(last, engine) {
            let instance = engine_instance(last.instance_name@)->Ok_0;
            assert(last == list[list.len() - 1]);
            if earlier.seen.contains(instance) {
                let i = choose|i: int|
                    0 <= i < front.len() && engine_instance((#[trigger] front[i]).instance_name@)
                        is Ok && engine_instance(front[i].instance_name@)->Ok_0 == instance;
                assert(front[i] == list[i]);
                assert(reads(list[i], engine));
                assert(reads(list[list.len() - 1], engine));
            }
            assert(!earlier.seen.contains(instance));
            if amounts_on(front, engine).len() == 0 {
                assert(amounts_on(front, engine) =~= Seq::<U>::empty());
            }
        } else {
            lemma_other_engine_stays(earlier, last, known, displayed, engine);
        }
        assert forall|instance: EngineInstanceView| #[trigger]
            totals.seen.contains(instance) && instance.id == engine implies exists|i: int|
            0 <= i < list.len() && engine_instance((#[trigger] list[i]).instance_name@) is Ok
                && engine_instance(list[i].instance_name@)->Ok_0 == instance by {
            if earlier.seen.contains(instance) {
                let i = choose|i: int|
                    0 <= i < front.len() && engine_instance((#[trigger] front[i]).instance_name@)
                        is Ok && engine_instance(front[i].instance_name@)->Ok_0 == instance;
                assert(front[i] == list[i]);
            } else {
                assert(engine_instance(list[list.len() - 1].instance_name@)->Ok_0 == instance);
            }
        }
    }
}

/// What is recorded for an engine of a displayed adapter, whatever its kind, is the sum of what
/// all processes used of it. An engine that no reading tells of is not recorded.
pub proof fn engine_amount_is_the_sum_over_processes<U: Utilization>(
    read: CounterReadView<EngineReading<U>>,
    known: Seq<AdapterLuid>,
    displayed: Seq<GpuAdapterId>,
    engine: GpuEngineId,
    kind: EngineKindView,
)
    requires
        known.contains(engine.adapter.luid),
        displayed.contains(engine.adapter),
        reads_well(read.values, engine, kind),
        sum_of(amounts_on(read.values, engine)) is Some,
    ensures
        ({
            let engines = engine_totals(read, known, displayed).engines;
            let amounts = amounts_on(read.values, engine);
            &&& engines.contains_key(engine) == (amounts.len() > 0)
            &&& amounts.len() > 0 ==> engines[engine].0 == kind && Some(engines[engine].1)
                == sum_of(amounts)
        }),
{
    let start = EngineTotals::<U> {
        issues: IssueLists { global: Seq::empty(), rows: Seq::empty() }.with_item_issues(
            GpuSampleSource::Engine,
            read.issues,
            displayed,
        ),
        seen: Set::empty(),
        engines: Map::empty(),
    };
    lemma_engine_sum(start, read.values, known, displayed, engine, kind);
}

proof fn lemma_hundredths(amounts: Seq<HundredthPercent>)
    ensures
        ({
            let sum = amounts.fold_left(0int, |sum: int, amount: HundredthPercent| sum + amount.0);
            &&& sum >= 0
            &&& sum <= u64::MAX ==> sum_of(amounts) == Some(HundredthPercent(sum as u64))
            &&& sum > u64::MAX ==> sum_of(amounts) is None
        }),
    decreases amounts.len(),
{
    if amounts.len() > 0 {
        lemma_hundredths(amounts.drop_last());
    }
}

/// In hundredths of a percent, what is recorded for an engine is the arithmetic sum of what the
/// processes used.
pub proof fn hundredths_are_added_up(
    read: CounterReadView<EngineReading<HundredthPercent>>,
    known: Seq<AdapterLuid>,
    displayed: Seq<GpuAdapterId>,
    engine: GpuEngineId,
    kind: EngineKindView,
)
    requires
        known.contains(engine.adapter.luid),
        displayed.contains(engine.adapter),
        reads_well(read.values, engine, kind),
        amounts_on(read.values, engine).len() > 0,
        amounts_on(read.values, engine).fold_left(
            0int,
            |sum: int, amount: HundredthPercent| sum + amount.0,
        ) <= u64::MAX,
    ensures
        ({
            let engines = engine_totals(read, known, displayed).engines;
            engines.contains_key(engine) && engines[engine].1.0 == amounts_on(
                read.values,
                engine,
            ).fold_left(0int, |sum: int, amount: HundredthPercent| sum + amount.0)
        }),
{
    lemma_hundredths(amounts_on(read.values, engine));
    engine_amount_is_the_sum_over_processes(read, known, displayed, engine, kind);
}

/// The first sample of an adapter lists every engine that a process used, with the sum over all
/// processes rounded once, and its overall utilization is at least that of each engine.
pub proof fn sampled_engine_shows_the_sum<U: Utilization>(
    sample: GpuCounterSample,
    infos: Seq<Arc<GpuAdapterInfo>>,
    known: Seq<AdapterLuid>,
    engines: CounterReadView<EngineReading<U>>,
    dedicated: CounterReadView<MemoryReading>,
    shared: CounterReadView<MemoryReading>,
    temperatures: Seq<TemperatureReading>,
    info: Arc<GpuAdapterInfo>,
    engine: GpuEngineId,
    kind: EngineKindView,
)
    requires
        is_sample(
            sample,
            readings(infos, known, engines, dedicated, shared, temperatures),
            info,
            false,
        ),
        engine.adapter == info.id,
        known.contains(engine.adapter.luid),
        displayed_ids(infos).contains(engine.adapter),
        reads_well(engines.values, engine, kind),
        sum_of(amounts_on(engines.values, engine)) is Some,
    ensures
        amounts_on(engines.values, engine).len() > 0 ==> exists|i: int|
            0 <= i < sample.engines@.len() && {
                let shown = #[trigger] sample.engines@[i];
                &&& shown.id == engine
                &&& shown.kind@ == kind
                &&& shown.utilization_percent == sum_of(
                    amounts_on(engines.values, engine),
                )->0.displayed()
                &&& sample.overall_utilization_percent matches Some(overall) ==> overall
                    >= shown.utilization_percent
            },
        amounts_on(engines.values, engine).len() == 0 ==> forall|i: int|
            0 <= i < sample.engines@.len() ==> (#[trigger] sample.engines@[i]).id != engine,
{
    engine_amount_is_the_sum_over_processes(engines, known, displayed_ids(infos), engine, kind);
    let all = readings(infos, known, engines, dedicated, shared, temperatures);
    if amounts_on(engines.values, engine).len() > 0 {
        assert(all.engines.contains_key(engine) && engine.adapter == info.id);
        let i = choose|i: int|
            0 <= i < sample.engines@.len() && (#[trigger] sample.engines@[i]).id == engine;
        assert(sample.engines@[i].id == engine);
    }
}

/// Whether every reading names an engine of an adapter of the system, and those of the adapter
/// `id` are usable.
pub open spec fn adapter_reads_well<U: Utilization>(
    list: Seq<EngineReading<U>>,
    known: Seq<AdapterLuid>,
    id: GpuAdapterId,
    kinds: spec_fn(GpuEngineId) -> EngineKindView,
) -> bool {
    &&& forall|i: int|
        0 <= i < list.len() ==> engine_instance((#[trigger] list[i]).instance_name@) is Ok
            && known.contains(engine_instance(list[i].instance_name@)->Ok_0.id.adapter.luid)
    &&& forall|engine: GpuEngineId|
        engine.adapter == id ==> #[trigger] reads_well(list, engine, kinds(engine)) && sum_of(
            amounts_on(list, engine),
        ) is Some
}

proof fn lemma_adapter_reads_well_prefix<U: Utilization>(
    list: Seq<EngineReading<U>>,
    known: Seq<AdapterLuid>,
    id: GpuAdapterId,
    kinds: spec_fn(GpuEngineId) -> EngineKindView,
)
    requires
        list.len() > 0,
        adapter_reads_well(list, known, id, kinds),
    ensures
        adapter_reads_well(list.drop_last(), known, id, kinds),
{
    let front = list.drop_last();
    assert forall|i: int| 0 <= i < front.len() implies engine_instance(
        (#[trigger] front[i]).instance_name@,
    ) is Ok && known.contains(engine_instance(front[i].instance_name@)->Ok_0.id.adapter.luid) by {
        assert(front[i] == list[i]);
    }
    assert forall|engine: GpuEngineId| engine.adapter == id implies #[trigger] reads_well(
        front,
        engine,
        kinds(engine),
    ) && sum_of(amounts_on(front, engine)) is Some by {
        assert(reads_well(list, engine, kinds(engine)));
        lemma_amounts_step(list, engine);
        assert forall|i: int| 0 <= i < front.len() && reads(#[trigger] front[i], engine) implies
            front[i].utilization.valid() && engine_instance(front[i].instance_name@)->Ok_0.kind
            == kinds(engine) by {
            assert(front[i] == list[i]);
        }
        assert forall|i: int, j: int|
            0 <= i < j < front.len() && reads(#[trigger] front[i], engine) && reads(
                #[trigger] front[j],
                engine,
            ) implies engine_instance(front[i].instance_name@)->Ok_0.pid != engine_instance(
            front[j].instance_name@,
        )->Ok_0.pid by {
            assert(front[i] == list[i] && front[j] == list[j]);
        }
    }
}

proof fn lemma_no_engine_issue<U: Utilization>(
    start: EngineTotals<U>,
    list: Seq<EngineReading<U>>,
    known: Seq<AdapterLuid>,
    displayed: Seq<GpuAdapterId>,
    id: GpuAdapterId,
    kinds: spec_fn(GpuEngineId) -> EngineKindView,
)
    requires
        known.contains(id.luid),
        displayed.contains(id),
        adapter_reads_well(list, known, id, kinds),
        start.engines == Map::<GpuEngineId, (EngineKindView, U)>::empty(),
        start.seen == Set::<EngineInstanceView>::empty(),
        start.issues.global == Seq::<IssueView>::empty(),
        start.issues.rows == Seq::<IssueView>::empty(),
    ensures
        ({
            let totals = with_engine_readings(start, list, known, displayed);
            &&& totals.issues.global == Seq::<IssueView>::empty()
            &&& forall|i: int|
                0 <= i < totals.issues.rows.len() ==> (#[trigger] totals.issues.rows[i]).adapter_id
                    != Some(id)
        }),
    decreases list.len(),
{
    if list.len() > 0 {
        let front = list.drop_last();
        let last = list.last();
        lemma_adapter_reads_well_prefix(list, known, id, kinds);
        lemma_no_engine_issue(start, front, known, displayed, id, kinds);
        let earlier = with_engine_readings(start, front, known, displayed);
        assert(last == list[list.len() - 1]);
        let instance = engine_instance(last.instance_name@)->Ok_0;
        let engine = instance.id;
        if engine.adapter == id {
            assert(reads_well(list, engine, kinds(engine)));
            assert(reads_well(front, engine, kinds(engine)));
            lemma_engine_sum(start, front, known, displayed, engine, kinds(engine));
            lemma_amounts_step(list, engine);
            assert(reads(list[list.len() - 1], engine));
            if earlier.seen.contains(instance) {
                let i = choose|i: int|
                    0 <= i < front.len() && engine_instance((#[trigger] front[i]).instance_name@)
                        is Ok && engine_instance(front[i].instance_name@)->Ok_0 == instance;
                assert(front[i] == list[i]);
                assert(reads(list[i], engine));
            }
            if amounts_on(front, engine).len() == 0 {
                assert(amounts_on(front, engine) =~= Seq::<U>::empty());
            }
        }
    }
}

proof fn lemma_item_issues_sources(
    issues: IssueLists,
    source: GpuSampleSource,
    items: Seq<super::counters::CounterItemIssue>,
    displayed: Seq<GpuAdapterId>,
    id: GpuAdapterId,
)
    requires
        source != GpuSampleSource::Engine,
        no_engine_issue(issues, id),
    ensures
        no_engine_issue(issues.with_item_issues(source, items, displayed), id),
    decreases items.len(),
{
    if items.len() > 0 {
        lemma_item_issues_sources(issues, source, items.drop_last(), displayed, id);
    }
}

spec fn no_engine_issue(issues: IssueLists, id: GpuAdapterId) -> bool {
    &&& forall|i: int|
        0 <= i < issues.global.len() ==> (#[trigger] issues.global[i]).source
            != GpuSampleSource::Engine
    &&& forall|i: int|
        0 <= i < issues.rows.len() && (#[trigger] issues.rows[i]).adapter_id == Some(id)
            ==> issues.rows[i].source != GpuSampleSource::Engine
}

proof fn lemma_memory_issue_sources(
    totals: MemoryTotals,
    list: Seq<MemoryReading>,
    known: Seq<AdapterLuid>,
    displayed: Seq<GpuAdapterId>,
    source: GpuSampleSource,
    duplicate: &'static str,
    id: GpuAdapterId,
)
    requires
        source != GpuSampleSource::Engine,
        no_engine_issue(totals.issues, id),
    ensures
        no_engine_issue(
            with_memory_readings(totals, list, known, displayed, source, duplicate).issues,
            id,
        ),
    decreases list.len(),
{
    if list.len() > 0 {
        lemma_memory_issue_sources(
            totals,
            list.drop_last(),
            known,
            displayed,
            source,
            duplicate,
            id,
        );
    }
}

/// An adapter whose engine readings are all in order has an overall utilization: that of its
/// busiest engine, whatever the other sources failed to deliver.
pub proof fn overall_is_owed_for_good_readings<U: Utilization>(
    sample: GpuCounterSample,
    infos: Seq<Arc<GpuAdapterInfo>>,
    known: Seq<AdapterLuid>,
    engines: CounterReadView<EngineReading<U>>,
    dedicated: CounterReadView<MemoryReading>,
    shared: CounterReadView<MemoryReading>,
    temperatures: Seq<TemperatureReading>,
    info: Arc<GpuAdapterInfo>,
    kinds: spec_fn(GpuEngineId) -> EngineKindView,
)
    requires
        is_sample(
            sample,
            readings(infos, known, engines, dedicated, shared, temperatures),
            info,
            false,
        ),
        known.contains(info.id.luid),
        displayed_ids(infos).contains(info.id),
        engines.issues.len() == 0,
        adapter_reads_well(engines.values, known, info.id, kinds),
    ensures
        sample.overall_utilization_percent matches Some(overall) && {
            &&& forall|i: int|
                0 <= i < sample.engines@.len()
                    ==> (#[trigger] sample.engines@[i]).utilization_percent
                    <= overall
            &&& sample.engines@.len() == 0 ==> overall == 0
            &&& sample.engines@.len() > 0 ==> exists|i: int|
                0 <= i < sample.engines@.len() && (
                #[trigger] sample.engines@[i]).utilization_percent == overall
        },
{
    let displayed = displayed_ids(infos);
    let id = info.id;
    let all = readings(infos, known, engines, dedicated, shared, temperatures);
    let start = EngineTotals::<U> {
        issues: IssueLists { global: Seq::empty(), rows: Seq::empty() }.with_item_issues(
            GpuSampleSource::Engine,
            engines.issues,
            displayed,
        ),
        seen: Set::empty(),
        engines: Map::empty(),
    };
    lemma_no_engine_issue(start, engines.values, known, displayed, id, kinds);
    let first = engine_totals(engines, known, displayed).issues;
    assert(no_engine_issue(first, id));
    let second = dedicated_totals(first, dedicated, known, displayed).issues;
    let between = first.with_item_issues(
        GpuSampleSource::DedicatedMemory,
        dedicated.issues,
        displayed,
    );
    lemma_item_issues_sources(
        first,
        GpuSampleSource::DedicatedMemory,
        dedicated.issues,
        displayed,
        id,
    );
    lemma_memory_issue_sources(
        MemoryTotals { issues: between, values: Map::empty(), invalid: Set::empty() },
        dedicated.values,
        known,
        displayed,
        GpuSampleSource::DedicatedMemory,
        "duplicate dedicated GPU memory instance",
        id,
    );
    assert(no_engine_issue(second, id));
    let last = second.with_item_issues(GpuSampleSource::SharedMemory, shared.issues, displayed);
    lemma_item_issues_sources(second, GpuSampleSource::SharedMemory, shared.issues, displayed, id);
    lemma_memory_issue_sources(
        MemoryTotals { issues: last, values: Map::empty(), invalid: Set::empty() },
        shared.values,
        known,
        displayed,
        GpuSampleSource::SharedMemory,
        "duplicate shared GPU memory instance",
        id,
    );
    assert(all.issues == shared_totals(second, shared, known, displayed).issues);
    assert(no_engine_issue(all.issues, id));
    let issues = sample_issues(all, id, false);
    let own = rows_of(all.issues.rows, id);
    assert forall|i: int| 0 <= i < own.len() implies (#[trigger] own[i]).source
        != GpuSampleSource::Engine by {
        lemma_filter_member(all.issues.rows, |noted: IssueView| noted.adapter_id == Some(id), i);
    }
    assert forall|i: int| 0 <= i < issues.len() implies (#[trigger] issues[i]).source
        != GpuSampleSource::Engine by {
        let global = all.issues.global;
        if i < global.len() {
            assert(issues[i] == global[i]);
        } else if i < global.len() + own.len() {
            assert(issues[i] == own[i - global.len()]);
        }
    }
    assert(!concerns_engines(issues));
    let overall = sample.overall_utilization_percent->0;
    if sample.engines@.len() > 0 && overall == 0 {
        assert(sample.engines@[0].utilization_percent == overall);
    }
}

proof fn lemma_filter_member(
    list: Seq<IssueView>,
    wanted: spec_fn(IssueView) -> bool,
    at: int,
)
    requires
        0 <= at < list.filter(wanted).len(),
    ensures
        wanted(list.filter(wanted)[at]),
        exists|i: int| 0 <= i < list.len() && #[trigger] list[i] == list.filter(wanted)[at],
{
    list.lemma_filter_contains_rev(wanted, list.filter(wanted)[at]);
    let i = list.index_of(list.filter(wanted)[at]);
    assert(list[i] == list.filter(wanted)[at]);
}

/// So does a complete sample.
pub proof fn complete_sample_shows_the_sum<U: Utilization>(
    sample: GpuAdapterSample,
    infos: Seq<Arc<GpuAdapterInfo>>,
    known: Seq<AdapterLuid>,
    engines: CounterReadView<EngineReading<U>>,
    dedicated: CounterReadView<MemoryReading>,
    shared: CounterReadView<MemoryReading>,
    temperatures: Seq<TemperatureReading>,
    info: Arc<GpuAdapterInfo>,
    engine: GpuEngineId,
    kind: EngineKindView,
)
    requires
        is_complete_sample(
            sample,
            readings(infos, known, engines, dedicated, shared, temperatures),
            info,
            false,
        ),
        engine.adapter == info.id,
        known.contains(engine.adapter.luid),
        displayed_ids(infos).contains(engine.adapter),
        reads_well(engines.values, engine, kind),
        sum_of(amounts_on(engines.values, engine)) is Some,
    ensures
        amounts_on(engines.values, engine).len() > 0 ==> exists|i: int|
            0 <= i < sample.engines@.len() && {
                let shown = #[trigger] sample.engines@[i];
                &&& shown.id == engine
                &&& shown.kind@ == kind
                &&& shown.utilization_percent == sum_of(
                    amounts_on(engines.values, engine),
                )->0.displayed()
                &&& sample.overall_utilization_percent >= shown.utilization_percent
            },
        amounts_on(engines.values, engine).len() == 0 ==> forall|i: int|
            0 <= i < sample.engines@.len() ==> (#[trigger] sample.engines@[i]).id != engine,
{
    engine_amount_is_the_sum_over_processes(engines, known, displayed_ids(infos), engine, kind);
    let all = readings(infos, known, engines, dedicated, shared, temperatures);
    if amounts_on(engines.values, engine).len() > 0 {
        assert(all.engines.contains_key(engine) && engine.adapter == info.id);
        let i = choose|i: int|
            0 <= i < sample.engines@.len() && (#[trigger] sample.engines@[i]).id == engine;
        assert(sample.engines@[i].id == engine);
    }
}

} // verus!
