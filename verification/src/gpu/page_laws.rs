//! What the page shows and reports, told from what the sources delivered.

use vstd::prelude::*;

use super::adapter_history::{fresh_history, with_sample, AdapterHistoryView};
use super::collector::{fault_of, first_fault_of};
use super::counter_array::{item_issues, named_values};
use super::counters::{
    displayed_ids, first_fault, issue_views, with_engine_reading, with_memory_reading, EngineTotals,
    MemoryTotals,
};
use super::instances::{engine_instance, memory_instance};
use super::metadata::{
    device_instance_id, feature_level, first_match, metadata_errors, normalized, property_text,
    reserved_memory, units_of, zero_padded, AdapterAnswers, DeviceProperty, D3D_FEATURE_LEVEL_11_0,
    D3D_FEATURE_LEVEL_11_1, D3D_FEATURE_LEVEL_12_0, D3D_FEATURE_LEVEL_12_1, D3D_FEATURE_LEVEL_12_2,
};
use super::model::{
    AdapterLuid, GpuAdapterId, GpuAdapterInfo, GpuAdapterMetadata, GpuAdapterSample,
    GpuCounterSample, GpuDynamicSnapshot, GpuInventorySnapshot, GpuSampleError, GpuSampleSource,
    IssueView,
};
use super::page::{
    adapter_errors, history_map, metadata_map, sample_errors, sample_ids, with_samples,
    GpuPageState,
};
use super::status::{distinct_errors, holds_error, new_errors, GpuPageStatus};
use crate::pdh::{first_zero, name_at, CounterBuffer, RawCounterItem};
use crate::percent::Utilization;
use crate::processes::debugger_laws::first_zero_is_the_first;
use crate::text::{all_digits, decimal_value, joined, lower, pieces_of_joined_parts};
use crate::utf16::{decoding_undoes_encoding, encoded};

verus! {

/// An adapter that one sample is for gets exactly that sample added to its history, or to a fresh
/// one; an adapter without a sample keeps its history as it is.
pub proof fn each_adapter_gets_its_own_sample(
    histories: Map<GpuAdapterId, AdapterHistoryView>,
    samples: Seq<GpuAdapterSample>,
    id: GpuAdapterId,
)
    requires
        sample_ids(samples).no_duplicates(),
    ensures
        ({
            let after = with_samples(histories, samples);
            &&& forall|i: int|
                0 <= i < samples.len() && (#[trigger] samples[i]).info.id == id
                    ==> after.contains_key(id) && after[id] == with_sample(
                    if histories.contains_key(id) {
                        histories[id]
                    } else {
                        fresh_history()
                    },
                    samples[i],
                )
            &&& (forall|i: int| 0 <= i < samples.len() ==> (#[trigger] samples[i]).info.id != id)
                ==> after.contains_key(id) == histories.contains_key(id) && (histories.contains_key(
                id,
            ) ==> after[id] == histories[id])
        }),
    decreases samples.len(),
{
    if samples.len() > 0 {
        let front = samples.drop_last();
        let n = samples.len() - 1;
        assert(sample_ids(front) =~= sample_ids(samples).drop_last());
        each_adapter_gets_its_own_sample(histories, front, id);
        let after = with_samples(histories, samples);
        assert(samples[n] == samples.last());
        assert forall|i: int| 0 <= i < n implies (#[trigger] samples[i]).info.id
            != samples[n].info.id by {
            assert(sample_ids(samples)[i] != sample_ids(samples)[n]);
        }
        assert forall|i: int|
            0 <= i < samples.len() && (#[trigger] samples[i]).info.id
                == id implies after.contains_key(id) && after[id] == with_sample(
            if histories.contains_key(id) {
                histories[id]
            } else {
                fresh_history()
            },
            samples[i],
        ) by {
            if i < n {
                assert(front[i] == samples[i]);
            } else {
                assert forall|j: int| 0 <= j < front.len() implies (#[trigger] front[j]).info.id
                    != id by {
                    assert(samples[j].info.id != samples[n].info.id);
                }
            }
        }
        if forall|i: int| 0 <= i < samples.len() ==> (#[trigger] samples[i]).info.id != id {
            assert forall|j: int| 0 <= j < front.len() implies (#[trigger] front[j]).info.id
                != id by {
                assert(samples[j].info.id != id);
            }
            assert(samples[n].info.id != id);
        }
    }
}

/// A sample of the adapters that are listed, taken after the last one, is shown, and ends a
/// failure; with it every history moves on.
pub proof fn newer_sample_is_shown(
    page: GpuPageState,
    snapshot: GpuDynamicSnapshot,
    after: GpuPageState,
    i: int,
)
    requires
        page.inventory matches Some(inventory) && inventory.generation == snapshot.generation
            && sample_ids(snapshot.adapters@).no_duplicates() && sample_ids(
            snapshot.adapters@,
        ).to_set() == displayed_ids(inventory.adapters@).to_set(),
        page.dynamic_snapshot matches Some(current)
            ==> current.timestamp_ms < snapshot.timestamp_ms,
        after.takes_sample(&page, snapshot),
        0 <= i < snapshot.adapters@.len(),
    ensures
        after.dynamic_snapshot == Some(snapshot),
        after.last_dynamic_error is None,
        after.inventory == page.inventory,
        after.selected_adapter == page.selected_adapter,
        after.metadata == page.metadata,
        ({
            let sample = snapshot.adapters@[i];
            let before = history_map(page.histories@);
            let now = history_map(after.histories@);
            now.contains_key(sample.info.id) && now[sample.info.id] == with_sample(
                if before.contains_key(sample.info.id) {
                    before[sample.info.id]
                } else {
                    fresh_history()
                },
                sample,
            )
        }),
{
    each_adapter_gets_its_own_sample(
        history_map(page.histories@),
        snapshot.adapters@,
        snapshot.adapters@[i].info.id,
    );
}

/// A sample that leaves an adapter out, or names another one, is refused, and what is shown stays.
pub proof fn incomplete_sample_is_refused(
    page: GpuPageState,
    snapshot: GpuDynamicSnapshot,
    after: GpuPageState,
    id: GpuAdapterId,
)
    requires
        page.inventory matches Some(inventory) && inventory.generation == snapshot.generation && (
        displayed_ids(inventory.adapters@).contains(id) != sample_ids(
            snapshot.adapters@,
        ).contains(id)),
        after.takes_sample(&page, snapshot),
    ensures
        after.dynamic_snapshot == page.dynamic_snapshot,
        after.histories == page.histories,
        after.last_dynamic_error is Some,
{
    let inventory = page.inventory->0;
    assert(displayed_ids(inventory.adapters@).to_set().contains(id) != sample_ids(
        snapshot.adapters@,
    ).to_set().contains(id));
}

/// The page is ready exactly if there are adapters, all of them were sampled, everything was
/// learned of all of them, and nothing failed.
pub proof fn page_is_ready_when_nothing_is_missing(page: GpuPageState)
    ensures
        page.status_of() == GpuPageStatus::Ready <==> {
            &&& page.inventory is Some
            &&& page.inventory->0.adapters@.len() > 0
            &&& page.dynamic_snapshot is Some
            &&& page.last_dynamic_error is None
            &&& page.last_metadata_error is None
            &&& page.last_dynamic_aux_errors@.len() == 0
            &&& !page.metadata_busy
            &&& page.metadata@.dom().len() == page.inventory->0.adapters@.len()
            &&& forall|id: GpuAdapterId| #[trigger]
                page.metadata@.contains_key(id) ==> page.metadata@[id].metadata_errors@.len() == 0
        },
        page.inventory matches Some(inventory) && inventory.adapters@.len() == 0
            <==> page.status_of() == GpuPageStatus::NoHardware,
        page.inventory is None && page.last_dynamic_error is None <==> page.status_of()
            == GpuPageStatus::Loading,
        page.status_of() == GpuPageStatus::Stale ==> page.dynamic_snapshot is Some
            && page.last_dynamic_error is Some,
        page.inventory is Some && page.inventory->0.adapters@.len() > 0
            && page.last_dynamic_error is None && page.dynamic_snapshot is None
            <==> page.status_of() == GpuPageStatus::LoadingPerformance,
{
}

/// What is chosen stays chosen as long as it is listed, and the first adapter is chosen where
/// nothing is. What is known of an adapter that is still listed stays, unless the list is of
/// another generation.
pub proof fn listed_adapters_are_kept(
    page: GpuPageState,
    inventory: GpuInventorySnapshot,
    after: GpuPageState,
    at: int,
)
    requires
        after.shows_inventory(&page, inventory),
        0 <= at < inventory.adapters@.len(),
    ensures
        page.selected_adapter == Some(inventory.adapters@[at].id) ==> after.selected_adapter
            == page.selected_adapter,
        page.selected_adapter is None ==> after.selected_adapter == Some(
            inventory.adapters@[0].id,
        ),
        after.selected_adapter matches Some(selected) && displayed_ids(
            inventory.adapters@,
        ).contains(selected),
        !page.changes_generation(inventory) && page.histories@.contains_key(
            inventory.adapters@[at].id,
        ) ==> after.histories@.contains_key(inventory.adapters@[at].id)
            && after.histories@[inventory.adapters@[at].id]
            == page.histories@[inventory.adapters@[at].id],
        page.engine_selections@.contains_key(inventory.adapters@[at].id)
            ==> after.engine_selections@.contains_key(inventory.adapters@[at].id)
            && after.engine_selections@[inventory.adapters@[at].id]
            == page.engine_selections@[inventory.adapters@[at].id],
{
    let ids = displayed_ids(inventory.adapters@);
    assert(ids[at] == inventory.adapters@[at].id);
    assert(ids.contains(ids[at]));
    assert(ids[0] == inventory.adapters@[0].id);
    assert(ids.contains(ids[0]));
}

/// Every error in a sample is among the errors of the page, and no other is.
pub proof fn sample_errors_are_all_of_them(samples: Seq<GpuAdapterSample>, error: GpuSampleError)
    ensures
        sample_errors(samples).contains(error) <==> exists|i: int|
            0 <= i < samples.len() && (#[trigger] samples[i]).row_errors@.contains(error),
    decreases samples.len(),
{
    if samples.len() > 0 {
        let front = samples.drop_last();
        let n = samples.len() - 1;
        sample_errors_are_all_of_them(front, error);
        let before = sample_errors(front);
        let own = samples[n].row_errors@;
        lemma_contains_either(before, own, error);
        if exists|i: int| 0 <= i < front.len()
            && (#[trigger] front[i]).row_errors@.contains(error) {
            let i = choose|i: int|
                0 <= i < front.len() && (#[trigger] front[i]).row_errors@.contains(error);
            assert(samples[i].row_errors@.contains(error));
        }
        if exists|i: int|
            0 <= i < samples.len() && (#[trigger] samples[i]).row_errors@.contains(error) {
            let i = choose|i: int|
                0 <= i < samples.len() && (#[trigger] samples[i]).row_errors@.contains(error);
            if i < n {
                assert(front[i].row_errors@.contains(error));
            }
        }
    }
}

/// Every error of the metadata is among the errors of the page, and no other is.
pub proof fn metadata_errors_are_all_of_them(
    metadata: Seq<GpuAdapterMetadata>,
    error: GpuSampleError,
)
    ensures
        adapter_errors(metadata).contains(error) <==> exists|i: int|
            0 <= i < metadata.len() && (#[trigger] metadata[i]).metadata_errors@.contains(error),
    decreases metadata.len(),
{
    if metadata.len() > 0 {
        let front = metadata.drop_last();
        let n = metadata.len() - 1;
        metadata_errors_are_all_of_them(front, error);
        lemma_contains_either(adapter_errors(front), metadata[n].metadata_errors@, error);
        if exists|i: int|
            0 <= i < front.len() && (#[trigger] front[i]).metadata_errors@.contains(error) {
            let i = choose|i: int|
                0 <= i < front.len() && (#[trigger] front[i]).metadata_errors@.contains(error);
            assert(metadata[i].metadata_errors@.contains(error));
        }
        if exists|i: int|
            0 <= i < metadata.len() && (#[trigger] metadata[i]).metadata_errors@.contains(error) {
            let i = choose|i: int|
                0 <= i < metadata.len()
                    && (#[trigger] metadata[i]).metadata_errors@.contains(error);
            if i < n {
                assert(front[i].metadata_errors@.contains(error));
            }
        }
    }
}

proof fn lemma_contains_either<T>(first: Seq<T>, second: Seq<T>, value: T)
    ensures
        (first + second).contains(value) <==> first.contains(value) || second.contains(value),
{
    if first.contains(value) {
        let k = choose|k: int| 0 <= k < first.len() && first[k] == value;
        assert((first + second)[k] == value);
    }
    if second.contains(value) {
        let k = choose|k: int| 0 <= k < second.len() && second[k] == value;
        assert((first + second)[first.len() + k] == value);
    }
    if (first + second).contains(value) {
        let k = choose|k: int| 0 <= k < (first + second).len() && (first + second)[k] == value;
        if k >= first.len() {
            assert(second[k - first.len()] == value);
        } else {
            assert(first[k] == value);
        }
    }
}

/// What is known of an adapter is what the metadata say of it; there is nothing of any other.
pub proof fn metadata_are_those_of_the_adapter(metadata: Seq<GpuAdapterMetadata>, at: int)
    requires
        0 <= at < metadata.len(),
        forall|i: int|
            at < i < metadata.len() ==> (#[trigger] metadata[i]).id != metadata[at].id,
    ensures
        metadata_map(metadata).contains_key(metadata[at].id),
        metadata_map(metadata)[metadata[at].id] == metadata[at],
    decreases metadata.len(),
{
    if at < metadata.len() - 1 {
        let front = metadata.drop_last();
        assert(front[at] == metadata[at]);
        assert forall|i: int| at < i < front.len() implies (#[trigger] front[i]).id
            != front[at].id by {
            assert(metadata[i].id != metadata[at].id);
        }
        metadata_are_those_of_the_adapter(front, at);
        assert(metadata[metadata.len() - 1].id != metadata[at].id);
    }
}

proof fn lemma_holds_pushed(
    errors: Seq<GpuSampleError>,
    added: GpuSampleError,
    error: GpuSampleError,
)
    ensures
        holds_error(errors.push(added), error) <==> holds_error(errors, error) || added@ == error@,
{
    let more = errors.push(added);
    if holds_error(errors, error) {
        let i = choose|i: int| 0 <= i < errors.len() && (#[trigger] errors[i])@ == error@;
        assert(more[i]@ == error@);
    }
    if added@ == error@ {
        assert(more[errors.len() as int]@ == error@);
    }
    if holds_error(more, error) {
        let i = choose|i: int| 0 <= i < more.len() && (#[trigger] more[i])@ == error@;
        if i < errors.len() {
            assert(errors[i]@ == error@);
        }
    }
}

/// The same errors are told, each once.
pub proof fn errors_are_told_once(errors: Seq<GpuSampleError>, error: GpuSampleError)
    ensures
        holds_error(distinct_errors(errors), error) <==> holds_error(errors, error),
        forall|i: int, j: int|
            0 <= i < j < distinct_errors(errors).len() ==> (#[trigger] distinct_errors(errors)[i])@
                != (#[trigger] distinct_errors(errors)[j])@,
    decreases errors.len(),
{
    if errors.len() > 0 {
        let front = errors.drop_last();
        let last = errors.last();
        errors_are_told_once(front, error);
        errors_are_told_once(front, last);
        assert(front.push(last) =~= errors);
        lemma_holds_pushed(front, last, error);
        lemma_holds_pushed(distinct_errors(front), last, error);
        let before = distinct_errors(front);
        let after = distinct_errors(errors);
        assert forall|i: int, j: int| 0 <= i < j < after.len() implies (#[trigger] after[i])@ != (
        #[trigger] after[j])@ by {
            assert(after[i] == before[i]);
            if j < before.len() {
                assert(after[j] == before[j]);
            } else if after[i]@ == after[j]@ {
                assert(before[i]@ == last@);
                assert(holds_error(before, last));
            }
        }
    }
}

/// What is new are the errors that were not known, all of them and no other.
pub proof fn new_errors_were_not_known(
    errors: Seq<GpuSampleError>,
    known: Seq<GpuSampleError>,
    error: GpuSampleError,
)
    ensures
        holds_error(new_errors(errors, known), error) <==> holds_error(errors, error)
            && !holds_error(known, error),
    decreases errors.len(),
{
    if errors.len() > 0 {
        let front = errors.drop_last();
        let last = errors.last();
        new_errors_were_not_known(front, known, error);
        assert(front.push(last) =~= errors);
        lemma_holds_pushed(front, last, error);
        lemma_holds_pushed(new_errors(front, known), last, error);
    }
}

/// The first thing that makes a sample incomplete is the first issue that is not about its
/// temperature.
pub proof fn first_fault_is_the_first(issues: Seq<IssueView>)
    ensures
        match first_fault(issues) {
            None => forall|i: int|
                0 <= i < issues.len() ==> (#[trigger] issues[i]).source
                    == GpuSampleSource::Temperature,
            Some(error) => exists|i: int|
                0 <= i < issues.len() && (#[trigger] issues[i]).source
                    != GpuSampleSource::Temperature && issues[i].error == error && forall|j: int|
                    0 <= j < i ==> (#[trigger] issues[j]).source == GpuSampleSource::Temperature,
        },
    decreases issues.len(),
{
    if issues.len() > 0 && issues[0].source == GpuSampleSource::Temperature {
        let rest = issues.drop_first();
        first_fault_is_the_first(rest);
        match first_fault(rest) {
            None => {
                assert forall|i: int| 0 <= i < issues.len() implies (#[trigger] issues[i]).source
                    == GpuSampleSource::Temperature by {
                    if i > 0 {
                        assert(rest[i - 1] == issues[i]);
                    }
                }
            },
            Some(error) => {
                let i = choose|i: int|
                    0 <= i < rest.len() && (#[trigger] rest[i]).source
                        != GpuSampleSource::Temperature && rest[i].error == error && forall|j: int|
                        0 <= j < i ==> (#[trigger] rest[j]).source == GpuSampleSource::Temperature;
                assert(issues[i + 1] == rest[i]);
                assert forall|j: int| 0 <= j < i + 1 implies (#[trigger] issues[j]).source
                    == GpuSampleSource::Temperature by {
                    if j > 0 {
                        assert(rest[j - 1] == issues[j]);
                    }
                }
            },
        }
    }
}

/// There is a snapshot exactly if every sample is complete: it has a utilization and both amounts
/// of memory, and no issue but about its temperature.
pub proof fn snapshot_needs_complete_samples(samples: Seq<GpuCounterSample>)
    ensures
        first_fault_of(samples) is None <==> forall|i: int|
            0 <= i < samples.len() ==> is_complete(#[trigger] samples[i]),
        first_fault_of(samples) matches Some(error) ==> exists|i: int|
            0 <= i < samples.len() && fault_of(#[trigger] samples[i]) == Some(error)
                && forall|j: int|
                0 <= j < i ==> is_complete(#[trigger] samples[j]),
    decreases samples.len(),
{
    if samples.len() > 0 {
        let front = samples.drop_last();
        let n = samples.len() - 1;
        snapshot_needs_complete_samples(front);
        assert(samples[n] == samples.last());
        lemma_complete_sample(samples[n]);
        if first_fault_of(samples) is None {
            assert forall|i: int| 0 <= i < samples.len() implies is_complete(
                #[trigger] samples[i],
            ) by {
                if i < n {
                    assert(is_complete(front[i]));
                }
            }
        }
        if forall|i: int| 0 <= i < samples.len() ==> is_complete(#[trigger] samples[i]) {
            assert forall|i: int| 0 <= i < front.len() implies is_complete(#[trigger] front[i]) by {
                assert(is_complete(samples[i]));
            }
            assert(is_complete(samples[n]));
        }
        if first_fault_of(samples) is Some {
            let error = first_fault_of(samples)->0;
            if first_fault_of(front) is Some {
                let i = choose|i: int|
                    0 <= i < front.len() && fault_of(#[trigger] front[i]) == Some(error)
                        && forall|j: int| 0 <= j < i ==> is_complete(#[trigger] front[j]);
                assert(samples[i] == front[i]);
                assert forall|j: int| 0 <= j < i implies is_complete(#[trigger] samples[j]) by {
                    assert(is_complete(front[j]));
                }
            } else {
                assert forall|j: int| 0 <= j < n implies is_complete(#[trigger] samples[j]) by {
                    assert(is_complete(front[j]));
                }
                assert(fault_of(samples[n]) == Some(error));
            }
        }
    }
}

/// Whether nothing but the temperature is missing from a sample.
pub open spec fn is_complete(sample: GpuCounterSample) -> bool {
    &&& sample.overall_utilization_percent is Some
    &&& sample.dedicated_usage_bytes is Some
    &&& sample.shared_usage_bytes is Some
    &&& forall|i: int|
        0 <= i < sample.row_errors@.len() ==> (#[trigger] sample.row_errors@[i]).source
            == GpuSampleSource::Temperature
}

proof fn lemma_complete_sample(sample: GpuCounterSample)
    ensures
        fault_of(sample) is None <==> is_complete(sample),
{
    let issues = issue_views(sample.row_errors@);
    first_fault_is_the_first(issues);
    assert forall|i: int| 0 <= i < issues.len() implies (#[trigger] issues[i]).source
        == sample.row_errors@[i].source by {
        assert(issues[i] == sample.row_errors@[i]@);
    }
    if is_complete(sample) {
        assert forall|i: int| 0 <= i < issues.len() implies (#[trigger] issues[i]).source
            == GpuSampleSource::Temperature by {
            assert(sample.row_errors@[i].source == GpuSampleSource::Temperature);
        }
    }
    if fault_of(sample) is None {
        assert forall|i: int| 0 <= i < sample.row_errors@.len() implies (
        #[trigger] sample.row_errors@[i]).source == GpuSampleSource::Temperature by {
            assert(issues[i].source == GpuSampleSource::Temperature);
        }
    }
}

/// No engine reading is passed over in silence: it is added to its engine, or there is one more
/// issue about it, unless it belongs to an adapter that is not displayed. An adapter other than its
/// own is never touched.
pub proof fn no_engine_reading_is_lost<U: Utilization>(
    totals: EngineTotals<U>,
    name: Seq<char>,
    utilization: U,
    known: Seq<AdapterLuid>,
    displayed: Seq<GpuAdapterId>,
)
    ensures
        ({
            let after = with_engine_reading(totals, name, utilization, known, displayed);
            let issues_before = totals.issues.global.len() + totals.issues.rows.len();
            let issues_after = after.issues.global.len() + after.issues.rows.len();
            &&& issues_after == issues_before || issues_after == issues_before + 1
            &&& engine_instance(name) is Err ==> after.engines == totals.engines && issues_after
                == issues_before + 1
            &&& engine_instance(name) matches Ok(instance) ==> {
                let id = instance.id;
                let base = if totals.engines.contains_key(id) {
                    totals.engines[id].1
                } else {
                    U::nothing()
                };
                &&& !known.contains(id.adapter.luid) ==> issues_after == issues_before + 1
                    && after.engines == totals.engines
                &&& known.contains(id.adapter.luid) && !displayed.contains(id.adapter) ==> after
                    == totals
                &&& known.contains(id.adapter.luid) && displayed.contains(id.adapter)
                    && issues_after == issues_before ==> {
                    &&& after.engines.contains_key(id)
                    &&& base.total(utilization) == Some(after.engines[id].1)
                    &&& after.engines[id].0 == instance.kind
                    &&& utilization.valid()
                    &&& !totals.seen.contains(instance)
                }
                &&& known.contains(id.adapter.luid) && displayed.contains(id.adapter)
                    && utilization.valid() && !totals.seen.contains(instance) && (
                !totals.engines.contains_key(id) || totals.engines[id].0 == instance.kind)
                    && base.total(utilization) is Some ==> issues_after == issues_before
                &&& forall|other: super::model::GpuEngineId|
                    other != id ==> (#[trigger] after.engines.contains_key(other)
                        == totals.engines.contains_key(other))
                        && (totals.engines.contains_key(other)
                        ==> after.engines[other] == totals.engines[other])
            }
        }),
{
}

/// No memory reading is passed over in silence either.
pub proof fn no_memory_reading_is_lost(
    totals: MemoryTotals,
    name: Seq<char>,
    bytes: i64,
    known: Seq<AdapterLuid>,
    displayed: Seq<GpuAdapterId>,
    source: GpuSampleSource,
    duplicate: &'static str,
)
    ensures
        ({
            let after = with_memory_reading(
                totals,
                name,
                bytes,
                known,
                displayed,
                source,
                duplicate,
            );
            let issues_before = totals.issues.global.len() + totals.issues.rows.len();
            let issues_after = after.issues.global.len() + after.issues.rows.len();
            &&& memory_instance(name) is Err ==> issues_after == issues_before + 1 && after.values
                == totals.values
            &&& memory_instance(name) matches Ok(id) ==> {
                &&& !known.contains(id.luid) ==> issues_after == issues_before + 1 && after.values
                    == totals.values
                &&& known.contains(id.luid) && !displayed.contains(id) ==> after == totals
                &&& known.contains(id.luid) && displayed.contains(id) ==> (issues_after
                    == issues_before <==> bytes >= 0 && !totals.values.contains_key(id)
                    && !totals.invalid.contains(id))
                &&& known.contains(id.luid) && displayed.contains(id) && issues_after
                    == issues_before ==> after.values.contains_key(id) && after.values[id] == bytes
                &&& known.contains(id.luid) && displayed.contains(id) && issues_after
                    != issues_before ==> !after.values.contains_key(id)
                        && after.invalid.contains(id)
                &&& forall|other: GpuAdapterId|
                    other != id ==> (#[trigger] after.values.contains_key(other)
                        == totals.values.contains_key(other)) && (totals.values.contains_key(other)
                        ==> after.values[other] == totals.values[other])
            }
        }),
{
}

/// Whether an item of an array can be used: its name can be read, and its status is good.
pub open spec fn is_usable_item<V>(buffer: CounterBuffer, item: RawCounterItem<V>) -> bool {
    name_at(buffer, item.name_address as int) is Ok && (item.status == 0 || item.status == 1)
}

/// The items of an array that can be used are its values, each with its own name and in order; for
/// every other there is an issue.
pub proof fn usable_items_are_the_values<V>(buffer: CounterBuffer, items: Seq<RawCounterItem<V>>)
    ensures
        named_values(buffer, items) == items.filter(
            |item: RawCounterItem<V>| is_usable_item(buffer, item),
        ).map_values(
            |item: RawCounterItem<V>|
                (name_at(buffer, item.name_address as int)->Ok_0, item.value),
        ),
        named_values(buffer, items).len() + item_issues(buffer, items).len() == items.len(),
    decreases items.len(),
{
    reveal(Seq::filter);
    let usable = |item: RawCounterItem<V>| is_usable_item(buffer, item);
    let named = |item: RawCounterItem<V>|
        (name_at(buffer, item.name_address as int)->Ok_0, item.value);
    if items.len() > 0 {
        usable_items_are_the_values(buffer, items.drop_last());
    }
    assert(named_values(buffer, items) =~= items.filter(usable).map_values(named));
}

/// A name that lies in the buffer, with a zero behind it, is read as it was written.
pub proof fn names_are_read_from_the_buffer(buffer: CounterBuffer, name: Seq<char>, at: int)
    requires
        buffer.well_formed(),
        buffer.base > 0,
        0 <= at,
        at + encoded(name).len() < buffer.units@.len(),
        buffer.units@.subrange(at, at + encoded(name).len()) == encoded(name),
        buffer.units@[at + encoded(name).len()] == 0,
        forall|i: int| 0 <= i < encoded(name).len() ==> #[trigger] encoded(name)[i] != 0,
    ensures
        name_at(buffer, buffer.base + 2 * at) == Ok::<Seq<char>, crate::pdh::NameFault>(name),
{
    let length = encoded(name).len() as int;
    let units = buffer.units@.skip(at);
    first_zero_is_the_first(units);
    assert(units[length] == 0);
    assert forall|i: int| 0 <= i < length implies #[trigger] units[i] != 0 by {
        assert(buffer.units@.subrange(at, at + length)[i] == units[i]);
        assert(encoded(name)[i] != 0);
    }
    assert(first_zero(units) == Some(length));
    assert(units.take(length) =~= encoded(name));
    decoding_undoes_encoding(name);
    assert((buffer.base + 2 * at - buffer.base) / 2 == at);
}

/// A name is never read from outside the buffer.
pub proof fn no_name_is_read_outside(buffer: CounterBuffer, address: int)
    requires
        name_at(buffer, address) is Ok,
    ensures
        0 < address,
        buffer.base <= address < buffer.base + buffer.used_bytes,
        address % 2 == 0,
{
}

/// What stands first is found.
pub proof fn first_occurrence_is_found(text: Seq<char>, wanted: Seq<char>, start: int)
    requires
        start >= 0,
    ensures
        match first_match(text, wanted, start) {
            Some(at) => start <= at && at + wanted.len() <= text.len() && text.subrange(
                at,
                at + wanted.len(),
            ) == wanted && forall|i: int|
                start <= i < at ==> #[trigger] text.subrange(i, i + wanted.len()) != wanted,
            None => forall|i: int|
                start <= i && i + wanted.len() <= text.len() ==> #[trigger] text.subrange(
                    i,
                    i + wanted.len(),
                ) != wanted,
        },
    decreases text.len() + 1 - start,
{
    if start + wanted.len() <= text.len() && text.subrange(start, start + wanted.len()) != wanted {
        first_occurrence_is_found(text, wanted, start + 1);
    }
}

/// The instance of a device is the three parts behind the directory of devices, whatever the case
/// of its name and whichever slashes stand between them.
pub proof fn device_instance_is_three_parts(
    key: Seq<char>,
    start: int,
    first: Seq<char>,
    second: Seq<char>,
    third: Seq<char>,
)
    requires
        first_match(lower(normalized(key)), "\\enum\\"@, 0) == Some(start),
        0 <= start,
        start + 6 <= key.len(),
        normalized(key).skip(start + 6) == joined(seq![first, second, third], '\\'),
        first.len() > 0 && second.len() > 0 && third.len() > 0,
        !first.contains('\\') && !second.contains('\\') && !third.contains('\\'),
    ensures
        device_instance_id(key) == Some(first + seq!['\\'] + second + seq!['\\'] + third),
{
    let parts = seq![first, second, third];
    assert forall|i: int| 0 <= i < parts.len() implies !(#[trigger] parts[i]).contains('\\') by {}
    pieces_of_joined_parts(parts, '\\');
    let filled = |part: Seq<char>| part.len() > 0;
    reveal(Seq::filter);
    assert(parts.drop_last() =~= seq![first, second]);
    assert(parts.drop_last().drop_last() =~= seq![first]);
    assert(parts.drop_last().drop_last().drop_last() =~= Seq::<Seq<char>>::empty());
    assert(seq![first].filter(filled) =~= seq![first]);
    assert(seq![first, second].filter(filled) =~= seq![first, second]);
    assert(parts.filter(filled) =~= parts);
}

/// What the hardware keeps for itself is what is missing from the installed memory to the limit.
pub proof fn reserved_memory_is_the_difference(
    info: GpuAdapterInfo,
    answers: AdapterAnswers,
    installed: u64,
    limit: u64,
)
    requires
        answers.installed_memory == Ok::<Option<u64>, GpuSampleError>(Some(installed)),
        info.dedicated_limit_bytes == Some(limit),
        installed > 0,
        limit > 0,
    ensures
        installed >= limit ==> (reserved_memory(info, answers) matches Ok(Some(reserved)) && limit
            + reserved == installed),
        installed < limit ==> reserved_memory(info, answers) is Err,
{
}

/// Every feature level has a name of its own, with its number in it.
pub proof fn feature_levels_have_their_names(level: i32)
    ensures
        feature_level(D3D_FEATURE_LEVEL_12_2) == Some("12 (FL 12.2)"@),
        feature_level(D3D_FEATURE_LEVEL_12_1) == Some("12 (FL 12.1)"@),
        feature_level(D3D_FEATURE_LEVEL_12_0) == Some("12 (FL 12.0)"@),
        feature_level(D3D_FEATURE_LEVEL_11_1) == Some("12 (FL 11.1)"@),
        feature_level(D3D_FEATURE_LEVEL_11_0) == Some("12 (FL 11.0)"@),
        feature_level(level) is Some <==> level == D3D_FEATURE_LEVEL_12_2 || level
            == D3D_FEATURE_LEVEL_12_1 || level == D3D_FEATURE_LEVEL_12_0 || level
            == D3D_FEATURE_LEVEL_11_1 || level == D3D_FEATURE_LEVEL_11_0,
{
}

/// A number that is filled up with zeros is the same number, with enough digits.
pub proof fn padding_keeps_the_number(text: Seq<char>, width: nat)
    requires
        all_digits(text),
    ensures
        all_digits(zero_padded(text, width)),
        zero_padded(text, width).len() >= width,
        decimal_value(zero_padded(text, width)) == decimal_value(text),
        text.len() >= width ==> zero_padded(text, width) == text,
{
    if text.len() < width {
        let zeros = Seq::new((width - text.len()) as nat, |i: int| '0');
        lemma_zeros_count_nothing(zeros, text);
    }
}

proof fn lemma_zeros_count_nothing(zeros: Seq<char>, text: Seq<char>)
    requires
        forall|i: int| 0 <= i < zeros.len() ==> #[trigger] zeros[i] == '0',
        all_digits(text),
    ensures
        decimal_value(zeros + text) == decimal_value(text),
    decreases zeros.len() + text.len(),
{
    let whole = zeros + text;
    if text.len() > 0 {
        let shorter = text.drop_last();
        assert forall|i: int| 0 <= i < shorter.len() implies crate::text::is_digit(
            #[trigger] shorter[i],
        ) by {
            assert(crate::text::is_digit(text[i]));
        }
        lemma_zeros_count_nothing(zeros, shorter);
        assert(whole.drop_last() =~= zeros + shorter);
        assert(whole.last() == text.last());
    } else if zeros.len() > 0 {
        let fewer = zeros.drop_last();
        assert forall|i: int| 0 <= i < fewer.len() implies #[trigger] fewer[i] == '0' by {
            assert(zeros[i] == '0');
        }
        lemma_zeros_count_nothing(fewer, text);
        assert(whole.drop_last() =~= fewer + text);
        assert(whole.last() == zeros[zeros.len() - 1]);
    } else {
        assert(whole =~= text);
    }
}

/// The text of a property is read as it was written, up to the zero behind it; what follows, such
/// as the other texts of a list, does not matter.
pub proof fn property_text_is_read(
    property: DeviceProperty,
    expected_type: u32,
    context: &'static str,
    text: Seq<char>,
)
    requires
        property.property_type == expected_type,
        property.bytes@.len() % 2 == 0,
        text.len() > 0,
        encoded(text).len() < units_of(property.bytes@).len(),
        units_of(property.bytes@).take(encoded(text).len() as int) == encoded(text),
        units_of(property.bytes@)[encoded(text).len() as int] == 0,
        forall|i: int| 0 <= i < encoded(text).len() ==> #[trigger] encoded(text)[i] != 0,
    ensures
        property_text(property, expected_type, context) == Ok::<Option<Seq<char>>, GpuSampleError>(
            Some(text),
        ),
{
    let units = units_of(property.bytes@);
    let length = encoded(text).len() as int;
    first_zero_is_the_first(units);
    assert forall|i: int| 0 <= i < length implies #[trigger] units[i] != 0 by {
        assert(units.take(length)[i] == encoded(text)[i]);
    }
    assert(first_zero(units) == Some(length));
    decoding_undoes_encoding(text);
    assert(length > 0) by {
        assert(encoded(text) == crate::utf16::encoded_char(text[0]) + encoded(text.drop_first()));
    }
}

/// The bytes of a text come in pairs, the lower one first.
pub proof fn units_are_pairs_of_bytes(bytes: Seq<u8>, i: int)
    requires
        0 <= i < bytes.len() / 2,
    ensures
        units_of(bytes).len() == bytes.len() / 2,
        units_of(bytes)[i] == bytes[2 * i] + 256 * bytes[2 * i + 1],
{
}

/// A slash counts as a backslash, and every other character as itself.
pub proof fn slashes_count_as_backslashes(text: Seq<char>, i: int)
    requires
        0 <= i < text.len(),
    ensures
        normalized(text).len() == text.len(),
        text[i] == '/' ==> normalized(text)[i] == '\\',
        text[i] != '/' ==> normalized(text)[i] == text[i],
{
}

} // verus!
