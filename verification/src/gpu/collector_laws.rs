//! What the rounds of sampling bring, one after the other.
use vstd::prelude::*;

use super::collector::{CollectStep, GpuCollector, QueryState};
use super::inventory::Inventory;
use super::metadata::{
    adapter_metadata, error_list, info_views, reserved_memory, AdapterAnswers, AdapterReply,
    GpuMetadataCollector,
};
use super::model::{
    GpuAdapterInfo, GpuAdapterMetadata, GpuCollectOutcome, GpuDynamicSnapshot,
    GpuInventorySnapshot, GpuMetadataRequest, GpuMetadataSnapshot, GpuSampleError,
};
use super::page::{CommitOutcome, GpuPageState, InventoryOutcome};
use super::status::GpuPageStatus;

verus! {

/// A new list of adapters is handed on in the round behind it, before anything is sampled and under
/// a generation of its own; from then on there are samples of its adapters.
pub proof fn new_list_is_handed_on_first(
    rebuilt: &mut GpuCollector,
    first: &mut GpuCollector,
    second: &mut GpuCollector,
    inventory: Inventory,
    query: QueryState,
    first_time: u64,
    second_time: u64,
    outcome: Result<(), GpuSampleError>,
    first_step: Result<CollectStep, GpuSampleError>,
    second_step: Result<CollectStep, GpuSampleError>,
)
    requires
        inventory.infos@.len() > 0,
    ensures
        call_ensures(
            GpuCollector::rebuild,
            (
                rebuilt,
                Ok::<Inventory, GpuSampleError>(inventory),
                Ok::<QueryState, GpuSampleError>(query),
            ),
            outcome,
        ) && *old(first) == *final(rebuilt) && call_ensures(
            GpuCollector::collect,
            (first, first_time),
            first_step,
        ) && *old(second) == *final(first) && call_ensures(
            GpuCollector::collect,
            (second, second_time),
            second_step,
        ) ==> {
            &&& outcome is Ok
            &&& (first_step matches Ok(CollectStep::Done(GpuCollectOutcome::Inventory(snapshot)))
                && snapshot.adapters@ == inventory.infos@
                && snapshot.generation == final(rebuilt).generation
                && snapshot.generation != old(rebuilt).generation && snapshot.generation
                != 0)
            &&& second_step == Ok::<CollectStep, GpuSampleError>(CollectStep::Counters)
        },
{
}

/// Without adapters there is an empty sample in every round, taken when the round was.
pub proof fn no_adapters_are_sampled_empty(
    collector: &mut GpuCollector,
    time: u64,
    step: Result<CollectStep, GpuSampleError>,
)
    requires
        old(collector).topology matches Some(inventory) && inventory.infos@.len() == 0,
        !old(collector).inventory_pending,
    ensures
        call_ensures(GpuCollector::collect, (collector, time), step) ==> (step matches Ok(
            CollectStep::Done(GpuCollectOutcome::Dynamic(snapshot)),
        ) && snapshot.adapters@.len() == 0 && snapshot.timestamp_ms == time && snapshot.generation
            == old(collector).generation),
{
}

/// A list of adapters that could not be made leaves the last one as it is.
pub proof fn failed_list_changes_nothing(
    collector: &mut GpuCollector,
    error: GpuSampleError,
    query: Result<QueryState, GpuSampleError>,
    outcome: Result<(), GpuSampleError>,
)
    ensures
        call_ensures(
            GpuCollector::rebuild,
            (collector, Err::<Inventory, GpuSampleError>(error), query),
            outcome,
        ) ==> *final(collector) == *old(collector) && outcome == Err::<(), GpuSampleError>(error),
{
}

/// The counters have values from the second good collection on, and a collection that failed does
/// not count.
pub proof fn second_collection_has_values(
    first: &mut QueryState,
    second: &mut QueryState,
    first_status: u32,
    second_status: u32,
    first_outcome: Result<bool, GpuSampleError>,
    second_outcome: Result<bool, GpuSampleError>,
)
    requires
        old(first).engine_error is None || old(first).dedicated_error is None
            || old(first).shared_error is None,
        !old(first).primed,
    ensures
        call_ensures(QueryState::collect, (first, first_status), first_outcome) && *old(second)
            == *final(first) && call_ensures(
            QueryState::collect,
            (second, second_status),
            second_outcome,
        ) ==> {
            &&& first_status == 0 ==> first_outcome == Ok::<bool, GpuSampleError>(false)
            &&& first_status != 0 ==> first_outcome is Err
            &&& second_status == 0 ==> second_outcome == Ok::<bool, GpuSampleError>(
                first_status == 0,
            )
            &&& second_status != 0 ==> second_outcome is Err
        },
{
}

/// A counter that could not be added is missing, and no other.
pub proof fn missing_counters_are_those_that_failed(
    engine: u32,
    dedicated: u32,
    shared: u32,
    outcome: Result<QueryState, GpuSampleError>,
)
    ensures
        call_ensures(QueryState::new, (0, engine, dedicated, shared), outcome) ==> (
        outcome matches Ok(query) && (query.engine_error is None <==> engine == 0) && (
        query.dedicated_error is None <==> dedicated == 0) && (query.shared_error is None
            <==> shared == 0) && !query.primed),
{
}

/// A sample that failed leaves everything that is shown as it is, and marks it as stale where there
/// was a sample.
pub proof fn failed_sample_leaves_what_is_shown(
    page: &mut GpuPageState,
    error: GpuSampleError,
    recorded: bool,
)
    ensures
        call_ensures(GpuPageState::handle_dynamic_error, (page, error), recorded) ==> {
            &&& final(page).dynamic_snapshot == old(page).dynamic_snapshot
            &&& final(page).inventory == old(page).inventory
            &&& final(page).histories == old(page).histories
            &&& final(page).metadata == old(page).metadata
            &&& final(page).selected_adapter == old(page).selected_adapter
            &&& final(page).last_dynamic_error == Some(error)
            &&& old(page).dynamic_snapshot is Some <==> final(page).status == GpuPageStatus::Stale
            &&& old(page).last_dynamic_error is None ==> recorded
        },
{
}

/// An error that comes again is not put on record again.
pub proof fn same_failure_is_recorded_once(
    first: &mut GpuPageState,
    second: &mut GpuPageState,
    error: GpuSampleError,
    first_recorded: bool,
    second_recorded: bool,
)
    ensures
        call_ensures(GpuPageState::handle_dynamic_error, (first, error), first_recorded)
            && *old(second) == *final(first) && call_ensures(
            GpuPageState::handle_dynamic_error,
            (second, error),
            second_recorded,
        ) ==> !second_recorded,
{
}

/// A list of adapters of another generation makes the page forget the samples, the histories and
/// what was learned of the adapters before; what is asked next is about its own adapters.
pub proof fn other_generation_starts_anew(
    page: &mut GpuPageState,
    inventory: GpuInventorySnapshot,
    list_changed: bool,
    request: Option<GpuMetadataRequest>,
)
    requires
        old(page).inventory matches Some(current) && current.generation != inventory.generation,
        inventory.adapters@.len() > 0,
    ensures
        call_ensures(
            GpuPageState::commit_inventory,
            (page, inventory),
            InventoryOutcome::Committed(list_changed, request),
        ) ==> {
            &&& final(page).inventory == Some(inventory)
            &&& final(page).dynamic_snapshot is None
            &&& final(page).histories@.dom().is_empty()
            &&& final(page).metadata@.dom().is_empty()
            &&& final(page).last_dynamic_error is None
            &&& (request matches Some(request) && request.generation == inventory.generation
                && request.adapters@ == inventory.adapters@)
        },
{
}

/// A sample of another generation is ignored.
pub proof fn sample_of_another_generation_is_ignored(
    page: &mut GpuPageState,
    snapshot: GpuDynamicSnapshot,
    outcome: CommitOutcome,
)
    requires
        old(page).inventory matches Some(current) && current.generation != snapshot.generation,
    ensures
        call_ensures(GpuPageState::commit_dynamic_snapshot, (page, snapshot), outcome)
            ==> *final(page) == *old(page) && outcome == CommitOutcome::Ignored,
{
}

/// What could be learned of an adapter stands in its own field, whatever else failed; every failure
/// is noted.
pub proof fn learned_facts_stand_in_their_fields(
    info: GpuAdapterInfo,
    answers: AdapterAnswers,
    directx: Result<Option<String>, GpuSampleError>,
    metadata: GpuAdapterMetadata,
    i: int,
)
    requires
        call_ensures(
            adapter_metadata,
            (&info, Ok::<AdapterAnswers, GpuSampleError>(answers), directx),
            metadata,
        ),
    ensures
        metadata.id == info.id,
        answers.driver matches Ok((driver, noted)) ==> metadata.driver == driver && (0 <= i
            < noted@.len() ==> metadata.metadata_errors@.contains(noted@[i])),
        answers.driver matches Err(error) ==> metadata.driver.version is None
            && metadata.driver.date is None && metadata.metadata_errors@.contains(error),
        directx matches Ok(level) ==> metadata.directx_feature_level == level,
        directx matches Err(error) ==> metadata.directx_feature_level is None
            && metadata.metadata_errors@.contains(error),
        answers.installed_memory matches Ok(Some(installed)) && (
        info.dedicated_limit_bytes matches Some(limit) && 0 < limit <= installed)
            ==> metadata.hardware_reserved_bytes == Some(
            (answers.installed_memory->Ok_0->0 - info.dedicated_limit_bytes->0) as u64,
        ),
        answers.installed_memory matches Err(error) ==> metadata.hardware_reserved_bytes is None
            && metadata.metadata_errors@.contains(error),
{
    let errors = metadata.metadata_errors@;
    let own = error_list(reserved_memory(info, answers));
    let of_driver = match answers.driver {
        Ok((_, noted)) => noted@,
        Err(error) => seq![error],
    };
    let of_directx = error_list(directx);
    assert(errors =~= own + of_driver + of_directx);
    if own.len() > 0 {
        assert(errors[0] == own[0]);
    }
    if of_directx.len() > 0 {
        assert(errors[errors.len() - 1] == of_directx[0]);
    }
    if answers.driver is Err {
        assert(errors[own.len() as int] == of_driver[0]);
    }
    if 0 <= i < of_driver.len() {
        assert(errors[own.len() + i] == of_driver[i]);
    }
}

/// Of an adapter that could not be opened nothing is known but its feature level.
pub proof fn unopened_adapters_are_not_described(
    info: GpuAdapterInfo,
    error: GpuSampleError,
    directx: Result<Option<String>, GpuSampleError>,
    metadata: GpuAdapterMetadata,
)
    requires
        call_ensures(
            adapter_metadata,
            (&info, Err::<AdapterAnswers, GpuSampleError>(error), directx),
            metadata,
        ),
    ensures
        metadata.id == info.id,
        metadata.hardware_reserved_bytes is None,
        metadata.driver.version is None,
        directx matches Ok(level) ==> metadata.directx_feature_level == level,
        metadata.metadata_errors@.contains(error),
{
    assert(metadata.metadata_errors@[0] == error);
}

/// A request that was answered once is answered the same way again, without another question: one
/// entry for each adapter, under the generation of the request.
pub proof fn answered_requests_are_answered_again(
    first: &mut GpuMetadataCollector,
    second: &mut GpuMetadataCollector,
    request: GpuMetadataRequest,
    replies: Vec<AdapterReply>,
    others: Vec<AdapterReply>,
    snapshot: GpuMetadataSnapshot,
    again: Result<GpuMetadataSnapshot, GpuSampleError>,
    i: int,
)
    requires
        old(first).generation != Some(request.generation),
    ensures
        call_ensures(
            GpuMetadataCollector::collect,
            (first, request, replies),
            Ok::<GpuMetadataSnapshot, GpuSampleError>(snapshot),
        ) && *old(second) == *final(first) && call_ensures(
            GpuMetadataCollector::collect,
            (second, request, others),
            again,
        ) ==> {
            &&& snapshot.generation == request.generation
            &&& snapshot.adapters@.len() == request.adapters@.len()
            &&& (again matches Ok(told) && told@ == snapshot@)
            &&& *final(second) == *old(second)
            &&& 0 <= i < snapshot.adapters@.len() ==> snapshot.adapters@[i].id
                == request.adapters@[i].id
        },
{
    if call_ensures(
        GpuMetadataCollector::collect,
        (first, request, replies),
        Ok::<GpuMetadataSnapshot, GpuSampleError>(snapshot),
    ) {
        let kept = final(first).snapshot->0;
        assert(snapshot@ == kept@);
        assert(snapshot@.adapters.len() == snapshot.adapters@.len());
        assert(kept@.adapters.len() == kept.adapters@.len());
        assert(snapshot@.generation == snapshot.generation);
        assert(info_views(final(first).inventory@) == info_views(request.adapters@));
        if 0 <= i < snapshot.adapters@.len() {
            assert(snapshot@.adapters[i] == snapshot.adapters@[i]@);
            assert(kept@.adapters[i] == kept.adapters@[i]@);
        }
    }
}

/// A list of adapters changes neither how the page looks nor where it stands.
pub proof fn new_list_leaves_the_view(
    page: &mut GpuPageState,
    inventory: GpuInventorySnapshot,
    outcome: InventoryOutcome,
)
    ensures
        call_ensures(GpuPageState::commit_inventory, (page, inventory), outcome) ==> {
            &&& final(page).no_title == old(page).no_title
            &&& final(page).metadata_busy == old(page).metadata_busy
            &&& final(page).graph_scroll_offset == old(page).graph_scroll_offset
            &&& final(page).page_scroll_position == old(page).page_scroll_position
            &&& final(page).content_height == old(page).content_height
        },
{
}

} // verus!
