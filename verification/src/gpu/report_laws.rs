//! What a sample reports of what is missing, and what is remembered from round to round.
use std::sync::Arc;

use vstd::prelude::*;

use super::collector::{completes, counter_error, next_generation};
use super::counters::{
    concerns_engines, displayed_ids, first_fault, first_sample_fault, is_repeated, is_sample,
    issue_views, keeping_kind, keeps_known_kinds, kinds_after, sample_issues, with_kinds,
    CounterItemIssue, IssueLists, Readings,
};
use super::instances::instance_adapter;
use super::inventory::{is_hardware, is_info, pnp_key, text_length, AdapterDescription};
use super::metadata::{error_list, metadata_errors, AdapterAnswers};
use super::model::{
    EngineKindView, EngineSampleView, GpuAdapterId, GpuAdapterInfo, GpuAdapterSample,
    GpuCounterSample, GpuEngineId, GpuSampleError, GpuSampleSource,
};
use super::page::{is_known_error, signature_of, unsupported, GpuPageState};
use super::status::{failed_status, GpuPageStatus};
use crate::percent::Utilization;
use crate::processes::debugger_laws::first_zero_is_the_first;
use crate::utf16::{decoding_undoes_encoding, encoded};

verus! {

/// Whether a sample reports something about a source.
pub open spec fn reports(sample: GpuCounterSample, source: GpuSampleSource) -> bool {
    exists|i: int|
        0 <= i < sample.row_errors@.len() && (#[trigger] sample.row_errors@[i]).source == source
}

/// What is missing from a sample is reported in it: an amount of memory, the temperature where it
/// could not be asked for, and the utilization, which is missing exactly if something is wrong with
/// the engines.
pub proof fn what_is_missing_is_reported<U: Utilization>(
    sample: GpuCounterSample,
    all: Readings<U>,
    info: Arc<GpuAdapterInfo>,
    repeated: bool,
)
    requires
        is_sample(sample, all, info, repeated),
    ensures
        sample.info == info,
        sample.dedicated_usage_bytes is None ==> reports(sample, GpuSampleSource::DedicatedMemory),
        sample.shared_usage_bytes is None ==> reports(sample, GpuSampleSource::SharedMemory),
        sample.overall_utilization_percent is None <==> reports(sample, GpuSampleSource::Engine),
        forall|i: int, j: int|
            0 <= i < j < sample.engines@.len() ==> (#[trigger] sample.engines@[i]).id.ordinal < (
            #[trigger] sample.engines@[j]).id.ordinal,
        forall|i: int|
            0 <= i < sample.engines@.len()
                ==> (#[trigger] sample.engines@[i]).id.adapter == info.id,
{
    let issues = sample_issues(all, info.id, repeated);
    let views = issue_views(sample.row_errors@);
    assert(views == issues);
    assert forall|i: int| 0 <= i < views.len() implies (#[trigger] views[i]).source
        == sample.row_errors@[i].source by {
        assert(views[i] == sample.row_errors@[i]@);
    }
    let n = issues.len();
    if sample.shared_usage_bytes is None {
        assert(issues[n - 1].source == GpuSampleSource::SharedMemory);
        assert(sample.row_errors@[n - 1].source == GpuSampleSource::SharedMemory);
    }
    if sample.dedicated_usage_bytes is None {
        let at = if sample.shared_usage_bytes is None {
            n - 2
        } else {
            n - 1
        };
        assert(issues[at].source == GpuSampleSource::DedicatedMemory);
        assert(sample.row_errors@[at].source == GpuSampleSource::DedicatedMemory);
    }
    if concerns_engines(issues) {
        let i = choose|i: int|
            0 <= i < issues.len() && (#[trigger] issues[i]).source == GpuSampleSource::Engine;
        assert(sample.row_errors@[i].source == GpuSampleSource::Engine);
    }
    if reports(sample, GpuSampleSource::Engine) {
        let i = choose|i: int|
            0 <= i < sample.row_errors@.len() && (#[trigger] sample.row_errors@[i]).source
                == GpuSampleSource::Engine;
        assert(issues[i].source == GpuSampleSource::Engine);
    }
}

/// A reading without a usable value is reported with the adapter that its name tells, and with
/// every adapter where it tells none that is displayed. Exactly one issue is noted for each.
pub proof fn unusable_items_are_reported_once(
    lists: IssueLists,
    source: GpuSampleSource,
    item: CounterItemIssue,
    displayed: Seq<GpuAdapterId>,
)
    ensures
        ({
            let after = lists.with_item_issue(source, item, displayed);
            let adapter = match item.instance_name {
                Some(name) => instance_adapter(source, name@),
                None => None,
            };
            let own = adapter is Some && displayed.contains(adapter->0);
            let noted = if own {
                after.rows.last()
            } else {
                after.global.last()
            };
            &&& own ==> after.rows.len() == lists.rows.len() + 1 && after.global == lists.global
            &&& !own ==> after.global.len() == lists.global.len() + 1 && after.rows == lists.rows
            &&& noted.source == source
            &&& noted.error == item.error
            &&& noted.adapter_id == adapter
        }),
{
}

/// The error that makes a list of samples incomplete is that of the first incomplete one; there is
/// none exactly if all of them are complete.
pub proof fn first_incomplete_sample_counts<U>(
    all: Readings<U>,
    infos: Seq<Arc<GpuAdapterInfo>>,
    index: int,
)
    requires
        0 <= index <= infos.len(),
    ensures
        match first_sample_fault(all, infos, index) {
            None => forall|i: int|
                index <= i < infos.len() ==> first_fault(
                    sample_issues(all, (#[trigger] infos[i]).id, is_repeated(infos, i)),
                ) is None,
            Some(error) => exists|i: int|
                index <= i < infos.len() && first_fault(
                    sample_issues(all, (#[trigger] infos[i]).id, is_repeated(infos, i)),
                ) == Some(error),
        },
    decreases infos.len() - index,
{
    if index < infos.len() {
        first_incomplete_sample_counts(all, infos, index + 1);
        if first_fault(sample_issues(all, infos[index].id, is_repeated(infos, index))) is Some {
            assert(infos[index] == infos[index]);
        }
    }
}

/// Of the engines of a sample only those stay that are of the kind under which they are known. Each
/// of the others is reported, and where there is one there is no overall utilization.
pub proof fn engines_of_another_kind_are_reported(
    after: GpuCounterSample,
    before: GpuCounterSample,
    kinds: Map<GpuEngineId, EngineKindView>,
)
    requires
        keeps_known_kinds(after, before, kinds),
    ensures
        after.engines@.len() <= before.engines@.len(),
        after.row_errors@.len() + after.engines@.len() == before.row_errors@.len()
            + before.engines@.len(),
        after.engines@.len() < before.engines@.len() ==> after.overall_utilization_percent is None,
        after.engines@.len() == before.engines@.len() ==> after.overall_utilization_percent
            == before.overall_utilization_percent,
        after.dedicated_usage_bytes == before.dedicated_usage_bytes,
        after.shared_usage_bytes == before.shared_usage_bytes,
        after.temperature_deci_c == before.temperature_deci_c,
        after.info == before.info,
        forall|i: int|
            before.row_errors@.len() <= i < after.row_errors@.len() ==> (
            #[trigger] after.row_errors@[i]).source == GpuSampleSource::Engine,
{
    let engines = super::counters::engine_sample_views(before.engines@);
    super::memory_laws::kept_engines_are_of_their_known_kind(kinds, engines);
    let kept = keeping_kind(kinds, engines);
    engines.lemma_filter_len(
        |engine: EngineSampleView| with_kinds(kinds, engines)[engine.id] == engine.kind,
    );
    assert(kept.len() <= engines.len());
    let noted = issue_views(after.row_errors@);
    assert(super::counters::engine_sample_views(after.engines@).len() == after.engines@.len());
    assert(noted.len() == after.row_errors@.len());
    assert forall|i: int| before.row_errors@.len() <= i < after.row_errors@.len() implies (
    #[trigger] after.row_errors@[i]).source == GpuSampleSource::Engine by {
        assert(noted[i] == after.row_errors@[i]@);
    }
}

/// What is learned of an engine in one sample holds for those behind it.
pub proof fn kinds_are_learned_in_order(
    kinds: Map<GpuEngineId, EngineKindView>,
    samples: Seq<GpuCounterSample>,
    id: GpuEngineId,
)
    requires
        kinds.contains_key(id),
    ensures
        kinds_after(kinds, samples).contains_key(id),
        kinds_after(kinds, samples)[id] == kinds[id],
    decreases samples.len(),
{
    if samples.len() > 0 {
        kinds_are_learned_in_order(kinds, samples.drop_last(), id);
        super::memory_laws::first_kind_of_an_engine_stays(
            kinds_after(kinds, samples.drop_last()),
            super::counters::engine_sample_views(samples.last().engines@),
            id,
        );
    }
}

/// A complete sample says exactly what the counters said.
pub proof fn complete_samples_say_the_same(complete: GpuAdapterSample, sample: GpuCounterSample)
    requires
        completes(complete, sample),
    ensures
        sample.overall_utilization_percent == Some(complete.overall_utilization_percent),
        sample.dedicated_usage_bytes == Some(complete.dedicated_usage_bytes),
        sample.shared_usage_bytes == Some(complete.shared_usage_bytes),
        sample.temperature_deci_c == complete.temperature_deci_c,
        sample.engines == complete.engines,
        complete.row_errors@.len() == sample.row_errors@.len(),
        forall|i: int|
            0 <= i < complete.row_errors@.len() ==> #[trigger] complete.row_errors@[i]
                == sample.row_errors@[i].error,
{
    let views = issue_views(sample.row_errors@);
    assert forall|i: int| 0 <= i < complete.row_errors@.len() implies #[trigger]
        complete.row_errors@[i] == sample.row_errors@[i].error by {
        assert(views[i] == sample.row_errors@[i]@);
    }
}

/// A new generation is never zero and never the last one.
pub proof fn generations_differ(generation: u64)
    ensures
        next_generation(generation) != 0,
        next_generation(generation) != generation,
        generation < u64::MAX ==> next_generation(generation) == generation + 1,
{
}

/// A counter that could not be added is reported with its path and its status.
pub proof fn missing_counters_tell_their_path(path: &'static str, status: u32)
    ensures
        status == 0 ==> counter_error(path, status) is None,
        status != 0 ==> counter_error(path, status) == Some(
            GpuSampleError::Pdh { context: path, status },
        ),
{
}

/// An adapter counts exactly if neither of the flags for programs and remote adapters is set.
pub proof fn hardware_has_neither_flag(flags: u32)
    ensures
        is_hardware(flags) <==> flags % 4 == 0,
{
    assert(flags & (2u32 | 1u32) == 0 <==> flags % 4 == 0) by (bit_vector);
}

/// What is known of an adapter is what the system describes; the limits of memory are those of a
/// single physical adapter only.
pub proof fn adapters_are_described_by_the_system(
    info: GpuAdapterInfo,
    description: AdapterDescription,
    enumeration_index: u32,
    name: Seq<char>,
    physical_index: int,
    physical_count: u32,
)
    requires
        is_info(info, description, enumeration_index, name, physical_index, physical_count),
    ensures
        info.id.luid == description.luid,
        info.id.physical_index == physical_index,
        info.name@ == name,
        info.vendor_id == description.vendor_id && info.device_id == description.device_id,
        info.subsystem_id == description.subsystem_id && info.revision == description.revision,
        physical_count == 1 ==> info.dedicated_limit_bytes == Some(
            description.dedicated_video_memory,
        ) && info.shared_limit_bytes == Some(description.shared_system_memory),
        physical_count != 1 ==> info.dedicated_limit_bytes is None
            && info.shared_limit_bytes is None,
{
}

/// A text with room to spare ends at its first zero, or fills all of its room.
pub proof fn spare_room_ends_the_text(units: Seq<u16>)
    ensures
        0 <= text_length(units) <= units.len(),
        forall|i: int| 0 <= i < text_length(units) ==> #[trigger] units[i] != 0,
        text_length(units) < units.len() ==> units[text_length(units)] == 0,
{
    first_zero_is_the_first(units);
}

/// The key of a device is read as it was written, with a zero behind it.
pub proof fn device_keys_are_read(text: Seq<char>, buffer: Seq<u16>, count: u32)
    requires
        count == encoded(text).len() + 1,
        count <= buffer.len(),
        buffer.take(encoded(text).len() as int) == encoded(text),
        buffer[encoded(text).len() as int] == 0,
        forall|i: int| 0 <= i < encoded(text).len() ==> #[trigger] encoded(text)[i] != 0,
    ensures
        pnp_key(0, count, buffer) == Ok::<Seq<char>, GpuSampleError>(text),
{
    let units = buffer.take(count as int);
    let length = encoded(text).len() as int;
    first_zero_is_the_first(units);
    assert(units[length] == 0);
    assert forall|i: int| 0 <= i < length implies #[trigger] units[i] != 0 by {
        assert(buffer.take(length)[i] == units[i]);
    }
    assert(crate::pdh::first_zero(units) == Some(length));
    assert(units.take(length) =~= encoded(text));
    decoding_undoes_encoding(text);
}

/// Every failure to learn something of an adapter is noted, and nothing else.
pub proof fn failures_are_noted_with_the_adapter(
    info: GpuAdapterInfo,
    answers: Result<AdapterAnswers, GpuSampleError>,
    directx: Result<Option<String>, GpuSampleError>,
    error: GpuSampleError,
)
    ensures
        answers == Err::<AdapterAnswers, GpuSampleError>(error) ==> metadata_errors(
            info,
            answers,
            directx,
        ).contains(error),
        directx == Err::<Option<String>, GpuSampleError>(error) ==> metadata_errors(
            info,
            answers,
            directx,
        ).contains(error),
        answers matches Ok(said) && said.driver is Err && said.driver->Err_0 == error
            ==> metadata_errors(info, answers, directx).contains(error),
        answers matches Ok(said) && said.installed_memory is Err && said.installed_memory->Err_0
            == error ==> metadata_errors(info, answers, directx).contains(error),
        directx is Ok && (answers matches Ok(said) && super::metadata::reserved_memory(info, said)
            is Ok && said.driver is Ok && said.driver->Ok_0.1@.len() == 0) ==> metadata_errors(
            info,
            answers,
            directx,
        ).len() == 0,
{
    let errors = metadata_errors(info, answers, directx);
    if directx is Err {
        assert(errors[errors.len() - 1] == directx->Err_0);
    }
    if answers is Err {
        assert(errors[0] == answers->Err_0);
    } else {
        let said = answers->Ok_0;
        let reserved = error_list(super::metadata::reserved_memory(info, said));
        if said.installed_memory is Err {
            assert(errors[0] == said.installed_memory->Err_0);
        }
        if said.driver is Err {
            assert(errors[reserved.len() as int] == said.driver->Err_0);
        }
    }
}

/// After a failure the page is stale if there was a sample; without one it says whether the machine
/// lacks the counters or something else went wrong.
pub proof fn failures_say_what_is_shown(has_snapshot: bool, lacks_counters: bool)
    ensures
        failed_status(true, lacks_counters) == GpuPageStatus::Stale,
        failed_status(false, true) == GpuPageStatus::Unsupported,
        failed_status(false, false) == GpuPageStatus::Failed,
{
}

/// Only an error of a counter can mean that the machine does not offer it.
pub proof fn only_counters_can_be_missing(error: GpuSampleError)
    ensures
        unsupported(error) ==> error is Pdh,
        error matches GpuSampleError::Pdh { context, status } ==> (unsupported(error) <==> status
            == 0xC000_0BB8u32 || status == 0xC000_0BB9u32 || status == 0xC000_0BC4u32),
{
}

/// An error is known exactly if it is the one that was there before.
pub proof fn errors_are_known_by_what_they_say(last: GpuSampleError, error: GpuSampleError)
    ensures
        is_known_error(Some(last), error) <==> last@ == error@,
        !is_known_error(None, error),
        is_known_error(Some(error), error),
{
}

/// A request that cannot be made is an error; one that can is none.
pub proof fn failed_requests_are_errors(outcome: Option<Result<(), u32>>)
    ensures
        GpuPageState::request_error(outcome) is None <==> outcome is Some && outcome->0 is Ok,
        GpuPageState::metadata_request_error(outcome) is None <==> outcome is Some
            && outcome->0 is Ok,
        outcome matches Some(Err(code)) ==> (GpuPageState::request_error(outcome) matches Some(
            GpuSampleError::Win32 { context, code: told },
        ) && told == code),
{
}

/// The choice of adapters names them in the order of the list.
pub proof fn adapters_are_named_in_order(infos: Seq<Arc<GpuAdapterInfo>>, i: int)
    requires
        0 <= i < infos.len(),
    ensures
        signature_of(infos).len() == infos.len(),
        signature_of(infos)[i].0 == infos[i].id,
        signature_of(infos)[i].1 == infos[i].name@,
        displayed_ids(infos)[i] == infos[i].id,
{
}

} // verus!
