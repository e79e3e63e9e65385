//! What becomes of the sources of processor details from one round to the next.
use vstd::prelude::*;

use super::collector::{
    check_relation_buffer, relation_buffer_words, BaselineStep, CpuFirmwareCollector,
    CpuNativeCollector, CpuPdhCollectOutcome, DynamicAction, FirmwarePlan, SampleBaseline,
};
use super::firmware::CpuFirmwareProcessor;
use super::model::{
    CpuComponentUpdate, CpuDetailError, CpuDetailRefresh, CpuDynamicInfo, CpuSupplementalTopology,
    CpuTopologyKey,
};

verus! {

/// A topology that was delivered is not asked for again; one that failed is asked for again exactly
/// when the user wants it. What was delivered, or the error, is what is reported.
pub proof fn topology_is_asked_for_again_by_the_user(
    collector: &mut CpuNativeCollector,
    result: Result<CpuSupplementalTopology, CpuDetailError>,
    update: CpuComponentUpdate<CpuSupplementalTopology>,
    refresh: CpuDetailRefresh,
    wanted: bool,
)
    ensures
        call_ensures(CpuNativeCollector::note_topology, (collector, result), update)
            && call_ensures(
            CpuNativeCollector::wants_topology,
            (final(collector), refresh),
            wanted,
        ) ==> {
            &&& wanted <==> result is Err && refresh == CpuDetailRefresh::User
            &&& result matches Ok(value) ==> update == CpuComponentUpdate::Success(value)
            &&& result matches Err(error) ==> update == CpuComponentUpdate::<
                CpuSupplementalTopology,
            >::Failed(error)
            &&& final(collector).pdh_open == old(collector).pdh_open
            &&& final(collector).pdh_failed == old(collector).pdh_failed
            &&& final(collector).features_done == old(collector).features_done
        },
{
}

/// Before it was asked for, the topology is wanted in every round.
pub proof fn new_topology_is_asked_for(
    collector: &mut CpuNativeCollector,
    key: CpuTopologyKey,
    refresh: CpuDetailRefresh,
    wanted: bool,
)
    requires
        old(collector).topology_key matches Some(current) ==> current.0@ != key.0@,
    ensures
        call_ensures(CpuNativeCollector::select_topology, (collector, &key), ()) && call_ensures(
            CpuNativeCollector::wants_topology,
            (final(collector), refresh),
            wanted,
        ) ==> wanted && !final(collector).features_done && !final(collector).pdh_open
            && !final(collector).pdh_failed,
{
}

/// The same topology goes on where it was.
pub proof fn same_topology_goes_on(collector: &mut CpuNativeCollector, key: CpuTopologyKey)
    requires
        old(collector).topology_key matches Some(current) && current.0@ == key.0@,
    ensures
        call_ensures(CpuNativeCollector::select_topology, (collector, &key), ())
            ==> *final(collector) == *old(collector),
{
}

/// The features are asked for once.
pub proof fn features_are_asked_for_once(
    first: &mut CpuNativeCollector,
    second: &mut CpuNativeCollector,
    wanted_first: bool,
    wanted_second: bool,
)
    requires
        !old(first).features_done,
    ensures
        call_ensures(CpuNativeCollector::take_features, (first,), wanted_first) && *old(second)
            == *final(first) && call_ensures(
            CpuNativeCollector::take_features,
            (second,),
            wanted_second,
        ) ==> wanted_first && !wanted_second,
{
}

/// Counters that could not be read are closed and left alone, until the user has them opened again;
/// the error is reported.
pub proof fn failed_counters_wait_for_the_user(
    first: &mut CpuNativeCollector,
    second: &mut CpuNativeCollector,
    error: CpuDetailError,
    update: (CpuComponentUpdate<CpuDynamicInfo>, Option<u64>),
    refresh: CpuDetailRefresh,
    action: DynamicAction,
)
    ensures
        call_ensures(
            CpuNativeCollector::note_collected,
            (first, Err::<CpuPdhCollectOutcome, CpuDetailError>(error)),
            update,
        ) && *old(second) == *final(first) && call_ensures(
            CpuNativeCollector::plan_dynamic,
            (second, refresh),
            action,
        ) ==> {
            &&& action == if refresh == CpuDetailRefresh::User {
                DynamicAction::Open
            } else {
                DynamicAction::Skip
            }
            &&& update.0 == CpuComponentUpdate::<CpuDynamicInfo>::Failed(error)
        },
{
}

/// So are counters that could not be opened.
pub proof fn unopened_counters_wait_for_the_user(
    first: &mut CpuNativeCollector,
    second: &mut CpuNativeCollector,
    error: CpuDetailError,
    update: Option<CpuComponentUpdate<CpuDynamicInfo>>,
    refresh: CpuDetailRefresh,
    action: DynamicAction,
)
    requires
        !old(first).pdh_open,
    ensures
        call_ensures(
            CpuNativeCollector::note_opened,
            (first, Err::<(), CpuDetailError>(error)),
            update,
        ) && *old(second) == *final(first) && call_ensures(
            CpuNativeCollector::plan_dynamic,
            (second, refresh),
            action,
        ) ==> {
            &&& action == if refresh == CpuDetailRefresh::User {
                DynamicAction::Open
            } else {
                DynamicAction::Skip
            }
            &&& update == Some(CpuComponentUpdate::<CpuDynamicInfo>::Failed(error))
        },
{
}

/// Counters that were opened are collected from, round by round, as long as that works. Nothing is
/// reported of a first reading, and every later one is.
pub proof fn open_counters_are_collected_from(
    opened: &mut CpuNativeCollector,
    planned: &mut CpuNativeCollector,
    collected: &mut CpuNativeCollector,
    outcome: CpuPdhCollectOutcome,
    opening: Option<CpuComponentUpdate<CpuDynamicInfo>>,
    update: (CpuComponentUpdate<CpuDynamicInfo>, Option<u64>),
    refresh: CpuDetailRefresh,
    action: DynamicAction,
)
    requires
        !old(opened).pdh_failed,
    ensures
        call_ensures(
            CpuNativeCollector::note_opened,
            (opened, Ok::<(), CpuDetailError>(())),
            opening,
        ) && *old(collected) == *final(opened) && call_ensures(
            CpuNativeCollector::note_collected,
            (collected, Ok::<CpuPdhCollectOutcome, CpuDetailError>(outcome)),
            update,
        ) && *old(planned) == *final(collected) && call_ensures(
            CpuNativeCollector::plan_dynamic,
            (planned, refresh),
            action,
        ) ==> {
            &&& opening is None
            &&& action == DynamicAction::Collect
            &&& outcome matches CpuPdhCollectOutcome::Sample(value) ==> update.0
                == CpuComponentUpdate::Success(value) && update.1 is None
            &&& outcome matches CpuPdhCollectOutcome::Primed(time) ==> update.0
                == CpuComponentUpdate::<CpuDynamicInfo>::Unchanged && update.1 == Some(time)
        },
{
}

/// The first good reading is one to compare with, and every good one behind it has a value, until
/// the reading to compare with is forgotten.
pub proof fn second_reading_has_a_value(
    first: &mut SampleBaseline,
    second: &mut SampleBaseline,
    forgotten: &mut SampleBaseline,
    status: u32,
    first_step: Result<BaselineStep, CpuDetailError>,
    second_step: Result<BaselineStep, CpuDetailError>,
)
    ensures
        call_ensures(SampleBaseline::reset_sample_baseline, (forgotten,), ()) && *old(first)
            == *final(forgotten) && call_ensures(SampleBaseline::advance, (first, 0), first_step)
            && *old(second) == *final(first) && call_ensures(
            SampleBaseline::advance,
            (second, status),
            second_step,
        ) ==> {
            &&& first_step == Ok::<BaselineStep, CpuDetailError>(BaselineStep::Primed)
            &&& status == 0 ==> second_step == Ok::<BaselineStep, CpuDetailError>(
                BaselineStep::Readable,
            )
            &&& status != 0 ==> second_step is Err
            &&& final(second).ready
        },
{
}

/// Firmware that was read is not asked again for the same topology; firmware that failed is asked
/// again exactly when the user wants it, over a new connection.
pub proof fn firmware_is_asked_again_by_the_user(
    first: &mut CpuFirmwareCollector,
    noted: &mut CpuFirmwareCollector,
    second: &mut CpuFirmwareCollector,
    key: CpuTopologyKey,
    result: Result<Vec<CpuFirmwareProcessor>, CpuDetailError>,
    update: CpuComponentUpdate<Vec<CpuFirmwareProcessor>>,
    first_refresh: CpuDetailRefresh,
    refresh: CpuDetailRefresh,
    first_plan: FirmwarePlan,
    plan: FirmwarePlan,
)
    ensures
        call_ensures(CpuFirmwareCollector::plan, (first, &key, first_refresh), first_plan)
            && *old(noted) == *final(first) && call_ensures(
            CpuFirmwareCollector::note_result,
            (noted, result),
            update,
        ) && *old(second) == *final(noted) && call_ensures(
            CpuFirmwareCollector::plan,
            (second, &key, refresh),
            plan,
        ) ==> {
            &&& plan.query <==> result is Err && refresh == CpuDetailRefresh::User
            &&& plan.reconnect <==> plan.query
            &&& result matches Ok(value) ==> update == CpuComponentUpdate::Success(value)
            &&& result matches Err(error) ==> update == CpuComponentUpdate::<
                Vec<CpuFirmwareProcessor>,
            >::Failed(error)
        },
{
}

/// Firmware of another topology is asked in any case.
pub proof fn firmware_of_a_new_topology_is_asked(
    collector: &mut CpuFirmwareCollector,
    key: CpuTopologyKey,
    refresh: CpuDetailRefresh,
    plan: FirmwarePlan,
)
    requires
        old(collector).topology_key matches Some(current) ==> current.0@ != key.0@,
    ensures
        call_ensures(CpuFirmwareCollector::plan, (collector, &key, refresh), plan) ==> plan.query
            && !plan.reconnect && !final(collector).firmware_failed,
{
}

/// The room for the topology records holds all of them, with less than one word to spare; and what
/// was delivered may be read exactly if it is not empty and fits into it.
pub proof fn records_fit_into_their_room(
    byte_len: u32,
    last_error: u32,
    words: Result<usize, CpuDetailError>,
    returned_len: u32,
    capacity: usize,
    checked: Result<(), CpuDetailError>,
)
    ensures
        call_ensures(relation_buffer_words, (false, byte_len, 122), words) ==> (words is Ok
            <==> byte_len > 0) && (words matches Ok(count) ==> byte_len <= count * 8 < byte_len
            + 8),
        call_ensures(check_relation_buffer, (true, returned_len, capacity, last_error), checked)
            ==> (checked is Ok <==> 0 < returned_len <= capacity),
        call_ensures(check_relation_buffer, (false, returned_len, capacity, last_error), checked)
            ==> checked is Err,
{
}

} // verus!
