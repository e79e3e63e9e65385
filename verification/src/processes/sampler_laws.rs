//! What rows say of processes, told from what was asked and answered.
use vstd::prelude::*;

use super::model::{ProcEntry, ProcFacts, ProcStaticMetadata, NORMAL_PRIORITY_CLASS};
use super::sampler::{
    answered_facts, bitness_error, enumerated_facts, identity_of, kb_delta, merged_facts,
    metadata_after, remembered_facts, resolved_after, resolves_user, row_after_merge, timed_facts,
    verified_identities, with_rows, wts_answer, MetadataView, OpenedRow, PreviousProcSample,
    ProcessMemory, ProcessTimes, RawProcess, RowAnswers, WtsIdentityView, WtsRow,
};
use crate::perf_drawing::up_to_zero;
use crate::process_identity::ProcIdentity;
use crate::text::lowercase;
use crate::utf16::decoded_lossy;

verus! {

/// What is known of a process when its row is opened.
pub open spec fn opened_facts(
    raw: RawProcess,
    times: Option<ProcessTimes>,
    previous: Map<ProcIdentity, PreviousProcSample>,
    metadata: Map<ProcIdentity, ProcStaticMetadata>,
    total_delta: Option<u64>,
) -> ProcFacts {
    remembered_facts(
        timed_facts(enumerated_facts(raw), times, previous, total_delta),
        identity_of(raw.pid, times),
        metadata,
    )
}

/// The processor time of a row is what the process spent in the kernel and in user mode
/// together, as far as it can be represented. A process is the one that it was at its creation.
pub proof fn processor_time_is_kernel_and_user_time(
    raw: RawProcess,
    times: ProcessTimes,
    previous: Map<ProcIdentity, PreviousProcSample>,
    metadata: Map<ProcIdentity, ProcStaticMetadata>,
    total_delta: Option<u64>,
)
    ensures
        ({
            let facts = opened_facts(raw, Some(times), previous, metadata, total_delta);
            let spent = times.kernel_100ns + times.user_100ns;
            &&& facts.display_cpu_time_100ns == facts.cpu_time_100ns
            &&& spent <= u64::MAX ==> facts.cpu_time_100ns == spent
            &&& spent > u64::MAX ==> facts.cpu_time_100ns == u64::MAX
            &&& identity_of(raw.pid, Some(times)).pid == raw.pid
            &&& identity_of(raw.pid, Some(times)).creation_time_100ns == times.creation_100ns
        }),
{
}

/// Time that a process spends longer, be it in the kernel or in user mode, is time that its row
/// shows longer.
pub proof fn processor_time_grows_with_both_times(
    raw: RawProcess,
    times: ProcessTimes,
    later: ProcessTimes,
    previous: Map<ProcIdentity, PreviousProcSample>,
    metadata: Map<ProcIdentity, ProcStaticMetadata>,
    total_delta: Option<u64>,
)
    requires
        times.kernel_100ns <= later.kernel_100ns,
        times.user_100ns <= later.user_100ns,
        later.kernel_100ns + later.user_100ns <= u64::MAX,
    ensures
        opened_facts(raw, Some(later), previous, metadata, total_delta).cpu_time_100ns
            - opened_facts(raw, Some(times), previous, metadata, total_delta).cpu_time_100ns == (
        later.kernel_100ns - times.kernel_100ns) + (later.user_100ns - times.user_100ns),
{
}

proof fn lemma_nearest_percent(delta: int, total: int, percent: int)
    requires
        0 <= delta,
        0 < total,
        percent == (delta * 100 + total / 2) / total,
    ensures
        percent >= 0,
        2 * (percent * total) <= 200 * delta + total,
        200 * delta < 2 * (percent * total) + total,
{
    let half = total / 2;
    let sum = delta * 100 + half;
    assert(sum == percent * total + sum % total && 0 <= sum % total < total && percent >= 0)
        by (nonlinear_arith)
        requires
            percent == sum / total,
            sum >= 0,
            total > 0,
    ;
}

/// The processor share of a row is the percentage that is nearest to what the process spent since
/// the last walk, in kernel and user mode together, of the time that passed on all processors;
/// one hundred is the most. Without an earlier walk to compare with it is zero.
pub proof fn processor_share_is_the_nearest_percentage(
    raw: RawProcess,
    times: ProcessTimes,
    previous: Map<ProcIdentity, PreviousProcSample>,
    metadata: Map<ProcIdentity, ProcStaticMetadata>,
    total_delta: Option<u64>,
)
    requires
        times.kernel_100ns + times.user_100ns <= u64::MAX,
    ensures
        ({
            let facts = opened_facts(raw, Some(times), previous, metadata, total_delta);
            let identity = ProcIdentity {
                pid: raw.pid,
                creation_time_100ns: times.creation_100ns,
            };
            let spent = times.kernel_100ns + times.user_100ns
                - previous[identity].raw_cpu_time_100ns;
            let share = facts.cpu as int;
            &&& facts.cpu <= 100
            &&& !previous.contains_key(identity) || total_delta is None ==> facts.cpu == 0
            &&& previous.contains_key(identity) && spent < 0 ==> facts.cpu == 0
            &&& previous.contains_key(identity) && total_delta == Some(0u64) ==> facts.cpu == 0
            &&& previous.contains_key(identity) && spent >= 0 && total_delta is Some
                && total_delta->0 > 0 ==> {
                let total = total_delta->0 as int;
                &&& spent >= total ==> share == 100
                &&& spent <= total ==> 2 * (share * total) <= 200 * spent + total && 200 * spent
                    < 2 * (share * total) + total
            }
        }),
{
    let identity = ProcIdentity { pid: raw.pid, creation_time_100ns: times.creation_100ns };
    let spent = times.kernel_100ns + times.user_100ns - previous[identity].raw_cpu_time_100ns;
    if total_delta is Some && total_delta->0 > 0 && spent >= 0 {
        let total = total_delta->0 as int;
        let percent = (spent * 100 + total / 2) / total;
        lemma_nearest_percent(spent, total, percent);
        if spent >= total {
            assert(percent >= 100) by (nonlinear_arith)
                requires
                    200 * spent < 2 * (percent * total) + total,
                    spent >= total,
                    total > 0,
            ;
        }
        if spent <= total && percent > 100 {
            assert(false) by (nonlinear_arith)
                requires
                    2 * (percent * total) <= 200 * spent + total,
                    spent <= total,
                    percent >= 101,
                    total > 0,
            ;
        }
    }
}

/// What the enumeration says of a process stands in its row, whatever its times are and whatever
/// earlier walks know of it.
pub proof fn enumeration_stands_in_the_row(
    raw: RawProcess,
    times: Option<ProcessTimes>,
    previous: Map<ProcIdentity, PreviousProcSample>,
    metadata: Map<ProcIdentity, ProcStaticMetadata>,
    total_delta: Option<u64>,
)
    ensures
        ({
            let facts = opened_facts(raw, times, previous, metadata, total_delta);
            &&& facts.pid == raw.pid
            &&& facts.thread_count == raw.thread_count
            &&& facts.image_name == decoded_lossy(up_to_zero(raw.image@))
            &&& facts.image_name_lower == lowercase(facts.image_name)
            &&& facts.priority_class == NORMAL_PRIORITY_CLASS
            &&& facts.handle_count == 0
            &&& facts.mem_usage_kb == 0 && facts.mem_diff_kb == 0
            &&& facts.page_faults == 0 && facts.page_faults_diff == 0
            &&& facts.commit_charge_kb == 0
            &&& facts.paged_pool_kb == 0 && facts.nonpaged_pool_kb == 0
            &&& times is None ==> facts.cpu == 0 && facts.cpu_time_100ns == 0
                && facts.display_cpu_time_100ns == 0 && identity_of(raw.pid, times)
                == (ProcIdentity { pid: raw.pid, creation_time_100ns: 0 })
        }),
{
}

/// What is remembered of exactly this process stands in its row; of a process that nothing is
/// remembered of, nothing is known but that the idle process runs under the system's account.
pub proof fn remembered_account_stands_in_the_row(
    raw: RawProcess,
    times: Option<ProcessTimes>,
    previous: Map<ProcIdentity, PreviousProcSample>,
    metadata: Map<ProcIdentity, ProcStaticMetadata>,
    total_delta: Option<u64>,
)
    ensures
        ({
            let facts = opened_facts(raw, times, previous, metadata, total_delta);
            let identity = ProcIdentity {
                pid: raw.pid,
                creation_time_100ns: match times {
                    Some(times) => times.creation_100ns,
                    None => 0,
                },
            };
            if metadata.contains_key(identity) {
                let known = metadata[identity];
                &&& facts.is_32_bit == known.is_32_bit
                &&& facts.user_name == known.user_name@
                &&& facts.user_name_lower == known.user_name_lower@
                &&& facts.session_id == known.session_id
            } else if raw.pid == 0 {
                &&& facts.is_32_bit is None
                &&& facts.user_name == "SYSTEM"@
                &&& facts.user_name_lower == "system"@
                &&& facts.session_id == Some(0u32)
            } else {
                &&& facts.is_32_bit is None
                &&& facts.user_name.len() == 0
                &&& facts.user_name_lower.len() == 0
                &&& facts.session_id is None
            }
        }),
{
}

/// The difference of two amounts is what leads from one to the other, and the same backwards with
/// the opposite sign. Where it cannot be represented, the largest amount stands for it.
pub proof fn differences_lead_back(current: u64, previous: u64)
    ensures
        kb_delta(current as int, previous as int) == -kb_delta(previous as int, current as int),
        -i64::MAX <= kb_delta(current as int, previous as int) <= i64::MAX,
        -i64::MAX <= current - previous <= i64::MAX ==> previous + kb_delta(
            current as int,
            previous as int,
        ) == current,
        current - previous > i64::MAX ==> kb_delta(current as int, previous as int) == i64::MAX,
{
}

/// Whether `kilobytes` is a number of bytes in whole kilobytes.
pub open spec fn is_in_kilobytes(kilobytes: u64, bytes: u64) -> bool {
    kilobytes * 1024 <= bytes < kilobytes * 1024 + 1024
}

/// Every amount of memory in a row is the amount of its own kind, in whole kilobytes, and the
/// differences are those to the last walk.
pub proof fn memory_amounts_stand_in_the_row(
    row: OpenedRow,
    answers: RowAnswers,
    previous: Map<ProcIdentity, PreviousProcSample>,
    memory: ProcessMemory,
)
    requires
        answers.memory == Some(memory),
    ensures
        ({
            let facts = answered_facts(row, answers, previous);
            let earlier = previous[row.entry.identity];
            &&& is_in_kilobytes(facts.mem_usage_kb, memory.working_set)
            &&& is_in_kilobytes(facts.commit_charge_kb, memory.private_usage)
            &&& is_in_kilobytes(facts.paged_pool_kb, memory.paged_pool)
            &&& is_in_kilobytes(facts.nonpaged_pool_kb, memory.nonpaged_pool)
            &&& facts.page_faults == memory.page_faults
            &&& previous.contains_key(row.entry.identity) && earlier.mem_usage_kb <= i64::MAX
                ==> earlier.mem_usage_kb + facts.mem_diff_kb == facts.mem_usage_kb
            &&& previous.contains_key(row.entry.identity) ==> earlier.page_faults
                + facts.page_faults_diff == facts.page_faults
            &&& !previous.contains_key(row.entry.identity) ==> facts.mem_diff_kb
                == row.entry.mem_diff_kb && facts.page_faults_diff == row.entry.page_faults_diff
        }),
{
}

/// An answer changes what it is about and nothing else: without it the row stays as it was
/// opened.
pub proof fn answers_change_only_their_own(
    row: OpenedRow,
    answers: RowAnswers,
    previous: Map<ProcIdentity, PreviousProcSample>,
)
    ensures
        ({
            let facts = answered_facts(row, answers, previous);
            let entry = row.entry;
            &&& facts.pid == entry.pid
            &&& facts.image_name == entry.image_name@
            &&& facts.image_name_lower == entry.image_name_lower@
            &&& facts.session_id == entry.session_id
            &&& facts.cpu == entry.cpu
            &&& facts.cpu_time_100ns == entry.cpu_time_100ns
            &&& facts.display_cpu_time_100ns == entry.display_cpu_time_100ns
            &&& facts.thread_count == entry.thread_count
            &&& answers.memory is None ==> {
                &&& facts.mem_usage_kb == entry.mem_usage_kb
                &&& facts.mem_diff_kb == entry.mem_diff_kb
                &&& facts.page_faults == entry.page_faults
                &&& facts.page_faults_diff == entry.page_faults_diff
                &&& facts.commit_charge_kb == entry.commit_charge_kb
                &&& facts.paged_pool_kb == entry.paged_pool_kb
                &&& facts.nonpaged_pool_kb == entry.nonpaged_pool_kb
            }
            &&& answers.handle_count matches Some(count) ==> facts.handle_count == count
            &&& answers.handle_count is None ==> facts.handle_count == entry.handle_count
            &&& answers.priority_class != 0 ==> facts.priority_class == answers.priority_class
            &&& answers.priority_class == 0 ==> facts.priority_class == entry.priority_class
            &&& !row.needs_account || answers.account_name is None ==> facts.user_name
                == entry.user_name@ && facts.user_name_lower == entry.user_name_lower@
            &&& row.needs_account ==> (answers.account_name matches Some(name) ==> facts.user_name
                == name@ && facts.user_name_lower == lowercase(name@))
            &&& !row.needs_bitness ==> facts.is_32_bit == entry.is_32_bit
            &&& row.needs_bitness ==> (facts.is_32_bit is Some <==> answers.bitness is Ok)
            &&& row.needs_bitness ==> (answers.bitness matches Ok(is_32_bit) ==> facts.is_32_bit
                == Some(is_32_bit))
            &&& bitness_error(row, answers) is Some <==> row.needs_bitness && answers.bitness is Err
        }),
{
}

/// A row of the session service only adds what is not known yet, and only if it is for the same
/// image and does not contradict the session.
pub proof fn session_service_only_adds(facts: ProcFacts, identity: WtsIdentityView)
    ensures
        ({
            let merged = merged_facts(facts, Some(identity));
            let fits = identity.image_name_lower == facts.image_name_lower && (
            facts.session_id is None || facts.session_id == Some(identity.session_id));
            let named = identity.user_name is Some && identity.user_name->0.len() > 0;
            &&& merged_facts(facts, None) == facts
            &&& !fits ==> merged == facts && !resolves_user(facts, Some(identity))
            &&& fits ==> merged.session_id == Some(identity.session_id)
            &&& facts.user_name.len() > 0 || !named ==> merged.user_name == facts.user_name
                && merged.user_name_lower == facts.user_name_lower
            &&& fits && facts.user_name.len() == 0 && named ==> merged.user_name
                == identity.user_name->0 && merged.user_name_lower == lowercase(
                identity.user_name->0,
            )
            &&& resolves_user(facts, Some(identity)) <==> fits && named
            &&& merged == (ProcFacts {
                user_name: merged.user_name,
                user_name_lower: merged.user_name_lower,
                session_id: merged.session_id,
                ..facts
            })
            &&& merged_facts(merged, Some(identity)) == merged
        }),
{
}

/// The idle process is never asked about.
pub proof fn idle_process_stays(facts: ProcFacts, identities: Map<u32, WtsIdentityView>)
    requires
        facts.pid == 0 || !identities.contains_key(facts.pid),
    ensures
        row_after_merge(facts, identities) == facts,
{
}

/// What the session service says of a process is what its last row for it says, and there is
/// something exactly for the processes that were asked for and have a row.
pub proof fn session_answer_is_the_last_row(required: Seq<u32>, rows: Seq<WtsRow>, pid: u32)
    ensures
        ({
            let identities = wts_answer(required, rows).identities;
            &&& identities.contains_key(pid) <==> required.contains(pid) && exists|i: int|
                0 <= i < rows.len() && (#[trigger] rows[i]).pid == pid
            &&& identities.contains_key(pid) ==> exists|i: int|
                0 <= i < rows.len() && (#[trigger] rows[i]).pid == pid && (forall|j: int|
                    i < j < rows.len() ==> (#[trigger] rows[j]).pid != pid) && {
                    let said = identities[pid];
                    &&& said.session_id == rows[i].session_id
                    &&& said.image_name_lower
                        == lowercase(decoded_lossy(up_to_zero(rows[i].image@)))
                    &&& pid == 0 ==> said.user_name == Some("SYSTEM"@)
                    &&& pid != 0 ==> (said.user_name is Some <==> rows[i].account_name matches Ok(
                        Some(_),
                    ))
                    &&& pid != 0 ==> (rows[i].account_name matches Ok(Some(name))
                        ==> said.user_name == Some(name@))
                }
        }),
    decreases rows.len(),
{
    if rows.len() > 0 {
        let front = rows.drop_last();
        let n = rows.len() - 1;
        session_answer_is_the_last_row(required, front, pid);
        assert(rows[n] == rows.last());
        let before = wts_answer(required, front).identities;
        let identities = wts_answer(required, rows).identities;
        if exists|i: int| 0 <= i < front.len() && (#[trigger] front[i]).pid == pid {
            let i = choose|i: int| 0 <= i < front.len() && (#[trigger] front[i]).pid == pid;
            assert(rows[i].pid == pid);
        }
        if required.contains(pid) && exists|i: int|
            0 <= i < rows.len() && (#[trigger] rows[i]).pid == pid {
            let i = choose|i: int| 0 <= i < rows.len() && (#[trigger] rows[i]).pid == pid;
            if i < n {
                assert(front[i].pid == pid);
            }
        }
        if identities.contains_key(pid) && rows[n].pid != pid {
            let i = choose|i: int|
                0 <= i < front.len() && (#[trigger] front[i]).pid == pid && (forall|j: int|
                    i < j < front.len() ==> (#[trigger] front[j]).pid != pid) && {
                    let said = before[pid];
                    &&& said.session_id == front[i].session_id
                    &&& said.image_name_lower == lowercase(
                        decoded_lossy(up_to_zero(front[i].image@)),
                    )
                    &&& pid == 0 ==> said.user_name == Some("SYSTEM"@)
                    &&& pid != 0 ==> (said.user_name is Some <==> front[i].account_name matches Ok(
                        Some(_),
                    ))
                    &&& pid != 0 ==> (front[i].account_name matches Ok(Some(name))
                        ==> said.user_name == Some(name@))
                };
            assert(rows[i].pid == pid);
            assert forall|j: int| i < j < rows.len() implies (#[trigger] rows[j]).pid != pid by {
                if j < n {
                    assert(front[j].pid != pid);
                }
            }
        }
    }
}

/// The error of the session service's answer is that of the first row that was asked for and
/// could not be resolved.
pub proof fn session_error_is_the_first(required: Seq<u32>, rows: Seq<WtsRow>)
    ensures
        match wts_answer(required, rows).row_error {
            None => forall|i: int|
                0 <= i < rows.len() && required.contains((#[trigger] rows[i]).pid) && rows[i].pid
                    != 0 ==> rows[i].account_name is Ok,
            Some(error) => exists|i: int|
                0 <= i < rows.len() && required.contains((#[trigger] rows[i]).pid) && rows[i].pid
                    != 0 && rows[i].account_name == Err::<Option<String>, u32>(error)
                        && forall|j: int|
                    0 <= j < i && required.contains((#[trigger] rows[j]).pid) && rows[j].pid != 0
                        ==> rows[j].account_name is Ok,
        },
    decreases rows.len(),
{
    if rows.len() > 0 {
        let front = rows.drop_last();
        let n = rows.len() - 1;
        session_error_is_the_first(required, front);
        assert(rows[n] == rows.last());
        match wts_answer(required, front).row_error {
            None => {
                assert forall|i: int|
                    0 <= i < n && required.contains((#[trigger] rows[i]).pid) && rows[i].pid
                        != 0 implies rows[i].account_name is Ok by {
                    assert(front[i] == rows[i]);
                }
            },
            Some(error) => {
                let i = choose|i: int|
                    0 <= i < front.len() && required.contains((#[trigger] front[i]).pid)
                        && front[i].pid != 0 && front[i].account_name == Err::<Option<String>, u32>(
                        error,
                    ) && forall|j: int|
                        0 <= j < i && required.contains((#[trigger] front[j]).pid) && front[j].pid
                            != 0 ==> front[j].account_name is Ok;
                assert(rows[i] == front[i]);
                assert forall|j: int|
                    0 <= j < i && required.contains((#[trigger] rows[j]).pid) && rows[j].pid
                        != 0 implies rows[j].account_name is Ok by {
                    assert(front[j] == rows[j]);
                }
            },
        }
    }
}

/// The user of a process is resolved after the session service has answered exactly if it was
/// before or some row of the process was resolved by the answer.
pub proof fn resolved_are_those_answered(
    resolved: Set<ProcIdentity>,
    entries: Seq<ProcEntry>,
    identities: Map<u32, WtsIdentityView>,
    identity: ProcIdentity,
)
    ensures
        resolved_after(resolved, entries, identities).contains(identity) <==> resolved.contains(
            identity,
        ) || exists|i: int|
            0 <= i < entries.len() && (#[trigger] entries[i]).identity == identity
                && identity.creation_time_100ns != 0 && entries[i].pid != 0
                && identities.contains_key(entries[i].pid) && resolves_user(
                entries[i].facts(),
                Some(identities[entries[i].pid]),
            ),
    decreases entries.len(),
{
    if entries.len() > 0 {
        let front = entries.drop_last();
        let n = entries.len() - 1;
        resolved_are_those_answered(resolved, front, identities, identity);
        assert(entries[n] == entries.last());
        if exists|i: int|
            0 <= i < front.len() && (#[trigger] front[i]).identity == identity
                && identity.creation_time_100ns != 0 && front[i].pid != 0
                && identities.contains_key(front[i].pid) && resolves_user(
                front[i].facts(),
                Some(identities[front[i].pid]),
            ) {
            let i = choose|i: int|
                0 <= i < front.len() && (#[trigger] front[i]).identity == identity
                    && identity.creation_time_100ns != 0 && front[i].pid != 0
                    && identities.contains_key(front[i].pid) && resolves_user(
                    front[i].facts(),
                    Some(identities[front[i].pid]),
                );
            assert(entries[i] == front[i]);
        }
        if exists|i: int|
            0 <= i < entries.len() && (#[trigger] entries[i]).identity == identity
                && identity.creation_time_100ns != 0 && entries[i].pid != 0
                && identities.contains_key(entries[i].pid) && resolves_user(
                entries[i].facts(),
                Some(identities[entries[i].pid]),
            ) {
            let i = choose|i: int|
                0 <= i < entries.len() && (#[trigger] entries[i]).identity == identity
                    && identity.creation_time_100ns != 0 && entries[i].pid != 0
                    && identities.contains_key(entries[i].pid) && resolves_user(
                    entries[i].facts(),
                    Some(identities[entries[i].pid]),
                );
            if i < n {
                assert(front[i] == entries[i]);
            }
        }
    }
}

/// What is remembered of a process that has one row: what the row says, where nothing or no user
/// was remembered before and one is known now. The kind of process that was found first stays.
pub proof fn row_is_remembered(
    metadata: Map<ProcIdentity, MetadataView>,
    entries: Seq<ProcEntry>,
    resolved: Set<ProcIdentity>,
    at: int,
)
    requires
        0 <= at < entries.len(),
        entries[at].identity.creation_time_100ns != 0,
        forall|i: int|
            0 <= i < entries.len() && i != at ==> (#[trigger] entries[i]).identity
                != entries[at].identity,
    ensures
        ({
            let entry = entries[at];
            let after = metadata_after(metadata, entries, resolved);
            let known = metadata.contains_key(entry.identity);
            let before = metadata[entry.identity];
            let now = after[entry.identity];
            &&& after.contains_key(entry.identity)
            &&& known && (before.user_identity_resolved || !resolved.contains(entry.identity))
                ==> now == before
            &&& !known || (!before.user_identity_resolved && resolved.contains(entry.identity))
                ==> {
                &&& now.user_name == entry.user_name@
                &&& now.user_name_lower == entry.user_name_lower@
                &&& now.session_id == entry.session_id
                &&& now.user_identity_resolved == resolved.contains(entry.identity)
                &&& now.is_32_bit == if known {
                    before.is_32_bit
                } else {
                    entry.is_32_bit
                }
            }
        }),
{
    let kept = metadata.restrict(verified_identities(entries));
    let identity = entries[at].identity;
    assert(verified_identities(entries).contains(identity)) by {
        assert(entries[at].identity == identity);
    }
    lemma_other_rows_stay(kept, entries.take(at), resolved, identity);
    assert(entries.take(at + 1).drop_last() =~= entries.take(at));
    assert(entries.take(at + 1).last() == entries[at]);
    lemma_later_rows_stay(kept, entries, resolved, identity, at + 1);
}

proof fn lemma_other_rows_stay(
    metadata: Map<ProcIdentity, MetadataView>,
    entries: Seq<ProcEntry>,
    resolved: Set<ProcIdentity>,
    identity: ProcIdentity,
)
    requires
        forall|i: int| 0 <= i < entries.len() ==> (#[trigger] entries[i]).identity != identity,
    ensures
        with_rows(metadata, entries, resolved).contains_key(identity) == metadata.contains_key(
            identity,
        ),
        metadata.contains_key(identity) ==> with_rows(metadata, entries, resolved)[identity]
            == metadata[identity],
    decreases entries.len(),
{
    if entries.len() > 0 {
        let front = entries.drop_last();
        assert forall|i: int| 0 <= i < front.len() implies (#[trigger] front[i]).identity
            != identity by {
            assert(entries[i].identity != identity);
        }
        assert(entries[entries.len() - 1].identity != identity);
        lemma_other_rows_stay(metadata, front, resolved, identity);
    }
}

proof fn lemma_later_rows_stay(
    metadata: Map<ProcIdentity, MetadataView>,
    entries: Seq<ProcEntry>,
    resolved: Set<ProcIdentity>,
    identity: ProcIdentity,
    from: int,
)
    requires
        0 <= from <= entries.len(),
        forall|i: int| from <= i < entries.len() ==> (#[trigger] entries[i]).identity != identity,
    ensures
        ({
            let before = with_rows(metadata, entries.take(from), resolved);
            let after = with_rows(metadata, entries, resolved);
            &&& after.contains_key(identity) == before.contains_key(identity)
            &&& before.contains_key(identity) ==> after[identity] == before[identity]
        }),
    decreases entries.len() - from,
{
    if from == entries.len() {
        assert(entries.take(from) =~= entries);
    } else {
        lemma_later_rows_stay(metadata, entries, resolved, identity, from + 1);
        assert(entries.take(from + 1).drop_last() =~= entries.take(from));
        assert(entries.take(from + 1).last() == entries[from]);
    }
}

} // verus!
