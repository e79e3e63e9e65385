//! One walk over the processes: what is made of each, and what is kept for the next walk.
//!
//! The caller enumerates and queries; every decision on the way, and everything that is computed
//! from the answers, is here.
use vstd::prelude::*;

use super::columns::{no_columns, DirtyColumns};
use super::model::{ProcEntry, ProcFacts, ProcStaticMetadata, NORMAL_PRIORITY_CLASS};
use crate::perf_drawing::{decode_up_to_zero, up_to_zero};
use crate::process_identity::ProcIdentity;
use crate::rect::min_of;
use crate::seqs::{contains_u32, lemma_push_contains};
use crate::table::Table;
use crate::text::{copy_of, lowercase, same_text, to_lowercase};
use crate::utf16::decoded_lossy;
use crate::win32::{
    error_or_gen_failure, ERROR_GEN_FAILURE, ERROR_INSUFFICIENT_BUFFER, ERROR_INVALID_DATA,
    ERROR_NONE_MAPPED,
};

verus! {

/// What the next walk compares with.
#[derive(Clone, Copy, Debug, PartialEq, Eq, Structural)]
pub struct PreviousProcSample {
    pub raw_cpu_time_100ns: u64,
    pub mem_usage_kb: u64,
    pub page_faults: u32,
}

/// The difference of two amounts, as far as it can be represented.
pub open spec fn kb_delta(current: int, previous: int) -> int {
    if current - previous > i64::MAX {
        i64::MAX as int
    } else if current - previous < -i64::MAX {
        -i64::MAX
    } else {
        current - previous
    }
}

pub fn signed_kb_delta(current: u64, previous: u64) -> (delta: i64)
    ensures
        delta == kb_delta(current as int, previous as int),
{
    if current >= previous {
        let difference: u64 = current - previous;
        if difference > i64::MAX as u64 {
            i64::MAX
        } else {
            difference as i64
        }
    } else {
        let difference: u64 = previous - current;
        if difference > i64::MAX as u64 {
            -i64::MAX
        } else {
            -(difference as i64)
        }
    }
}

pub fn kb_from_bytes(value: u64) -> (kilobytes: u64)
    ensures
        kilobytes == value / 1024,
{
    value / 1024
}

/// The time that has passed since the last walk; none where there was none, or where the time
/// went back.
pub fn system_time_delta(current: u64, previous: Option<u64>) -> (delta: Option<u64>)
    ensures
        delta == match previous {
            Some(earlier) if earlier <= current => Some((current - earlier) as u64),
            _ => None,
        },
{
    match previous {
        Some(earlier) => current.checked_sub(earlier),
        None => None,
    }
}

/// The total time of all processors: the time in the kernel and in user mode together. `queried`
/// holds the two of them, where their sums over the processors can be represented.
pub fn current_system_time(queried: Result<Option<(u64, u64)>, u32>) -> (outcome: Result<u64, u32>)
    ensures
        outcome == match queried {
            Err(error) => Err::<u64, u32>(
                if error == 0 {
                    ERROR_GEN_FAILURE
                } else {
                    error
                },
            ),
            Ok(Some((kernel, user))) if kernel + user <= u64::MAX => Ok((kernel + user) as u64),
            Ok(_) => Err(ERROR_INVALID_DATA),
        },
{
    match queried {
        Err(error) => Err(error_or_gen_failure(error)),
        Ok(Some((kernel, user))) => match kernel.checked_add(user) {
            Some(total) => Ok(total),
            None => Err(ERROR_INVALID_DATA),
        },
        Ok(None) => Err(ERROR_INVALID_DATA),
    }
}

/// The share of a process in the processor time in percent, rounded to the nearest number and
/// at most one hundred.
pub open spec fn cpu_percent(delta: int, total: int) -> int {
    if total == 0 {
        0
    } else {
        min_of((delta * 100 + total / 2) / total, 100)
    }
}

pub fn cpu_percent_from_delta(delta_100ns: u64, total_delta_100ns: u64) -> (percent: u8)
    ensures
        percent == cpu_percent(delta_100ns as int, total_delta_100ns as int),
        percent <= 100,
{
    if total_delta_100ns == 0 {
        return 0;
    }
    let rounded: u128 = (delta_100ns as u128 * 100 + total_delta_100ns as u128 / 2)
        / total_delta_100ns as u128;
    if rounded > 100 {
        100
    } else {
        rounded as u8
    }
}

/// A process that takes all of the time has one hundred percent, one that takes none has none,
/// and one that takes more never has less.
pub proof fn cpu_percent_is_monotone(less: int, more: int, total: int)
    requires
        0 <= less <= more,
        total > 0,
    ensures
        0 <= cpu_percent(less, total) <= cpu_percent(more, total) <= 100,
        cpu_percent(0, total) == 0,
        cpu_percent(total, total) == 100,
{
    let half = total / 2;
    assert((0 * 100 + half) / total == 0) by (nonlinear_arith)
        requires
            0 <= half < total,
    ;
    assert((total * 100 + half) / total == 100) by (nonlinear_arith)
        requires
            0 <= half < total,
    ;
    assert(0 <= (less * 100 + half) / total <= (more * 100 + half) / total) by (nonlinear_arith)
        requires
            0 <= less <= more,
            0 <= half,
            total > 0,
    ;
}

/// What the enumeration says of a process.
#[derive(Clone, Debug, PartialEq, Eq)]
pub struct RawProcess {
    pub pid: u32,
    pub thread_count: u32,
    pub image: Vec<u16>,
}

/// Creation time and processor times of a process.
#[derive(Clone, Copy, Debug, PartialEq, Eq, Structural)]
pub struct ProcessTimes {
    pub creation_100ns: u64,
    pub kernel_100ns: u64,
    pub user_100ns: u64,
}

/// Memory counters of a process, in bytes.
#[derive(Clone, Copy, Debug, PartialEq, Eq, Structural)]
pub struct ProcessMemory {
    pub working_set: u64,
    pub page_faults: u32,
    pub private_usage: u64,
    pub paged_pool: u64,
    pub nonpaged_pool: u64,
}

/// What is known of a process before it is opened. The idle process has no token to ask for its
/// account, so its account is fixed.
pub open spec fn enumerated_facts(raw: RawProcess) -> ProcFacts {
    let image_name = decoded_lossy(up_to_zero(raw.image@));
    ProcFacts {
        pid: raw.pid,
        image_name,
        image_name_lower: lowercase(image_name),
        is_32_bit: None,
        user_name: if raw.pid == 0 {
            "SYSTEM"@
        } else {
            Seq::empty()
        },
        user_name_lower: if raw.pid == 0 {
            "system"@
        } else {
            Seq::empty()
        },
        session_id: if raw.pid == 0 {
            Some(0u32)
        } else {
            None
        },
        cpu: 0,
        cpu_time_100ns: 0,
        display_cpu_time_100ns: 0,
        mem_usage_kb: 0,
        mem_diff_kb: 0,
        page_faults: 0,
        page_faults_diff: 0,
        commit_charge_kb: 0,
        paged_pool_kb: 0,
        nonpaged_pool_kb: 0,
        priority_class: NORMAL_PRIORITY_CLASS,
        handle_count: 0,
        thread_count: raw.thread_count,
    }
}

/// A row before it is shown for the first time.
pub open spec fn is_unshown(entry: ProcEntry) -> bool {
    &&& entry.pass_count == 0
    &&& entry.dirty_columns == no_columns()
    &&& forall|i: int| 0 <= i < 16 ==> (#[trigger] entry.display_text@[i])@.len() == 0
}

fn no_texts() -> (texts: [String; 16])
    ensures
        forall|i: int| 0 <= i < 16 ==> (#[trigger] texts@[i])@.len() == 0,
{
    [
        String::new(),
        String::new(),
        String::new(),
        String::new(),
        String::new(),
        String::new(),
        String::new(),
        String::new(),
        String::new(),
        String::new(),
        String::new(),
        String::new(),
        String::new(),
        String::new(),
        String::new(),
        String::new(),
    ]
}

/// The row of a process before it is opened.
pub fn enumerated_entry(raw: &RawProcess) -> (entry: ProcEntry)
    ensures
        entry.identity == (ProcIdentity { pid: raw.pid, creation_time_100ns: 0 }),
        entry.facts() == enumerated_facts(*raw),
        is_unshown(entry),
{
    let image_name = decode_up_to_zero(raw.image.as_slice());
    let image_name_lower = to_lowercase(image_name.as_str());
    let idle = raw.pid == 0;
    let user_name = if idle {
        copy_of("SYSTEM")
    } else {
        String::new()
    };
    let user_name_lower = if idle {
        copy_of("system")
    } else {
        String::new()
    };
    let entry = ProcEntry {
        identity: ProcIdentity::pid_only(raw.pid),
        pid: raw.pid,
        image_name,
        image_name_lower,
        is_32_bit: None,
        user_name,
        user_name_lower,
        session_id: if idle {
            Some(0)
        } else {
            None
        },
        cpu: 0,
        cpu_time_100ns: 0,
        display_cpu_time_100ns: 0,
        mem_usage_kb: 0,
        mem_diff_kb: 0,
        page_faults: 0,
        page_faults_diff: 0,
        commit_charge_kb: 0,
        paged_pool_kb: 0,
        nonpaged_pool_kb: 0,
        priority_class: NORMAL_PRIORITY_CLASS,
        handle_count: 0,
        thread_count: raw.thread_count,
        display_text: no_texts(),
        pass_count: 0,
        dirty_columns: DirtyColumns(0),
    };
    proof {
        let facts = enumerated_facts(*raw);
        assert(entry.facts().user_name =~= facts.user_name);
        assert(entry.facts().user_name_lower =~= facts.user_name_lower);
    }
    entry
}

/// The identity of a process, from its times where these are known.
pub open spec fn identity_of(pid: u32, times: Option<ProcessTimes>) -> ProcIdentity {
    ProcIdentity {
        pid,
        creation_time_100ns: match times {
            Some(times) => times.creation_100ns,
            None => 0,
        },
    }
}

pub open spec fn processor_time(times: Option<ProcessTimes>) -> u64 {
    match times {
        Some(times) => min_of(times.kernel_100ns + times.user_100ns, u64::MAX as int) as u64,
        None => 0,
    }
}

/// The share of the processor time that a process took since the last walk. It is zero where
/// there is nothing to compare with.
pub open spec fn sampled_cpu(
    identity: ProcIdentity,
    times: Option<ProcessTimes>,
    previous: Map<ProcIdentity, PreviousProcSample>,
    total_delta: Option<u64>,
) -> int {
    if times is Some && previous.contains_key(identity) && total_delta is Some
        && previous[identity].raw_cpu_time_100ns <= processor_time(times) {
        cpu_percent(
            processor_time(times) - previous[identity].raw_cpu_time_100ns,
            total_delta->0 as int,
        )
    } else {
        0
    }
}

/// What is known of a process after its times were asked for.
pub open spec fn timed_facts(
    facts: ProcFacts,
    times: Option<ProcessTimes>,
    previous: Map<ProcIdentity, PreviousProcSample>,
    total_delta: Option<u64>,
) -> ProcFacts {
    ProcFacts {
        cpu: sampled_cpu(identity_of(facts.pid, times), times, previous, total_delta) as u8,
        cpu_time_100ns: processor_time(times),
        display_cpu_time_100ns: processor_time(times),
        ..facts
    }
}

/// What is known of a process after earlier walks were taken into account.
pub open spec fn remembered_facts(
    facts: ProcFacts,
    identity: ProcIdentity,
    metadata: Map<ProcIdentity, ProcStaticMetadata>,
) -> ProcFacts {
    if metadata.contains_key(identity) {
        let known = metadata[identity];
        ProcFacts {
            is_32_bit: known.is_32_bit,
            user_name: known.user_name@,
            user_name_lower: known.user_name_lower@,
            session_id: known.session_id,
            ..facts
        }
    } else {
        facts
    }
}

/// A row that was opened and identified, and what is still to be asked of the process.
pub struct OpenedRow {
    pub entry: ProcEntry,
    pub needs_bitness: bool,
    pub needs_account: bool,
}

/// The answers to what was asked of an opened process.
pub struct RowAnswers {
    pub bitness: Result<bool, u32>,
    pub account_name: Option<String>,
    pub memory: Option<ProcessMemory>,
    pub handle_count: Option<u32>,
    pub priority_class: u32,
}

/// What a walk has gathered so far.
pub struct ProcessWalk {
    pub entries: Vec<ProcEntry>,
    pub next_samples: Table<ProcIdentity, PreviousProcSample>,
    pub resolved: Vec<ProcIdentity>,
    pub row_error: Option<u32>,
}

pub open spec fn answered_facts(
    row: OpenedRow,
    answers: RowAnswers,
    previous: Map<ProcIdentity, PreviousProcSample>,
) -> ProcFacts {
    let facts = row.entry.facts();
    let named = if row.needs_account && answers.account_name is Some {
        ProcFacts {
            user_name: answers.account_name->0@,
            user_name_lower: lowercase(answers.account_name->0@),
            ..facts
        }
    } else {
        facts
    };
    let sized = match answers.memory {
        None => named,
        Some(memory) => {
            let known = previous.contains_key(row.entry.identity);
            let earlier = previous[row.entry.identity];
            ProcFacts {
                mem_usage_kb: memory.working_set / 1024,
                page_faults: memory.page_faults,
                commit_charge_kb: memory.private_usage / 1024,
                paged_pool_kb: memory.paged_pool / 1024,
                nonpaged_pool_kb: memory.nonpaged_pool / 1024,
                mem_diff_kb: if known {
                    kb_delta(
                        memory.working_set as int / 1024,
                        earlier.mem_usage_kb as int,
                    ) as i64
                } else {
                    named.mem_diff_kb
                },
                page_faults_diff: if known {
                    (memory.page_faults - earlier.page_faults) as i64
                } else {
                    named.page_faults_diff
                },
                ..named
            }
        },
    };
    ProcFacts {
        is_32_bit: if row.needs_bitness {
            match answers.bitness {
                Ok(is_32_bit) => Some(is_32_bit),
                Err(_) => None,
            }
        } else {
            facts.is_32_bit
        },
        handle_count: match answers.handle_count {
            Some(count) => count,
            None => facts.handle_count,
        },
        priority_class: if answers.priority_class != 0 {
            answers.priority_class
        } else {
            facts.priority_class
        },
        ..sized
    }
}

/// The first error of a walk stays.
pub open spec fn first_error(earlier: Option<u32>, later: Option<u32>) -> Option<u32> {
    if earlier is Some {
        earlier
    } else {
        later
    }
}

pub open spec fn bitness_error(row: OpenedRow, answers: RowAnswers) -> Option<u32> {
    match answers.bitness {
        Err(code) if row.needs_bitness => Some(
            if code == 0 {
                ERROR_GEN_FAILURE
            } else {
                code
            },
        ),
        _ => None,
    }
}

fn contains_identity(list: &Vec<ProcIdentity>, identity: ProcIdentity) -> (found: bool)
    ensures
        found == list@.contains(identity),
{
    for index in 0..list.len()
        invariant
            forall|i: int| 0 <= i < index ==> list@[i] != identity,
    {
        if list[index] == identity {
            return true;
        }
    }
    false
}

/// Adds an identity to a list that may hold it already.
fn add_identity(list: &mut Vec<ProcIdentity>, identity: ProcIdentity)
    ensures
        final(list)@.to_set() == old(list)@.to_set().insert(identity),
{
    let ghost before = list@;
    if contains_identity(list, identity) {
        assert(before.to_set() =~= before.to_set().insert(identity));
    } else {
        list.push(identity);
        proof {
            lemma_push_contains(before, identity);
            assert(list@.to_set() =~= before.to_set().insert(identity));
        }
    }
}

impl ProcessWalk {
    pub open spec fn well_formed(&self) -> bool {
        self.next_samples.well_formed()
    }

    pub fn new() -> (walk: Self)
        ensures
            walk.well_formed(),
            walk.entries@ == Seq::<ProcEntry>::empty(),
            walk.next_samples@ == Map::<ProcIdentity, PreviousProcSample>::empty(),
            walk.resolved@.to_set() == Set::<ProcIdentity>::empty(),
            walk.row_error is None,
    {
        let walk = ProcessWalk {
            entries: Vec::new(),
            next_samples: Table::new(),
            resolved: Vec::new(),
            row_error: None,
        };
        assert(walk.resolved@.to_set() =~= Set::<ProcIdentity>::empty());
        walk
    }

    /// Adds the row of a process that could not be opened.
    pub fn add_unopened(&mut self, raw: &RawProcess)
        requires
            old(self).well_formed(),
        ensures
            final(self).well_formed(),
            final(self).entries@.len() == old(self).entries@.len() + 1,
            final(self).entries@.drop_last() == old(self).entries@,
            ({
                let entry = final(self).entries@.last();
                &&& entry.identity == identity_of(raw.pid, None)
                &&& entry.facts() == enumerated_facts(*raw)
                &&& is_unshown(entry)
            }),
            final(self).next_samples@ == old(self).next_samples@,
            final(self).resolved@ == old(self).resolved@,
            final(self).row_error == old(self).row_error,
    {
        self.entries.push(enumerated_entry(raw));
        assert(self.entries@.drop_last() =~= old(self).entries@);
    }

    /// Starts the row of a process that was opened, from its times. What earlier walks know of
    /// the process is taken over, and only the rest has to be asked.
    pub fn open_row(
        &mut self,
        raw: &RawProcess,
        times: Option<ProcessTimes>,
        previous: &Table<ProcIdentity, PreviousProcSample>,
        metadata: &Table<ProcIdentity, ProcStaticMetadata>,
        total_delta: Option<u64>,
    ) -> (row: OpenedRow)
        requires
            old(self).well_formed(),
            previous.well_formed(),
            metadata.well_formed(),
        ensures
            final(self).well_formed(),
            final(self).entries@ == old(self).entries@,
            final(self).next_samples@ == old(self).next_samples@,
            final(self).row_error == old(self).row_error,
            ({
                let identity = identity_of(raw.pid, times);
                let timed = timed_facts(enumerated_facts(*raw), times, previous@, total_delta);
                let facts = remembered_facts(timed, identity, metadata@);
                let known = metadata@.contains_key(identity)
                    && metadata@[identity].user_identity_resolved;
                &&& row.entry.identity == identity
                &&& row.entry.facts() == facts
                &&& is_unshown(row.entry)
                &&& row.needs_bitness == (identity.verified() && facts.is_32_bit is None)
                &&& final(self).resolved@.to_set() == if known {
                    old(self).resolved@.to_set().insert(identity)
                } else {
                    old(self).resolved@.to_set()
                }
                &&& row.needs_account == (identity.verified()
                    && !final(self).resolved@.to_set().contains(identity))
            }),
    {
        let mut entry = enumerated_entry(raw);
        if let Some(times) = times {
            entry.identity = ProcIdentity::new(raw.pid, times.creation_100ns);
            let cpu_time: u64 = times.kernel_100ns.saturating_add(times.user_100ns);
            entry.cpu_time_100ns = cpu_time;
            entry.display_cpu_time_100ns = cpu_time;
            if let Some(earlier) = previous.get(&entry.identity) {
                if let Some(total) = total_delta {
                    if let Some(delta) = cpu_time.checked_sub(earlier.raw_cpu_time_100ns) {
                        entry.cpu = cpu_percent_from_delta(delta, total);
                    }
                }
            }
        }
        let identity = entry.identity;
        if let Some(known) = metadata.get(&identity) {
            entry.apply_static_metadata(known);
            if known.user_identity_resolved {
                add_identity(&mut self.resolved, identity);
            }
        }
        let verified = identity.is_verified();
        let needs_bitness = verified && entry.is_32_bit.is_none();
        let needs_account = verified && !contains_identity(&self.resolved, identity);
        OpenedRow { entry, needs_bitness, needs_account }
    }

    /// Finishes the row of an opened process with the answers to what was asked.
    pub fn close_row(
        &mut self,
        row: OpenedRow,
        answers: RowAnswers,
        previous: &Table<ProcIdentity, PreviousProcSample>,
    )
        requires
            old(self).well_formed(),
            previous.well_formed(),
        ensures
            final(self).well_formed(),
            final(self).entries@.len() == old(self).entries@.len() + 1,
            final(self).entries@.drop_last() == old(self).entries@,
            ({
                let entry = final(self).entries@.last();
                let identity = row.entry.identity;
                &&& entry.identity == identity
                &&& entry.facts() == answered_facts(row, answers, previous@)
                &&& is_unshown(row.entry) ==> is_unshown(entry)
                &&& final(self).next_samples@ == if identity.verified() {
                    old(self).next_samples@.insert(
                        identity,
                        PreviousProcSample {
                            raw_cpu_time_100ns: row.entry.cpu_time_100ns,
                            mem_usage_kb: entry.mem_usage_kb,
                            page_faults: entry.page_faults,
                        },
                    )
                } else {
                    old(self).next_samples@
                }
                &&& final(self).resolved@.to_set() == if row.needs_account
                    && answers.account_name is Some {
                    old(self).resolved@.to_set().insert(identity)
                } else {
                    old(self).resolved@.to_set()
                }
            }),
            final(self).row_error == first_error(
                old(self).row_error,
                bitness_error(row, answers),
            ),
    {
        let mut entry = row.entry;
        let identity = entry.identity;
        let raw_cpu_time_100ns: u64 = entry.cpu_time_100ns;
        if row.needs_bitness {
            match answers.bitness {
                Ok(is_32_bit) => {
                    entry.is_32_bit = Some(is_32_bit);
                },
                Err(error) => {
                    if self.row_error.is_none() {
                        self.row_error = Some(error_or_gen_failure(error));
                    }
                    entry.is_32_bit = None;
                },
            }
        }
        if row.needs_account {
            if let Some(user_name) = answers.account_name {
                entry.user_name_lower = to_lowercase(user_name.as_str());
                entry.user_name = user_name;
                add_identity(&mut self.resolved, identity);
            }
        }
        if let Some(memory) = answers.memory {
            entry.mem_usage_kb = kb_from_bytes(memory.working_set);
            entry.page_faults = memory.page_faults;
            entry.commit_charge_kb = kb_from_bytes(memory.private_usage);
            entry.paged_pool_kb = kb_from_bytes(memory.paged_pool);
            entry.nonpaged_pool_kb = kb_from_bytes(memory.nonpaged_pool);
            if let Some(earlier) = previous.get(&identity) {
                entry.mem_diff_kb = signed_kb_delta(entry.mem_usage_kb, earlier.mem_usage_kb);
                entry.page_faults_diff = entry.page_faults as i64 - earlier.page_faults as i64;
            }
        }
        if let Some(count) = answers.handle_count {
            entry.handle_count = count;
        }
        if answers.priority_class != 0 {
            entry.priority_class = answers.priority_class;
        }
        if identity.is_verified() {
            self.next_samples.insert(
                identity,
                PreviousProcSample {
                    raw_cpu_time_100ns,
                    mem_usage_kb: entry.mem_usage_kb,
                    page_faults: entry.page_faults,
                },
            );
        }
        self.entries.push(entry);
        assert(self.entries@.drop_last() =~= old(self).entries@);
    }
}

/// What the session service says of a process.
#[derive(Clone, Debug, PartialEq, Eq)]
pub struct WtsProcessIdentity {
    pub user_name: Option<String>,
    pub session_id: u32,
    pub image_name_lower: String,
}

pub struct WtsIdentityView {
    pub user_name: Option<Seq<char>>,
    pub session_id: u32,
    pub image_name_lower: Seq<char>,
}

impl View for WtsProcessIdentity {
    type V = WtsIdentityView;

    open spec fn view(&self) -> WtsIdentityView {
        WtsIdentityView {
            user_name: match self.user_name {
                Some(name) => Some(name@),
                None => None,
            },
            session_id: self.session_id,
            image_name_lower: self.image_name_lower@,
        }
    }
}

/// Whether a row of the session service belongs to a process: the service only knows process
/// identifiers, so the image has to be the same, and the session where it is known.
pub open spec fn wts_matches(
    image_name_lower: Seq<char>,
    session_id: Option<u32>,
    identity: WtsIdentityView,
) -> bool {
    identity.image_name_lower == image_name_lower && (session_id matches Some(session) ==> session
        == identity.session_id)
}

pub fn wts_identity_matches(
    image_name_lower: &str,
    session_id: Option<u32>,
    wts_identity: &WtsProcessIdentity,
) -> (matches: bool)
    ensures
        matches == wts_matches(image_name_lower@, session_id, wts_identity@),
{
    let same_session = match session_id {
        Some(session) => session == wts_identity.session_id,
        None => true,
    };
    same_text(wts_identity.image_name_lower.as_str(), image_name_lower) && same_session
}

/// The user name that a row of the session service gives, if it is not empty.
pub open spec fn wts_name(identity: WtsIdentityView) -> Option<Seq<char>> {
    match identity.user_name {
        Some(name) if name.len() > 0 => Some(name),
        _ => None,
    }
}

/// What is known of a process after a row of the session service was taken into account.
pub open spec fn merged_facts(facts: ProcFacts, identity: Option<WtsIdentityView>) -> ProcFacts {
    match identity {
        Some(found) if wts_matches(facts.image_name_lower, facts.session_id, found) => {
            let named = if facts.user_name.len() == 0 && wts_name(found) is Some {
                ProcFacts {
                    user_name: wts_name(found)->0,
                    user_name_lower: lowercase(wts_name(found)->0),
                    ..facts
                }
            } else {
                facts
            };
            ProcFacts {
                session_id: match facts.session_id {
                    Some(session) => Some(session),
                    None => Some(found.session_id),
                },
                ..named
            }
        },
        _ => facts,
    }
}

/// Whether a row of the session service resolves the user of a process.
pub open spec fn resolves_user(facts: ProcFacts, identity: Option<WtsIdentityView>) -> bool {
    identity matches Some(found) && wts_matches(facts.image_name_lower, facts.session_id, found)
        && wts_name(found) is Some
}

pub open spec fn wts_view(identity: Option<&WtsProcessIdentity>) -> Option<WtsIdentityView> {
    match identity {
        Some(found) => Some(found@),
        None => None,
    }
}

/// Takes a row of the session service over into the row of a process, where it belongs to it.
pub fn merge_wts_process_identity(
    entry: &mut ProcEntry,
    wts_identity: Option<&WtsProcessIdentity>,
) -> (resolved: bool)
    ensures
        resolved == resolves_user(old(entry).facts(), wts_view(wts_identity)),
        final(entry).facts() == merged_facts(old(entry).facts(), wts_view(wts_identity)),
        final(entry).identity == old(entry).identity,
        final(entry).display_text == old(entry).display_text,
        final(entry).pass_count == old(entry).pass_count,
        final(entry).dirty_columns == old(entry).dirty_columns,
{
    let found = match wts_identity {
        Some(found) => found,
        None => return false,
    };
    if !wts_identity_matches(entry.image_name_lower.as_str(), entry.session_id, found) {
        return false;
    }
    let mut resolved = false;
    if let Some(user_name) = &found.user_name {
        if !same_text(user_name.as_str(), "") {
            proof {
                reveal_strlit("");
                assert(user_name@.len() > 0) by {
                    if user_name@.len() == 0 {
                        assert(user_name@ =~= ""@);
                    }
                }
            }
            resolved = true;
            if same_text(entry.user_name.as_str(), "") {
                assert(entry.user_name@.len() == 0);
                entry.user_name = user_name.clone();
                entry.user_name_lower = to_lowercase(user_name.as_str());
            } else {
                assert(entry.user_name@.len() > 0) by {
                    if entry.user_name@.len() == 0 {
                        assert(entry.user_name@ =~= ""@);
                    }
                }
            }
        } else {
            proof {
                reveal_strlit("");
            }
        }
    }
    if entry.session_id.is_none() {
        entry.session_id = Some(found.session_id);
    }
    resolved
}

/// One process of the session service's enumeration, with the answer to the question for its
/// account.
pub struct WtsRow {
    pub pid: u32,
    pub session_id: u32,
    pub image: Vec<u16>,
    pub account_name: Result<Option<String>, u32>,
}

/// What the rows of the session service say of the processes that are asked for.
pub struct WtsAnswer {
    pub identities: Map<u32, WtsIdentityView>,
    pub row_error: Option<u32>,
}

pub open spec fn wts_row_view(row: WtsRow) -> WtsIdentityView {
    WtsIdentityView {
        user_name: if row.pid == 0 {
            Some("SYSTEM"@)
        } else {
            match row.account_name {
                Ok(Some(name)) => Some(name@),
                _ => None,
            }
        },
        session_id: row.session_id,
        image_name_lower: lowercase(decoded_lossy(up_to_zero(row.image@))),
    }
}

pub open spec fn wts_answer(required: Seq<u32>, rows: Seq<WtsRow>) -> WtsAnswer
    decreases rows.len(),
{
    if rows.len() == 0 {
        WtsAnswer { identities: Map::empty(), row_error: None }
    } else {
        let before = wts_answer(required, rows.drop_last());
        let row = rows.last();
        if !required.contains(row.pid) {
            before
        } else {
            WtsAnswer {
                identities: before.identities.insert(row.pid, wts_row_view(row)),
                row_error: match row.account_name {
                    Err(error) if row.pid != 0 => first_error(before.row_error, Some(error)),
                    _ => before.row_error,
                },
            }
        }
    }
}

pub struct WtsProcessIdentitySnapshot {
    pub identities: Table<u32, WtsProcessIdentity>,
    pub row_error: Option<u32>,
}

pub open spec fn wts_views(identities: Map<u32, WtsProcessIdentity>) -> Map<u32, WtsIdentityView> {
    identities.map_values(|identity: WtsProcessIdentity| identity@)
}

/// Gathers what the session service says of the processes that are asked for.
pub fn collect_process_identity_map(required: &Vec<u32>, rows: &Vec<WtsRow>) -> (snapshot:
    WtsProcessIdentitySnapshot)
    ensures
        snapshot.identities.well_formed(),
        wts_views(snapshot.identities@) == wts_answer(required@, rows@).identities,
        snapshot.row_error == wts_answer(required@, rows@).row_error,
{
    let mut identities: Table<u32, WtsProcessIdentity> = Table::new();
    let mut row_error: Option<u32> = None;
    assert(wts_views(identities@) =~= Map::<u32, WtsIdentityView>::empty());
    assert(rows@.take(0) =~= Seq::<WtsRow>::empty());
    for index in 0..rows.len()
        invariant
            identities.well_formed(),
            wts_views(identities@) == wts_answer(required@, rows@.take(index as int)).identities,
            row_error == wts_answer(required@, rows@.take(index as int)).row_error,
    {
        assert(rows@.take(index + 1).drop_last() =~= rows@.take(index as int));
        let row = &rows[index];
        if contains_u32(required, row.pid) {
            let user_name = if row.pid == 0 {
                Some(copy_of("SYSTEM"))
            } else {
                match &row.account_name {
                    Ok(Some(name)) => Some(name.clone()),
                    Ok(None) => None,
                    Err(error) => {
                        if row_error.is_none() {
                            row_error = Some(*error);
                        }
                        None
                    },
                }
            };
            let image_name = decode_up_to_zero(row.image.as_slice());
            let identity = WtsProcessIdentity {
                user_name,
                session_id: row.session_id,
                image_name_lower: to_lowercase(image_name.as_str()),
            };
            let ghost before = identities@;
            identities.insert(row.pid, identity);
            assert(wts_views(identities@) =~= wts_views(before).insert(row.pid, identity@));
        }
    }
    assert(rows@.take(rows@.len() as int) =~= rows@);
    WtsProcessIdentitySnapshot { identities, row_error }
}

/// Whether the session service has to be asked for the user of a row.
pub open spec fn needs_wts(
    entry: ProcEntry,
    metadata: Map<ProcIdentity, ProcStaticMetadata>,
) -> bool {
    entry.pid != 0 && (!entry.identity.verified() || !metadata.contains_key(entry.identity)
        || !metadata[entry.identity].user_identity_resolved)
}

/// The row of the session service for a process, if there is one.
pub open spec fn wts_lookup(identities: Map<u32, WtsIdentityView>, pid: u32) -> Option<
    WtsIdentityView,
> {
    if identities.contains_key(pid) {
        Some(identities[pid])
    } else {
        None
    }
}

/// What is remembered of a process, with texts as characters.
pub struct MetadataView {
    pub is_32_bit: Option<bool>,
    pub user_name: Seq<char>,
    pub user_name_lower: Seq<char>,
    pub session_id: Option<u32>,
    pub user_identity_resolved: bool,
}

impl View for ProcStaticMetadata {
    type V = MetadataView;

    open spec fn view(&self) -> MetadataView {
        MetadataView {
            is_32_bit: self.is_32_bit,
            user_name: self.user_name@,
            user_name_lower: self.user_name_lower@,
            session_id: self.session_id,
            user_identity_resolved: self.user_identity_resolved,
        }
    }
}

pub open spec fn metadata_views(metadata: Map<ProcIdentity, ProcStaticMetadata>) -> Map<
    ProcIdentity,
    MetadataView,
> {
    metadata.map_values(|known: ProcStaticMetadata| known@)
}

/// What is remembered after one more row. A user is remembered once resolved; what was resolved
/// earlier stays.
pub open spec fn with_row(
    metadata: Map<ProcIdentity, MetadataView>,
    entry: ProcEntry,
    resolved: Set<ProcIdentity>,
) -> Map<ProcIdentity, MetadataView> {
    let identity = entry.identity;
    let facts = entry.facts();
    if !identity.verified() {
        metadata
    } else if !metadata.contains_key(identity) {
        metadata.insert(
            identity,
            MetadataView {
                is_32_bit: facts.is_32_bit,
                user_name: facts.user_name,
                user_name_lower: facts.user_name_lower,
                session_id: facts.session_id,
                user_identity_resolved: resolved.contains(identity),
            },
        )
    } else if resolved.contains(identity) && !metadata[identity].user_identity_resolved {
        metadata.insert(
            identity,
            MetadataView {
                is_32_bit: metadata[identity].is_32_bit,
                user_name: facts.user_name,
                user_name_lower: facts.user_name_lower,
                session_id: facts.session_id,
                user_identity_resolved: true,
            },
        )
    } else {
        metadata
    }
}

pub open spec fn with_rows(
    metadata: Map<ProcIdentity, MetadataView>,
    entries: Seq<ProcEntry>,
    resolved: Set<ProcIdentity>,
) -> Map<ProcIdentity, MetadataView>
    decreases entries.len(),
{
    if entries.len() == 0 {
        metadata
    } else {
        with_row(with_rows(metadata, entries.drop_last(), resolved), entries.last(), resolved)
    }
}

/// The processes of a walk whose identity is verified.
pub open spec fn verified_identities(entries: Seq<ProcEntry>) -> Set<ProcIdentity> {
    Set::new(
        |identity: ProcIdentity|
            identity.verified() && exists|i: int|
                0 <= i < entries.len() && (#[trigger] entries[i]).identity == identity,
    )
}

/// What is remembered after a walk: nothing of processes that are gone. A walk that saw no process
/// at all changes nothing.
pub open spec fn metadata_after(
    metadata: Map<ProcIdentity, MetadataView>,
    entries: Seq<ProcEntry>,
    resolved: Set<ProcIdentity>,
) -> Map<ProcIdentity, MetadataView> {
    if entries.len() == 0 {
        metadata
    } else {
        with_rows(metadata.restrict(verified_identities(entries)), entries, resolved)
    }
}

/// The walk after the session service has answered: whether each row is what it was merged
/// into, and who is resolved.
pub open spec fn resolved_after(
    resolved: Set<ProcIdentity>,
    entries: Seq<ProcEntry>,
    identities: Map<u32, WtsIdentityView>,
) -> Set<ProcIdentity>
    decreases entries.len(),
{
    if entries.len() == 0 {
        resolved
    } else {
        let before = resolved_after(resolved, entries.drop_last(), identities);
        let entry = entries.last();
        if entry.pid != 0 && entry.identity.verified() && resolves_user(
            entry.facts(),
            wts_lookup(identities, entry.pid),
        ) {
            before.insert(entry.identity)
        } else {
            before
        }
    }
}

pub open spec fn row_after_merge(
    facts: ProcFacts,
    identities: Map<u32, WtsIdentityView>,
) -> ProcFacts {
    if facts.pid == 0 {
        facts
    } else {
        merged_facts(facts, wts_lookup(identities, facts.pid))
    }
}

impl ProcessWalk {
    /// The processes that the session service has to be asked for.
    pub fn required_identity_pids(
        &self,
        metadata: &Table<ProcIdentity, ProcStaticMetadata>,
    ) -> (pids: Vec<u32>)
        requires
            metadata.well_formed(),
        ensures
            pids@.no_duplicates(),
            forall|pid: u32| #[trigger]
                pids@.contains(pid) <==> exists|i: int|
                    0 <= i < self.entries@.len() && (#[trigger] self.entries@[i]).pid == pid
                        && needs_wts(self.entries@[i], metadata@),
    {
        let mut pids: Vec<u32> = Vec::new();
        for index in 0..self.entries.len()
            invariant
                metadata.well_formed(),
                pids@.no_duplicates(),
                forall|pid: u32| #[trigger]
                    pids@.contains(pid) <==> exists|i: int|
                        0 <= i < index && (#[trigger] self.entries@[i]).pid == pid && needs_wts(
                            self.entries@[i],
                            metadata@,
                        ),
        {
            let entry = &self.entries[index];
            let ghost before = pids@;
            let resolved = match metadata.get(&entry.identity) {
                Some(known) => known.user_identity_resolved,
                None => false,
            };
            let needed = entry.pid != 0 && (!entry.identity.is_verified() || !resolved);
            assert(needed == needs_wts(self.entries@[index as int], metadata@));
            if needed && !contains_u32(&pids, entry.pid) {
                pids.push(entry.pid);
            }
            proof {
                lemma_push_contains(before, entry.pid);
                assert forall|pid: u32| #[trigger] pids@.contains(pid) <==> exists|i: int|
                    0 <= i < index + 1 && (#[trigger] self.entries@[i]).pid == pid && needs_wts(
                        self.entries@[i],
                        metadata@,
                    ) by {
                    if pids@.contains(pid) {
                        if before.contains(pid) {
                            let i = choose|i: int|
                                0 <= i < index && (#[trigger] self.entries@[i]).pid == pid
                                    && needs_wts(self.entries@[i], metadata@);
                            assert(self.entries@[i].pid == pid);
                        } else {
                            assert(self.entries@[index as int].pid == pid);
                        }
                    }
                    if exists|i: int|
                        0 <= i < index + 1 && (#[trigger] self.entries@[i]).pid == pid && needs_wts(
                            self.entries@[i],
                            metadata@,
                        ) {
                        let i = choose|i: int|
                            0 <= i < index + 1 && (#[trigger] self.entries@[i]).pid == pid
                                && needs_wts(self.entries@[i], metadata@);
                        if i < index {
                            assert(before.contains(pid));
                        }
                    }
                }
            }
        }
        pids
    }

    /// Takes over what the session service has answered.
    pub fn merge_identities(&mut self, snapshot: &WtsProcessIdentitySnapshot)
        requires
            old(self).well_formed(),
            snapshot.identities.well_formed(),
        ensures
            final(self).well_formed(),
            final(self).next_samples@ == old(self).next_samples@,
            final(self).row_error == first_error(old(self).row_error, snapshot.row_error),
            final(self).entries@.len() == old(self).entries@.len(),
            forall|i: int|
                0 <= i < final(self).entries@.len() ==> {
                    let (after, before) = (#[trigger] final(self).entries@[i], old(self).entries@[i]);
                    &&& after.identity == before.identity
                    &&& after.facts() == row_after_merge(
                        before.facts(),
                        wts_views(snapshot.identities@),
                    )
                    &&& is_unshown(before) ==> is_unshown(after)
                },
            final(self).resolved@.to_set() == resolved_after(
                old(self).resolved@.to_set(),
                old(self).entries@,
                wts_views(snapshot.identities@),
            ),
    {
        if self.row_error.is_none() {
            self.row_error = snapshot.row_error;
        }
        let ghost start = self.entries@;
        let ghost identities = wts_views(snapshot.identities@);
        let count: usize = self.entries.len();
        assert(start.take(0) =~= Seq::<ProcEntry>::empty());
        for index in 0..count
            invariant
                count == start.len(),
                self.well_formed(),
                snapshot.identities.well_formed(),
                identities == wts_views(snapshot.identities@),
                start == old(self).entries@,
                self.next_samples@ == old(self).next_samples@,
                self.row_error == first_error(old(self).row_error, snapshot.row_error),
                self.entries@.len() == start.len(),
                forall|i: int| index <= i < start.len() ==> #[trigger] self.entries@[i] == start[i],
                forall|i: int|
                    0 <= i < index ==> {
                        let (after, before) = (#[trigger] self.entries@[i], start[i]);
                        &&& after.identity == before.identity
                        &&& after.facts() == row_after_merge(before.facts(), identities)
                        &&& is_unshown(before) ==> is_unshown(after)
                    },
                self.resolved@.to_set() == resolved_after(
                    old(self).resolved@.to_set(),
                    start.take(index as int),
                    identities,
                ),
        {
            assert(start.take(index + 1).drop_last() =~= start.take(index as int));
            assert(self.entries@[index as int] == start[index as int]);
            if self.entries[index].pid != 0 {
                let pid: u32 = self.entries[index].pid;
                let identity = self.entries[index].identity;
                let found = snapshot.identities.get(&pid);
                assert(wts_view(found) == wts_lookup(identities, pid));
                let resolved = merge_wts_process_identity(&mut self.entries[index], found);
                if resolved && identity.is_verified() {
                    add_identity(&mut self.resolved, identity);
                }
            }
        }
        assert(start.take(start.len() as int) =~= start);
    }

    /// Brings what is remembered of processes up to date at the end of a walk.
    pub fn update_metadata(&self, metadata: &mut Table<ProcIdentity, ProcStaticMetadata>)
        requires
            old(metadata).well_formed(),
        ensures
            final(metadata).well_formed(),
            metadata_views(final(metadata)@) == metadata_after(
                metadata_views(old(metadata)@),
                self.entries@,
                self.resolved@.to_set(),
            ),
    {
        if self.entries.len() == 0 {
            return;
        }
        let mut current: Vec<ProcIdentity> = Vec::new();
        for index in 0..self.entries.len()
            invariant
                forall|identity: ProcIdentity| #[trigger]
                    current@.contains(identity) <==> identity.verified() && exists|i: int|
                        0 <= i < index && (#[trigger] self.entries@[i]).identity == identity,
        {
            let identity = self.entries[index].identity;
            let ghost before = current@;
            if identity.is_verified() {
                current.push(identity);
            }
            proof {
                lemma_push_contains(before, identity);
                assert forall|other: ProcIdentity| #[trigger]
                    current@.contains(other) <==> other.verified() && exists|i: int|
                        0 <= i < index + 1 && (#[trigger] self.entries@[i]).identity == other by {
                    if current@.contains(other) {
                        if other == identity {
                            assert(self.entries@[index as int].identity == other);
                        } else {
                            let i = choose|i: int|
                                0 <= i < index && (#[trigger] self.entries@[i]).identity == other;
                            assert(self.entries@[i].identity == other);
                        }
                    }
                }
            }
        }
        let ghost start = metadata_views(metadata@);
        metadata.retain_listed(&current);
        let ghost resolved = self.resolved@.to_set();
        let ghost kept = start.restrict(verified_identities(self.entries@));
        proof {
            assert(current@.to_set() =~= verified_identities(self.entries@));
            assert(metadata_views(metadata@) =~= kept);
            assert(self.entries@.take(0) =~= Seq::<ProcEntry>::empty());
        }
        for index in 0..self.entries.len()
            invariant
                metadata.well_formed(),
                resolved == self.resolved@.to_set(),
                metadata_views(metadata@) == with_rows(
                    kept,
                    self.entries@.take(index as int),
                    resolved,
                ),
        {
            assert(self.entries@.take(index + 1).drop_last() =~= self.entries@.take(index as int));
            let entry = &self.entries[index];
            let ghost before = metadata_views(metadata@);
            if entry.identity.is_verified() {
                let is_resolved = contains_identity(&self.resolved, entry.identity);
                let (is_32_bit, replace) = match metadata.get(&entry.identity) {
                    Some(known) => (known.is_32_bit, is_resolved && !known.user_identity_resolved),
                    None => (entry.is_32_bit, true),
                };
                if replace {
                    let fresh = ProcStaticMetadata {
                        is_32_bit,
                        user_name: entry.user_name.clone(),
                        user_name_lower: entry.user_name_lower.clone(),
                        session_id: entry.session_id,
                        user_identity_resolved: is_resolved,
                    };
                    metadata.insert(entry.identity, fresh);
                    assert(metadata_views(metadata@) =~= before.insert(entry.identity, fresh@));
                }
            }
        }
        assert(self.entries@.take(self.entries@.len() as int) =~= self.entries@);
    }
}

/// What a successful walk leaves for the page.
pub struct ProcWorkerSnapshot {
    pub entries: Vec<ProcEntry>,
    pub row_error: Option<u32>,
}

/// What is kept from one walk to the next.
pub struct ProcWorkerState {
    pub metadata: Table<ProcIdentity, ProcStaticMetadata>,
    pub previous_samples: Table<ProcIdentity, PreviousProcSample>,
    pub previous_system_time: Option<u64>,
}

impl ProcWorkerState {
    pub open spec fn well_formed(&self) -> bool {
        self.metadata.well_formed() && self.previous_samples.well_formed()
    }

    pub fn new() -> (state: Self)
        ensures
            state.well_formed(),
            state.metadata@ == Map::<ProcIdentity, ProcStaticMetadata>::empty(),
            state.previous_samples@ == Map::<ProcIdentity, PreviousProcSample>::empty(),
            state.previous_system_time is None,
    {
        ProcWorkerState {
            metadata: Table::new(),
            previous_samples: Table::new(),
            previous_system_time: None,
        }
    }

    /// The time since the last successful walk.
    pub fn total_delta(&self, system_time: u64) -> (delta: Option<u64>)
        ensures
            delta == match self.previous_system_time {
                Some(earlier) if earlier <= system_time => Some((system_time - earlier) as u64),
                _ => None,
            },
    {
        system_time_delta(system_time, self.previous_system_time)
    }

    /// Ends a walk. The times of the system and of the processes become the baseline of the next
    /// walk together, and only when the whole walk has succeeded.
    pub fn commit(&mut self, system_time: u64, walk: ProcessWalk) -> (snapshot: ProcWorkerSnapshot)
        requires
            old(self).well_formed(),
            walk.well_formed(),
        ensures
            final(self).well_formed(),
            final(self).previous_samples@ == walk.next_samples@,
            final(self).previous_system_time == Some(system_time),
            metadata_views(final(self).metadata@) == metadata_after(
                metadata_views(old(self).metadata@),
                walk.entries@,
                walk.resolved@.to_set(),
            ),
            snapshot.entries == walk.entries,
            snapshot.row_error == walk.row_error,
    {
        walk.update_metadata(&mut self.metadata);
        self.previous_samples = walk.next_samples;
        self.previous_system_time = Some(system_time);
        ProcWorkerSnapshot { entries: walk.entries, row_error: walk.row_error }
    }
}

/// Nothing is remembered of a process that a walk over some processes has not seen, and something
/// is of every one whose identity it has verified.
pub proof fn remembered_processes_are_those_seen(
    metadata: Map<ProcIdentity, MetadataView>,
    entries: Seq<ProcEntry>,
    resolved: Set<ProcIdentity>,
    identity: ProcIdentity,
)
    requires
        entries.len() > 0,
    ensures
        metadata_after(metadata, entries, resolved).contains_key(identity)
            <==> verified_identities(entries).contains(identity),
{
    lemma_rows_domain(
        metadata.restrict(verified_identities(entries)),
        entries,
        resolved,
        identity,
    );
}

proof fn lemma_rows_domain(
    metadata: Map<ProcIdentity, MetadataView>,
    entries: Seq<ProcEntry>,
    resolved: Set<ProcIdentity>,
    identity: ProcIdentity,
)
    ensures
        with_rows(metadata, entries, resolved).contains_key(identity) <==> metadata.contains_key(
            identity,
        ) || verified_identities(entries).contains(identity),
    decreases entries.len(),
{
    if entries.len() > 0 {
        let shorter = entries.drop_last();
        lemma_rows_domain(metadata, shorter, resolved, identity);
        if verified_identities(shorter).contains(identity) {
            let i = choose|i: int|
                0 <= i < shorter.len() && (#[trigger] shorter[i]).identity == identity;
            assert(entries[i].identity == identity);
        }
        if entries.last().identity == identity {
            assert(entries[entries.len() - 1].identity == identity);
        }
        if verified_identities(entries).contains(identity) {
            let i = choose|i: int|
                0 <= i < entries.len() && (#[trigger] entries[i]).identity == identity;
            if i < entries.len() - 1 {
                assert(shorter[i].identity == identity);
            }
        }
    }
}

/// A user that was resolved stays as it was, as long as the process runs.
pub proof fn resolved_users_stay(
    metadata: Map<ProcIdentity, MetadataView>,
    entries: Seq<ProcEntry>,
    resolved: Set<ProcIdentity>,
    identity: ProcIdentity,
)
    requires
        metadata.contains_key(identity),
        metadata[identity].user_identity_resolved,
        verified_identities(entries).contains(identity),
    ensures
        metadata_after(metadata, entries, resolved)[identity] == metadata[identity],
{
    lemma_rows_keep(
        metadata.restrict(verified_identities(entries)),
        entries,
        resolved,
        identity,
    );
}

proof fn lemma_rows_keep(
    metadata: Map<ProcIdentity, MetadataView>,
    entries: Seq<ProcEntry>,
    resolved: Set<ProcIdentity>,
    identity: ProcIdentity,
)
    requires
        metadata.contains_key(identity),
        metadata[identity].user_identity_resolved,
    ensures
        with_rows(metadata, entries, resolved).contains_key(identity),
        with_rows(metadata, entries, resolved)[identity] == metadata[identity],
    decreases entries.len(),
{
    if entries.len() > 0 {
        lemma_rows_keep(metadata, entries.drop_last(), resolved, identity);
    }
}

/// The name of a service account, by the well-known identifiers that its identifier equals.
pub fn well_known_service_name(
    is_local_system: bool,
    is_local_service: bool,
    is_network_service: bool,
) -> (name: Option<String>)
    ensures
        match name {
            Some(name) => name@ == if is_local_system {
                "SYSTEM"@
            } else if is_local_service {
                "LOCAL SERVICE"@
            } else {
                "NETWORK SERVICE"@
            },
            None => true,
        },
        name is Some <==> is_local_system || is_local_service || is_network_service,
{
    if is_local_system {
        Some(copy_of("SYSTEM"))
    } else if is_local_service {
        Some(copy_of("LOCAL SERVICE"))
    } else if is_network_service {
        Some(copy_of("NETWORK SERVICE"))
    } else {
        None
    }
}

/// What to do after an account was looked up.
#[derive(Clone, Copy, Debug, PartialEq, Eq, Structural)]
pub enum AccountStep {
    /// Go on with what was delivered.
    Proceed,
    /// There is no account; show the identifier itself.
    ShowIdentifier,
    Fail(u32),
}

/// Decides on the answer to the question for the size of an account name.
pub fn account_size_step(succeeded: bool, error: u32, name_len: u32) -> (step: AccountStep)
    ensures
        step == if !succeeded && error == ERROR_NONE_MAPPED {
            AccountStep::ShowIdentifier
        } else if !succeeded && error != ERROR_INSUFFICIENT_BUFFER {
            AccountStep::Fail(
                if error == 0 {
                    ERROR_GEN_FAILURE
                } else {
                    error
                },
            )
        } else if name_len == 0 {
            AccountStep::Fail(ERROR_INVALID_DATA)
        } else {
            AccountStep::Proceed
        },
{
    if !succeeded {
        if error == ERROR_NONE_MAPPED {
            return AccountStep::ShowIdentifier;
        }
        if error != ERROR_INSUFFICIENT_BUFFER {
            return AccountStep::Fail(error_or_gen_failure(error));
        }
    }
    if name_len == 0 {
        AccountStep::Fail(ERROR_INVALID_DATA)
    } else {
        AccountStep::Proceed
    }
}

/// Decides on the answer to the question for an account name.
pub fn account_name_step(succeeded: bool, error: u32) -> (step: AccountStep)
    ensures
        step == if succeeded {
            AccountStep::Proceed
        } else if error == ERROR_NONE_MAPPED {
            AccountStep::ShowIdentifier
        } else {
            AccountStep::Fail(
                if error == 0 {
                    ERROR_GEN_FAILURE
                } else {
                    error
                },
            )
        },
{
    if succeeded {
        AccountStep::Proceed
    } else if error == ERROR_NONE_MAPPED {
        AccountStep::ShowIdentifier
    } else {
        AccountStep::Fail(error_or_gen_failure(error))
    }
}

/// The name that was delivered: the units that are said to be its own, up to a zero.
pub fn delivered_account_name(units: &Vec<u16>, name_len: u32) -> (name: String)
    ensures
        name@ == decoded_lossy(
            up_to_zero(units@.take(min_of(name_len as int, units@.len() as int))),
        ),
{
    let available: usize = if (name_len as usize) < units.len() {
        name_len as usize
    } else {
        units.len()
    };
    let own = vstd::slice::slice_subrange(units.as_slice(), 0, available);
    assert(own@ =~= units@.take(available as int));
    decode_up_to_zero(own)
}

/// The size of the structure that names the user of a token.
pub const TOKEN_USER_SIZE: u32 = 16;

/// Decides on the answer to the question for the size of the user of a token: how many bytes to
/// hand over, in whole words.
pub fn token_user_bytes(succeeded: bool, error: u32, required_bytes: u32) -> (outcome: Result<
    u32,
    u32,
>)
    ensures
        if succeeded {
            outcome == Err::<u32, u32>(ERROR_INVALID_DATA)
        } else if error != ERROR_INSUFFICIENT_BUFFER || required_bytes < TOKEN_USER_SIZE {
            outcome == Err::<u32, u32>(
                if error == 0 {
                    ERROR_INVALID_DATA
                } else {
                    error
                },
            )
        } else if required_bytes > 0xFFFF_FFF8 {
            outcome == Err::<u32, u32>(ERROR_INVALID_DATA)
        } else {
            outcome matches Ok(bytes) && bytes % 8 == 0 && required_bytes <= bytes
                < required_bytes + 8
        },
{
    if succeeded {
        return Err(ERROR_INVALID_DATA);
    }
    if error != ERROR_INSUFFICIENT_BUFFER || required_bytes < TOKEN_USER_SIZE {
        return Err(
            if error == 0 {
                ERROR_INVALID_DATA
            } else {
                error
            },
        );
    }
    if required_bytes > 0xFFFF_FFF8 {
        return Err(ERROR_INVALID_DATA);
    }
    Ok((required_bytes + 7) / 8 * 8)
}

/// Decides whether the user of a token that was delivered may be read.
pub fn check_token_user(
    succeeded: bool,
    error: u32,
    returned_bytes: u32,
    storage_bytes: u32,
) -> (outcome: Result<(), u32>)
    ensures
        outcome == if !succeeded {
            Err::<(), u32>(
                if error == 0 {
                    ERROR_GEN_FAILURE
                } else {
                    error
                },
            )
        } else if returned_bytes < TOKEN_USER_SIZE || returned_bytes > storage_bytes {
            Err(ERROR_INVALID_DATA)
        } else {
            Ok(())
        },
{
    if !succeeded {
        return Err(error_or_gen_failure(error));
    }
    if returned_bytes < TOKEN_USER_SIZE || returned_bytes > storage_bytes {
        return Err(ERROR_INVALID_DATA);
    }
    Ok(())
}

/// What to do after the walk was asked for a process.
#[derive(Clone, Copy, Debug, PartialEq, Eq, Structural)]
pub enum WalkStep {
    Visit,
    Finish,
    Fail(u32),
}

/// Decides on the answer to the question for the first or the next process.
pub fn walk_step(succeeded: bool, error: u32) -> (step: WalkStep)
    ensures
        step == if succeeded {
            WalkStep::Visit
        } else if error == crate::win32::ERROR_NO_MORE_FILES {
            WalkStep::Finish
        } else {
            WalkStep::Fail(
                if error == 0 {
                    ERROR_GEN_FAILURE
                } else {
                    error
                },
            )
        },
{
    if succeeded {
        WalkStep::Visit
    } else if error == crate::win32::ERROR_NO_MORE_FILES {
        WalkStep::Finish
    } else {
        WalkStep::Fail(error_or_gen_failure(error))
    }
}

} // verus!
