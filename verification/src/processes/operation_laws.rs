//! What the operations of the process page do, told from what they are given and what they leave.
use vstd::prelude::*;

use super::accounts::{
    account_index, remembered_name_is_found, AccountNameCache, AccountView,
};
use super::affinity::{
    cpu_mask, moved_ids, process_threads, AffinityChoice, SnapshotThread, ThreadAssignment,
    MAX_AFFINITY_CPU,
};
use super::affinity_laws::selected_processors_are_the_checked_ones;
use super::columns::{ColumnId, DirtyColumns};
use super::list_laws::first_row_is_found;
use super::model::{refreshed, update_process_entry, ProcEntry, ProcStaticMetadata};
use super::page::{FindOutcome, ListUpdate, ProcessPageState, RefreshRecord};
use super::row_laws::{agree_in, changed_columns_show_something_else};
use super::sampler::{
    OpenedRow, PreviousProcSample, ProcWorkerSnapshot, ProcWorkerState, ProcessMemory,
    ProcessTimes, ProcessWalk, RawProcess, RowAnswers,
};
use super::sampler_laws::{
    answers_change_only_their_own, is_in_kilobytes, memory_amounts_stand_in_the_row,
    opened_facts, processor_share_is_the_nearest_percentage,
};
use super::sort::sort_entries;
use super::sort_laws::{does_not_decrease, sorted_column_is_monotone};
use super::tree::{
    children_of, prepare_process_tree_termination, ProcessTreePrepareError, SnapshotProcess,
    TreeStep, TreeWalk,
};
use super::tree_laws::{children_are_the_entries_below, every_opened_process_is_ended, is_opened};
use crate::options::{Options, UPDATE_SPEED_PAUSED};
use crate::process_identity::ProcIdentity;
use crate::table::Table;
use crate::win32::ERROR_INVALID_HANDLE;

verus! {

/// A row that is opened shows the time that the process spent in the kernel and in user mode
/// together, and as its share the percentage nearest to what it spent since the last walk of the
/// time that passed.
pub proof fn opened_rows_count_kernel_and_user_time(
    walk: &mut ProcessWalk,
    raw: RawProcess,
    times: ProcessTimes,
    previous: Table<ProcIdentity, PreviousProcSample>,
    metadata: Table<ProcIdentity, ProcStaticMetadata>,
    total: u64,
    row: OpenedRow,
)
    requires
        times.kernel_100ns + times.user_100ns <= u64::MAX,
        total > 0,
        call_ensures(
            ProcessWalk::open_row,
            (walk, &raw, Some(times), &previous, &metadata, Some(total)),
            row,
        ),
    ensures
        row.entry.cpu_time_100ns == times.kernel_100ns + times.user_100ns,
        row.entry.display_cpu_time_100ns == row.entry.cpu_time_100ns,
        row.entry.identity.pid == raw.pid,
        row.entry.identity.creation_time_100ns == times.creation_100ns,
        row.entry.pid == raw.pid,
        row.entry.thread_count == raw.thread_count,
        !previous@.contains_key(row.entry.identity) ==> row.entry.cpu == 0,
        previous@.contains_key(row.entry.identity) ==> {
            let spent = times.kernel_100ns + times.user_100ns
                - previous@[row.entry.identity].raw_cpu_time_100ns;
            let share = row.entry.cpu as int;
            &&& spent < 0 ==> share == 0
            &&& spent >= total ==> share == 100
            &&& 0 <= spent <= total ==> 2 * (share * total) <= 200 * spent + total && 200 * spent
                < 2 * (share * total) + total
        },
        final(walk).entries@ == old(walk).entries@,
{
    processor_share_is_the_nearest_percentage(raw, times, previous@, metadata@, Some(total));
    let facts = opened_facts(raw, Some(times), previous@, metadata@, Some(total));
    assert(row.entry.facts() == facts);
    assert(row.entry.facts().cpu == row.entry.cpu);
}

/// A row that is finished is added behind the others with what was answered, and what it shows of
/// time, memory and page faults is what the next walk compares with.
pub proof fn finished_rows_are_kept_for_the_next_walk(
    walk: &mut ProcessWalk,
    row: OpenedRow,
    answers: RowAnswers,
    previous: Table<ProcIdentity, PreviousProcSample>,
    memory: ProcessMemory,
)
    requires
        answers.memory == Some(memory),
        row.entry.identity.creation_time_100ns != 0,
        call_ensures(ProcessWalk::close_row, (walk, row, answers, &previous), ()),
    ensures
        ({
            let entry = final(walk).entries@.last();
            let kept = final(walk).next_samples@;
            &&& final(walk).entries@.len() == old(walk).entries@.len() + 1
            &&& entry.identity == row.entry.identity
            &&& entry.cpu == row.entry.cpu
            &&& entry.cpu_time_100ns == row.entry.cpu_time_100ns
            &&& is_in_kilobytes(entry.mem_usage_kb, memory.working_set)
            &&& is_in_kilobytes(entry.commit_charge_kb, memory.private_usage)
            &&& is_in_kilobytes(entry.paged_pool_kb, memory.paged_pool)
            &&& is_in_kilobytes(entry.nonpaged_pool_kb, memory.nonpaged_pool)
            &&& entry.page_faults == memory.page_faults
            &&& previous@.contains_key(entry.identity) ==> previous@[entry.identity].page_faults
                + entry.page_faults_diff == entry.page_faults
            &&& answers.handle_count matches Some(count) ==> entry.handle_count == count
            &&& answers.priority_class != 0 ==> entry.priority_class == answers.priority_class
            &&& kept.contains_key(entry.identity)
            &&& kept[entry.identity].raw_cpu_time_100ns == row.entry.cpu_time_100ns
            &&& kept[entry.identity].mem_usage_kb == entry.mem_usage_kb
            &&& kept[entry.identity].page_faults == entry.page_faults
            &&& forall|i: int|
                0 <= i < old(walk).entries@.len() ==> #[trigger] final(walk).entries@[i]
                    == old(walk).entries@[i]
        }),
{
    memory_amounts_stand_in_the_row(row, answers, previous@, memory);
    answers_change_only_their_own(row, answers, previous@);
    let entry = final(walk).entries@.last();
    assert(entry.facts().mem_usage_kb == entry.mem_usage_kb);
    assert forall|i: int| 0 <= i < old(walk).entries@.len()
        implies #[trigger] final(walk).entries@[i] == old(walk).entries@[i] by {
        assert(final(walk).entries@.drop_last()[i] == final(walk).entries@[i]);
    }
}

/// A walk that is committed is what the next one compares with, its time together with its rows;
/// the page gets exactly its rows.
pub proof fn committed_walks_are_the_next_baseline(
    state: &mut ProcWorkerState,
    system_time: u64,
    walk: ProcessWalk,
    snapshot: ProcWorkerSnapshot,
)
    requires
        call_ensures(ProcWorkerState::commit, (state, system_time, walk), snapshot),
    ensures
        snapshot.entries@ == walk.entries@,
        snapshot.row_error == walk.row_error,
        final(state).previous_samples@ == walk.next_samples@,
        final(state).previous_system_time == Some(system_time),
{
}

/// Sorting by a column leaves the rows so that the values of that column do not decrease, or do not
/// increase where the direction is negative, with no row lost and none added.
pub proof fn sorting_orders_the_column(
    entries: &mut Vec<ProcEntry>,
    column: ColumnId,
    direction: i32,
)
    requires
        call_ensures(sort_entries, (entries, column, direction), ()),
    ensures
        final(entries)@.to_multiset() == old(entries)@.to_multiset(),
        forall|i: int, j: int|
            0 <= i < j < final(entries)@.len() ==> if direction < 0 {
                does_not_decrease(
                    #[trigger] final(entries)@[j],
                    #[trigger] final(entries)@[i],
                    column,
                )
            } else {
                does_not_decrease(final(entries)@[i], final(entries)@[j], column)
            },
{
    sorted_column_is_monotone(old(entries)@, column, direction);
}

/// A child that is asked for is entered exactly if it was created between its parent and the
/// snapshot; one that is gone, or was not, is passed over; any other error ends the walk.
pub proof fn children_are_entered_by_their_age(
    walk: &mut TreeWalk,
    time: u64,
    error: u32,
    outcome: Result<(), u32>,
)
    requires
        old(walk).well_formed(),
        old(walk).pending is Some,
        old(walk).frames@.last().parent.creation_time_100ns > 0,
    ensures
        call_ensures(TreeWalk::answer, (walk, Ok::<u64, u32>(time)), outcome) ==> {
            let parent = old(walk).frames@.last().parent;
            let child = old(walk).pending->0;
            let fits = 0 < time && parent.creation_time_100ns <= time
                <= old(walk).snapshot_time_100ns;
            &&& outcome is Ok
            &&& final(walk).pending is None
            &&& fits ==> final(walk).visited@ == old(walk).visited@.push(child)
                && final(walk).frames@.last().parent
                == (ProcIdentity { pid: child, creation_time_100ns: time })
                && final(walk).refused == old(walk).refused
            &&& !fits ==> final(walk).visited == old(walk).visited
                && final(walk).frames == old(walk).frames
                && final(walk).refused@.contains((parent.pid, child))
            &&& final(walk).order == old(walk).order
        },
        call_ensures(TreeWalk::answer, (walk, Err::<u64, u32>(error)), outcome) ==> {
            &&& error == 87 ==> outcome is Ok && final(walk).visited == old(walk).visited
            &&& error != 87 ==> outcome == Err::<(), u32>(error)
        },
{
}

/// The children of a process are looked at one by one, in the order of the snapshot, and none
/// twice; when all were, the process itself comes next in the order.
pub proof fn children_are_looked_at_in_order(walk: &mut TreeWalk, step: TreeStep)
    requires
        old(walk).well_formed(),
        old(walk).pending is None,
        old(walk).frames@.len() > 0,
        call_ensures(TreeWalk::step, (walk,), step),
    ensures
        ({
            let top = old(walk).frames@.last();
            let pid = top.parent.pid;
            let below = old(walk).processes@.filter(
                |process: SnapshotProcess| process.parent_pid == pid,
            );
            if top.next == below.len() {
                &&& step == TreeStep::Continue
                &&& final(walk).order@ == old(walk).order@.push(top.parent)
                &&& final(walk).frames@ == old(walk).frames@.drop_last()
            } else {
                let child = below[top.next as int].pid;
                &&& step == if old(walk).visited@.contains(child) {
                    TreeStep::Continue
                } else {
                    TreeStep::Ask(child)
                }
                &&& final(walk).frames@.last().next == top.next + 1
                &&& final(walk).order == old(walk).order
            }
        }),
{
    let top = old(walk).frames@.last();
    let pid = top.parent.pid;
    let below = old(walk).processes@.filter(
        |process: SnapshotProcess| process.parent_pid == pid,
    );
    children_are_the_entries_below(old(walk).processes@, pid);
    let n = old(walk).frames@.len() - 1;
    assert(old(walk).frames@[n].next <= old(walk).frames@[n].children@.len());
    assert(top.children@ == children_of(old(walk).processes@, pid));
    assert(top.children@.len() == below.len());
    if top.next < below.len() {
        assert(top.children.len() == top.children@.len());
        assert(top.children@[top.next as int] == below[top.next as int].pid);
    }
}

/// What is ended is every process of the order that could be opened, in that order, the root among
/// them; nothing is where one that is still there could not be.
pub proof fn opened_processes_are_ended(
    root: ProcIdentity,
    order: Vec<ProcIdentity>,
    opened: Vec<Result<(), u32>>,
    targets: Vec<usize>,
)
    requires
        order@.len() == opened@.len(),
        call_ensures(
            prepare_process_tree_termination,
            (root, Ok::<(), u32>(()), Ok::<&Vec<ProcIdentity>, u32>(&order), &opened),
            Ok::<Vec<usize>, ProcessTreePrepareError>(targets),
        ),
    ensures
        order@.contains(root),
        forall|t: int|
            0 <= t < targets@.len() ==> (#[trigger] targets@[t]) < order@.len() && (
            order@[targets@[t] as int] == root || opened@[targets@[t] as int] is Ok),
        forall|i: int|
            0 <= i < order@.len() && (order@[i] == root || opened@[i] is Ok)
                ==> targets@.contains(#[trigger] place(i)),
        forall|i: int|
            0 <= i < order@.len() && order@[i] != root && (#[trigger] opened@[i]) is Err
                ==> opened@[i] == Err::<(), u32>(87),
{
    assert(order.len() == order@.len());
    every_opened_process_is_ended(root, order@, opened@);
    assert forall|i: int|
        0 <= i < order@.len() && (order@[i] == root || opened@[i] is Ok) implies targets@.contains(
        #[trigger] place(i),
    ) by {
        assert(is_opened(root, order@, opened@, i));
    }
    assert forall|i: int|
        0 <= i < order@.len() && order@[i] != root && (#[trigger] opened@[i])
            is Err implies opened@[i] == Err::<(), u32>(87) by {
        assert(!is_opened(root, order@, opened@, i));
    }
}

/// A place in the order, as it is told.
pub open spec fn place(i: int) -> usize {
    i as usize
}

/// A row that takes a sample over holds what was sampled, and the columns that count as changed are
/// those that show something else.
pub proof fn updated_rows_hold_the_sample(
    entry: &mut ProcEntry,
    snapshot: ProcEntry,
    pass: u64,
    visible: DirtyColumns,
    changed: DirtyColumns,
)
    requires
        call_ensures(update_process_entry, (entry, &snapshot, pass, visible), changed),
    ensures
        final(entry).identity == old(entry).identity,
        final(entry).pass_count == pass,
        final(entry).pid == snapshot.pid,
        final(entry).image_name@ == snapshot.image_name@,
        final(entry).is_32_bit == snapshot.is_32_bit,
        final(entry).user_name@ == snapshot.user_name@,
        final(entry).session_id == snapshot.session_id,
        final(entry).cpu == snapshot.cpu,
        final(entry).cpu_time_100ns == snapshot.cpu_time_100ns,
        final(entry).display_cpu_time_100ns == snapshot.display_cpu_time_100ns,
        final(entry).mem_usage_kb == snapshot.mem_usage_kb,
        final(entry).mem_diff_kb == snapshot.mem_diff_kb,
        final(entry).page_faults == snapshot.page_faults,
        final(entry).page_faults_diff == snapshot.page_faults_diff,
        final(entry).commit_charge_kb == snapshot.commit_charge_kb,
        final(entry).paged_pool_kb == snapshot.paged_pool_kb,
        final(entry).nonpaged_pool_kb == snapshot.nonpaged_pool_kb,
        final(entry).priority_class == snapshot.priority_class,
        final(entry).handle_count == snapshot.handle_count,
        final(entry).thread_count == snapshot.thread_count,
        forall|column: ColumnId| #[trigger]
            changed.has(column) <==> !agree_in(
                old(entry).facts(),
                snapshot.facts(),
                column,
            ),
{
    let (before, sample) = (old(entry).facts(), snapshot.facts());
    let after = final(entry).facts();
    assert(after == refreshed(before, sample));
    assert(after.pid == final(entry).pid);
    assert forall|column: ColumnId| #[trigger]
        changed.has(column) <==> !agree_in(before, sample, column) by {
        changed_columns_show_something_else(before, sample, column);
    }
}

/// What is found of a process that is looked for is its row, which is selected; a process without
/// one is selected when it appears; and none is looked for whose identity is not known.
pub proof fn looked_for_processes_are_selected(
    page: &mut ProcessPageState,
    identity: ProcIdentity,
    outcome: FindOutcome,
    at: int,
)
    requires
        call_ensures(ProcessPageState::find_process, (page, identity), outcome),
    ensures
        identity.creation_time_100ns == 0 <==> outcome == FindOutcome::Refused,
        identity.creation_time_100ns != 0 && 0 <= at < old(page).entries@.len()
            && old(page).entries@[at].identity == identity
            ==> (outcome matches FindOutcome::Found(index) && index
            <= at && old(page).entries@[index as int].identity == identity
                && final(page).selected_identity == Some(identity)),
        outcome == FindOutcome::Pending ==> final(page).pending_find_identity == Some(identity)
            && final(page).selected_identity == old(page).selected_identity,
        final(page).entries == old(page).entries,
{
    first_row_is_found(old(page).entries@, identity);
    assert(old(page).entries.len() == old(page).entries@.len());
}

/// A refresh that failed leaves the rows as they are, and is put on record if it is a new error.
pub proof fn failed_refreshes_keep_the_rows(
    page: &mut ProcessPageState,
    error: u32,
    selected: Option<ProcIdentity>,
    record: RefreshRecord,
)
    requires
        call_ensures(
            ProcessPageState::apply_worker_completion,
            (page, Err::<ProcWorkerSnapshot, u32>(error), selected),
            record,
        ),
    ensures
        final(page).entries == old(page).entries,
        final(page).selected_identity == old(page).selected_identity,
        final(page).pass_count == old(page).pass_count,
        final(page).last_refresh_error == Some(error),
        !record.rebuild,
        record.refresh_error is Some <==> old(page).last_refresh_error != Some(error),
{
}

/// What is drawn anew reaches from the first to the last row that changed; afterwards nothing has
/// to be drawn, and what is selected is shown where its row is.
pub proof fn changed_rows_are_drawn(
    page: &mut ProcessPageState,
    existing: usize,
    update: ListUpdate,
    i: int,
)
    requires
        call_ensures(ProcessPageState::rebuild_listview, (page, existing), update),
        0 <= i < old(page).entries@.len(),
    ensures
        old(page).entries@[i].dirty_columns.0 != 0 ==> (update.dirty_rows.start matches Some(start)
            && start <= i <= update.dirty_rows.end),
        final(page).entries@.len() == old(page).entries@.len(),
        final(page).entries@[i].dirty_columns.0 == 0,
        final(page).entries@[i].identity == old(page).entries@[i].identity,
        update.structure_changed <==> existing != old(page).entries@.len(),
        update.selected_index matches Some(index) ==> old(page).selected_identity == Some(
            old(page).entries@[index as int].identity,
        ),
{
    if old(page).selected_identity is Some {
        first_row_is_found(old(page).entries@, old(page).selected_identity->0);
    }
}

/// A name that is put into the cache stands in it, as one that was used just now.
pub proof fn remembered_names_count_as_used(
    cache: &mut AccountNameCache,
    sid: Vec<u8>,
    name: String,
)
    requires
        call_ensures(AccountNameCache::insert, (cache, sid, name), ()),
    ensures
        exists|i: int|
            0 <= i < final(cache).accounts().len() && {
                let account = #[trigger] final(cache).accounts()[i];
                &&& account.sid == sid@
                &&& account.name == name@
                &&& account.last_used == old(cache).current()
            },
        final(cache).current() == old(cache).current(),
{
    let account = AccountView {
        sid: sid@,
        name: name@,
        last_used: old(cache).current(),
    };
    remembered_name_is_found(old(cache).accounts(), account);
    let after = final(cache).accounts();
    let index = account_index(after, account.sid)->0;
    lemma_index_range(after, account.sid);
    assert(after[index] == account);
}

proof fn lemma_index_range(accounts: Seq<AccountView>, sid: Seq<u8>)
    ensures
        account_index(accounts, sid) matches Some(index) ==> 0 <= index
            < accounts.len(),
    decreases accounts.len(),
{
    if accounts.len() > 0 {
        lemma_index_range(accounts.drop_last(), sid);
    }
}

/// Threads take the selected groups in turn: one after the other, and from the first again behind
/// the last.
pub proof fn threads_take_the_groups_in_turn(
    assignment: &mut ThreadAssignment,
    process_id: u32,
    target: (u16, usize),
)
    requires
        old(assignment).selected@.len() > 0,
        call_ensures(
            ThreadAssignment::target,
            (assignment, process_id, process_id),
            Ok::<(u16, usize), u32>(target),
        ),
    ensures
        final(assignment).assignment_index == old(assignment).assignment_index + 1,
        old(assignment).assignment_index < old(assignment).selected@.len()
            ==> target == old(assignment).selected@[old(assignment).assignment_index as int],
        old(assignment).assignment_index == old(assignment).selected@.len()
            ==> target == old(assignment).selected@[0],
        old(assignment).selected@.contains(target),
{
    let n = old(assignment).selected@.len() as int;
    let i = old(assignment).assignment_index as int;
    assert(0 <= i % n < n) by (nonlinear_arith)
        requires
            n > 0,
    ;
    if i < n {
        assert(i % n == i) by (nonlinear_arith)
            requires
                0 <= i < n,
        ;
    }
    if i == n {
        assert(i % n == 0) by (nonlinear_arith)
            requires
                i == n,
                n > 0,
        ;
    }
}

/// The boxes that are checked become the selection of the group that is shown, and of no other.
pub proof fn checked_boxes_become_the_selection(
    choice: &mut AffinityChoice,
    checked: Vec<bool>,
    cpu: int,
    other: int,
)
    requires
        old(choice).well_formed(),
        checked@.len() == MAX_AFFINITY_CPU + 1,
        0 <= cpu <= MAX_AFFINITY_CPU,
        cpu < usize::BITS,
        call_ensures(AffinityChoice::save_affinity_group, (choice, &checked), ()),
    ensures
        ({
            let shown = old(choice).selected_group_index as int;
            let assignable = old(choice).groups@[shown].assignable_mask;
            &&& final(choice).selected_masks@[shown] & cpu_mask(cpu) != 0
                <==> checked@[cpu] && assignable & cpu_mask(cpu) != 0
            &&& 0 <= other < old(choice).selected_masks@.len() && other != shown
                ==> final(choice).selected_masks@[other] == old(choice).selected_masks@[other]
        }),
{
    let shown = old(choice).selected_group_index as int;
    selected_processors_are_the_checked_ones(
        checked@,
        old(choice).groups@[shown].assignable_mask,
        cpu,
    );
}

/// A click on another column than the one that is sorted by sorts by it, with the largest on top; a
/// click on the same one turns the order round.
pub proof fn clicked_columns_are_sorted_by(
    page: &mut ProcessPageState,
    sub_item: usize,
    selected: Option<ProcIdentity>,
)
    requires
        sub_item < old(page).active_columns@.len(),
        call_ensures(ProcessPageState::column_clicked, (page, sub_item, selected), ()),
    ensures
        final(page).sort_column == old(page).active_columns@[sub_item as int],
        old(page).sort_column != final(page).sort_column ==> final(page).sort_direction < 0,
        old(page).sort_column == final(page).sort_column
            ==> final(page).sort_direction == -old(page).sort_direction,
        final(page).entries@.to_multiset() == old(page).entries@.to_multiset(),
        forall|i: int, j: int|
            0 <= i < j < final(page).entries@.len() ==> if final(page).sort_direction < 0 {
                does_not_decrease(
                    #[trigger] final(page).entries@[j],
                    #[trigger] final(page).entries@[i],
                    final(page).sort_column,
                )
            } else {
                does_not_decrease(
                    final(page).entries@[i],
                    final(page).entries@[j],
                    final(page).sort_column,
                )
            },
        selected is Some ==> final(page).selected_identity == selected,
        selected is None ==> final(page).selected_identity == old(page).selected_identity,
{
    sorted_column_is_monotone(
        old(page).entries@,
        final(page).sort_column,
        final(page).sort_direction,
    );
}

/// Options that change which columns are shown leave what was sampled of every process as it is;
/// the others leave the rows altogether.
pub proof fn options_leave_the_samples(
    page: &mut ProcessPageState,
    options: Options,
    processor_count: usize,
    columns_changed: bool,
    i: int,
)
    requires
        call_ensures(
            ProcessPageState::apply_options,
            (page, &options, processor_count),
            columns_changed,
        ),
        0 <= i < old(page).entries@.len(),
    ensures
        final(page).entries@.len() == old(page).entries@.len(),
        final(page).entries@[i].identity == old(page).entries@[i].identity,
        final(page).entries@[i].cpu == old(page).entries@[i].cpu,
        final(page).entries@[i].mem_usage_kb == old(page).entries@[i].mem_usage_kb,
        !columns_changed ==> final(page).entries@ == old(page).entries@
            && final(page).active_columns@ == old(page).active_columns@,
        final(page).confirmations == options.confirm_actions,
        final(page).no_title == options.hide_title,
        processor_count > 0 ==> final(page).processor_count == processor_count,
        final(page).selected_identity == old(page).selected_identity,
        final(page).sort_column == old(page).sort_column,
{
    if columns_changed {
        assert(final(page).entries@[i].same_sample(&old(page).entries@[i]));
    }
}

/// At every speed but the paused one there is a refresh, and where the user asks for one.
pub proof fn paused_page_is_refreshed_on_demand(
    page: &mut ProcessPageState,
    options: Options,
    force: bool,
    refresh: bool,
)
    requires
        call_ensures(ProcessPageState::timer_event, (page, &options, force), refresh),
    ensures
        force ==> refresh,
        !force ==> (refresh <==> !final(page).paused),
        final(page).paused <==> options.update_speed == UPDATE_SPEED_PAUSED,
        final(page).entries == old(page).entries,
{
}

/// Where a thread ran before it was moved is kept, so that it can be moved back; one that has ended
/// is passed over, and any other failure is told.
pub proof fn moved_threads_are_remembered(
    assignment: &mut ThreadAssignment,
    thread_id: u32,
    previous: (u16, usize),
    error: u32,
    outcome: Result<(), u32>,
)
    ensures
        call_ensures(
            ThreadAssignment::record,
            (assignment, thread_id, Ok::<(u16, usize), u32>(previous)),
            outcome,
        ) ==> outcome is Ok && final(assignment).changed@.len() == old(assignment).changed@.len()
            + 1 && final(assignment).changed@.last().thread_id == thread_id
                && final(assignment).changed@.last().previous == previous,
        call_ensures(
            ThreadAssignment::record,
            (assignment, thread_id, Err::<(u16, usize), u32>(error)),
            outcome,
        ) ==> final(assignment).changed@ == old(assignment).changed@ && (outcome is Ok <==> error
            == ERROR_INVALID_HANDLE) && (outcome matches Err(told) ==> told == error),
{
}

/// Of the threads that are there after the moves, those are looked at that were not moved.
pub proof fn other_threads_are_looked_at(
    assignment: ThreadAssignment,
    thread_id: u32,
    needed: bool,
    i: int,
)
    requires
        call_ensures(ThreadAssignment::needs_check, (&assignment, thread_id), needed),
    ensures
        0 <= i < assignment.changed@.len() && assignment.changed@[i].thread_id == thread_id
            ==> !needed,
        !needed ==> exists|k: int|
            0 <= k < assignment.changed@.len() && (#[trigger] assignment.changed@[k]).thread_id
                == thread_id,
{
    let ids = moved_ids(assignment.changed@);
    if 0 <= i < assignment.changed@.len() {
        assert(ids[i] == assignment.changed@[i].thread_id);
    }
    if !needed {
        let k = choose|k: int| 0 <= k < ids.len() && ids[k] == thread_id;
        assert(assignment.changed@[k].thread_id == thread_id);
    }
}

/// The threads of a process are those that it owns: all of them, each once, and no thread of
/// another process.
pub proof fn owned_threads_are_listed(
    threads: Vec<SnapshotThread>,
    process_id: u32,
    ids: Vec<u32>,
    at: int,
    i: int,
    j: int,
)
    requires
        call_ensures(process_threads, (&threads, process_id), ids),
        0 <= at < threads@.len(),
    ensures
        threads@[at].owner_id == process_id ==> ids@.contains(threads@[at].thread_id),
        0 <= i < ids@.len() ==> exists|k: int|
            0 <= k < threads@.len() && (#[trigger] threads@[k]).thread_id == ids@[i]
                && threads@[k].owner_id == process_id,
        0 <= i < j < ids@.len() ==> ids@[i] < ids@[j],
{
    let thread = threads@[at];
    assert(threads@.contains(thread));
    if thread.owner_id == process_id {
        assert(thread == SnapshotThread { thread_id: thread.thread_id, owner_id: process_id });
    }
    if 0 <= i < ids@.len() {
        let own = SnapshotThread { thread_id: ids@[i], owner_id: process_id };
        assert(ids@.contains(ids@[i]));
        let k = choose|k: int| 0 <= k < threads@.len() && threads@[k] == own;
        assert(threads@[k].thread_id == ids@[i]);
    }
}

} // verus!
