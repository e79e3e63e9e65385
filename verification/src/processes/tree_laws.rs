//! What holds of the walk over a process tree, told from the snapshot alone.
use vstd::prelude::*;

use super::tree::{
    children_of, finished_walk_orders_the_tree, is_child, last_root_error, prepared, valid_edge,
    SnapshotProcess, TerminationAttempt, TreeWalk,
};
use crate::process_identity::ProcIdentity;
use crate::win32::ERROR_INVALID_PARAMETER;

verus! {

/// The children of a process are the entries of the snapshot that name it as their parent: all
/// of them, no other, and in the order of the snapshot.
pub proof fn children_are_the_entries_below(processes: Seq<SnapshotProcess>, pid: u32)
    ensures
        children_of(processes, pid) == processes.filter(
            |process: SnapshotProcess| process.parent_pid == pid,
        ).map_values(|process: SnapshotProcess| process.pid),
        forall|i: int|
            0 <= i < processes.len() && (#[trigger] processes[i]).parent_pid == pid ==> children_of(
                processes,
                pid,
            ).contains(processes[i].pid),
        forall|child: u32| #[trigger]
            children_of(processes, pid).contains(child) ==> exists|i: int|
                0 <= i < processes.len() && (#[trigger] processes[i]).parent_pid == pid
                    && processes[i].pid == child,
    decreases processes.len(),
{
    reveal(Seq::filter);
    let below = |process: SnapshotProcess| process.parent_pid == pid;
    let named = |process: SnapshotProcess| process.pid;
    let children = children_of(processes, pid);
    if processes.len() == 0 {
        assert(children =~= processes.filter(below).map_values(named));
    } else {
        let front = processes.drop_last();
        let last = processes.last();
        let earlier = children_of(front, pid);
        children_are_the_entries_below(front, pid);
        if last.parent_pid == pid {
            assert(processes.filter(below) =~= front.filter(below).push(last));
        }
        assert(children =~= processes.filter(below).map_values(named));
        assert forall|i: int|
            0 <= i < processes.len() && (#[trigger] processes[i]).parent_pid
                == pid implies children.contains(processes[i].pid) by {
            if i < front.len() {
                assert(front[i] == processes[i]);
                let k = choose|k: int| 0 <= k < earlier.len() && earlier[k] == processes[i].pid;
                assert(children[k] == processes[i].pid);
            } else {
                assert(children[earlier.len() as int] == last.pid);
            }
        }
        assert forall|child: u32| #[trigger] children.contains(child) implies exists|i: int|
            0 <= i < processes.len() && (#[trigger] processes[i]).parent_pid == pid
                && processes[i].pid == child by {
            if earlier.contains(child) {
                let i = choose|i: int|
                    0 <= i < front.len() && (#[trigger] front[i]).parent_pid == pid && front[i].pid
                        == child;
                assert(processes[i] == front[i]);
            } else {
                let k = choose|k: int| 0 <= k < children.len() && children[k] == child;
                if k < earlier.len() {
                    assert(earlier[k] == child);
                }
                assert(processes[processes.len() - 1].pid == child);
            }
        }
    }
}

/// One process can have started another exactly if both creation times are known, the child is
/// not older than the parent, and the child is not newer than the snapshot.
pub proof fn edges_follow_creation_times(
    parent: ProcIdentity,
    child: ProcIdentity,
    snapshot_time: u64,
)
    ensures
        parent.creation_time_100ns == 0 || child.creation_time_100ns == 0 ==> !valid_edge(
            parent,
            child,
            snapshot_time,
        ),
        child.creation_time_100ns < parent.creation_time_100ns ==> !valid_edge(
            parent,
            child,
            snapshot_time,
        ),
        child.creation_time_100ns > snapshot_time ==> !valid_edge(parent, child, snapshot_time),
        0 < parent.creation_time_100ns <= child.creation_time_100ns <= snapshot_time ==> valid_edge(
            parent,
            child,
            snapshot_time,
        ),
{
}

/// Whether a child was refused below the process at `i` of the order, or comes before it or
/// elsewhere in the order.
pub open spec fn is_accounted_for(walk: TreeWalk, i: int, child: u32) -> bool {
    ||| walk.refused@.contains((walk.order@[i].pid, child))
    ||| exists|j: int| 0 <= j < walk.order@.len() && (#[trigger] walk.order@[j]).pid == child
}

/// Whether an entry of the snapshot places `child` below `parent`, and the creation times agree.
pub open spec fn is_listed_below(
    processes: Seq<SnapshotProcess>,
    snapshot_time: u64,
    parent: ProcIdentity,
    child: ProcIdentity,
) -> bool {
    &&& exists|p: int|
        0 <= p < processes.len() && (#[trigger] processes[p]).pid == child.pid
            && processes[p].parent_pid == parent.pid
    &&& 0 < parent.creation_time_100ns <= child.creation_time_100ns <= snapshot_time
}

proof fn lemma_child_is_listed(
    processes: Seq<SnapshotProcess>,
    snapshot_time: u64,
    parent: ProcIdentity,
    child: ProcIdentity,
)
    ensures
        is_child(processes, snapshot_time, parent, child) == is_listed_below(
            processes,
            snapshot_time,
            parent,
            child,
        ),
{
    children_are_the_entries_below(processes, parent.pid);
    if children_of(processes, parent.pid).contains(child.pid) {
        let p = choose|p: int|
            0 <= p < processes.len() && (#[trigger] processes[p]).parent_pid == parent.pid
                && processes[p].pid == child.pid;
        assert(processes[p].pid == child.pid);
    }
}

proof fn lemma_entry_is_accounted_for(walk: TreeWalk, i: int, p: int)
    requires
        walk.well_formed(),
        walk.frames@.len() == 0,
        0 <= i < walk.order@.len(),
        0 <= p < walk.processes@.len(),
        walk.processes@[p].parent_pid == walk.order@[i].pid,
    ensures
        is_accounted_for(walk, i, walk.processes@[p].pid),
{
    finished_walk_orders_the_tree(walk);
    let processes = walk.processes@;
    children_are_the_entries_below(processes, walk.order@[i].pid);
    let c = choose|c: int|
        0 <= c < children_of(processes, walk.order@[i].pid).len() && children_of(
            processes,
            walk.order@[i].pid,
        )[c] == processes[p].pid;
    let child = children_of(walk.processes@, walk.order@[i].pid)[c];
    assert(child == processes[p].pid);
}

/// A finished walk has left no entry of the snapshot out: whatever was started by a process that
/// is going to be ended is ended too, unless it was refused. And nothing else is ended: every
/// process of the order but the root stands in the snapshot below one that comes later.
pub proof fn finished_walk_covers_the_snapshot(walk: TreeWalk)
    requires
        walk.well_formed(),
        walk.frames@.len() == 0,
    ensures
        walk.order@.len() > 0,
        walk.order@.last() == walk.root,
        forall|i: int, p: int|
            0 <= i < walk.order@.len() && 0 <= p < walk.processes@.len()
                && walk.processes@[p].parent_pid == walk.order@[i].pid
                ==> #[trigger] is_accounted_for(walk, i, walk.processes@[p].pid),
        forall|i: int|
            0 <= i < walk.order@.len() - 1 ==> exists|j: int|
                i < j < walk.order@.len() && is_listed_below(
                    walk.processes@,
                    walk.snapshot_time_100ns,
                    #[trigger] walk.order@[j],
                    #[trigger] walk.order@[i],
                ),
{
    finished_walk_orders_the_tree(walk);
    let processes = walk.processes@;
    assert forall|i: int, p: int|
        0 <= i < walk.order@.len() && 0 <= p < walk.processes@.len()
            && walk.processes@[p].parent_pid == walk.order@[i].pid
            implies #[trigger] is_accounted_for(
        walk,
        i,
        walk.processes@[p].pid,
    ) by {
        lemma_entry_is_accounted_for(walk, i, p);
    }
    assert forall|i: int| 0 <= i < walk.order@.len() - 1 implies exists|j: int|
        i < j < walk.order@.len() && is_listed_below(
            walk.processes@,
            walk.snapshot_time_100ns,
            #[trigger] walk.order@[j],
            #[trigger] walk.order@[i],
        ) by {
        let j = choose|j: int|
            i < j < walk.order@.len() && is_child(
                processes,
                walk.snapshot_time_100ns,
                #[trigger] walk.order@[j],
                walk.order@[i],
            );
        lemma_child_is_listed(
            processes,
            walk.snapshot_time_100ns,
            walk.order@[j],
            walk.order@[i],
        );
    }
}

/// Whether a process of the order was opened, as the root is beforehand.
pub open spec fn is_opened(
    root: ProcIdentity,
    order: Seq<ProcIdentity>,
    opened: Seq<Result<(), u32>>,
    i: int,
) -> bool {
    order[i] == root || opened[i] is Ok
}

/// What is going to be ended is every process of the order that was opened, each once and in the
/// order of the walk. Where anything is ended, nothing else stood in the way than that a process
/// is gone.
pub proof fn every_opened_process_is_ended(
    root: ProcIdentity,
    order: Seq<ProcIdentity>,
    opened: Seq<Result<(), u32>>,
)
    requires
        order.len() == opened.len(),
        order.len() <= usize::MAX,
    ensures
        prepared(root, order, opened) matches Ok((targets, has_root)) ==> {
            &&& has_root == order.contains(root)
            &&& forall|t: int|
                0 <= t < targets.len() ==> 0 <= (#[trigger] targets[t]) < order.len() && is_opened(
                    root,
                    order,
                    opened,
                    targets[t] as int,
                )
            &&& forall|t: int, u: int|
                0 <= t < u < targets.len() ==> (#[trigger] targets[t]) < (#[trigger] targets[u])
            &&& forall|i: int|
                0 <= i < order.len() && #[trigger] is_opened(root, order, opened, i)
                    ==> targets.contains(i as usize)
            &&& forall|i: int|
                0 <= i < order.len() && !is_opened(root, order, opened, i)
                    ==> #[trigger] opened[i] == Err::<(), u32>(ERROR_INVALID_PARAMETER)
        },
    decreases order.len(),
{
    if order.len() > 0 && prepared(root, order, opened) is Ok {
        let (front, first) = (order.drop_last(), opened.drop_last());
        every_opened_process_is_ended(root, front, first);
        let before = prepared(root, front, first)->Ok_0.0;
        let (targets, has_root) = prepared(root, order, opened)->Ok_0;
        let n = order.len() - 1;
        assert(has_root == order.contains(root)) by {
            if front.contains(root) {
                let k = choose|k: int| 0 <= k < front.len() && front[k] == root;
                assert(order[k] == root);
            }
            if order.contains(root) {
                let k = choose|k: int| 0 <= k < order.len() && order[k] == root;
                if k < n {
                    assert(front[k] == root);
                }
            }
            assert(order[n] == order.last());
        }
        assert forall|i: int| 0 <= i < n implies is_opened(root, order, opened, i)
            == #[trigger] is_opened(root, front, first, i) by {}
        assert forall|t: int| 0 <= t < targets.len() implies 0 <= (#[trigger] targets[t])
            < order.len() && is_opened(root, order, opened, targets[t] as int) by {
            if t < before.len() {
                assert(targets[t] == before[t]);
                assert(is_opened(root, front, first, before[t] as int));
            }
        }
        assert forall|t: int, u: int| 0 <= t < u < targets.len() implies (#[trigger] targets[t])
            < (#[trigger] targets[u]) by {
            assert(targets[t] == before[t]);
            if u < before.len() {
                assert(targets[u] == before[u]);
            }
        }
        assert forall|i: int|
            0 <= i < order.len() && #[trigger] is_opened(
                root,
                order,
                opened,
                i,
            ) implies targets.contains(i as usize) by {
            if i < n {
                assert(is_opened(root, front, first, i));
                let t = choose|t: int| 0 <= t < before.len() && before[t] == i as usize;
                assert(targets[t] == i as usize);
            } else {
                assert(targets[before.len() as int] == i as usize);
            }
        }
        assert forall|i: int|
            0 <= i < order.len() && !is_opened(root, order, opened, i) implies #[trigger] opened[i]
            == Err::<(), u32>(ERROR_INVALID_PARAMETER) by {
            if i < n {
                assert(first[i] == opened[i]);
                assert(!is_opened(root, front, first, i));
            }
        }
    }
}

/// Nothing is ended where a process that is still there cannot be opened.
pub proof fn one_unopened_process_stops_all(
    root: ProcIdentity,
    order: Seq<ProcIdentity>,
    opened: Seq<Result<(), u32>>,
    i: int,
)
    requires
        order.len() == opened.len(),
        order.len() <= usize::MAX,
        0 <= i < order.len(),
        order[i] != root,
        opened[i] matches Err(error) && error != ERROR_INVALID_PARAMETER,
    ensures
        prepared(root, order, opened) is Err,
{
    every_opened_process_is_ended(root, order, opened);
    assert(!is_opened(root, order, opened, i));
}

/// The error that is told of the root is that of the last attempt on it that failed; zero stands
/// for none.
pub proof fn root_error_is_the_last(root_pid: u32, attempts: Seq<TerminationAttempt>, i: int)
    requires
        0 <= i < attempts.len(),
        attempts[i].pid == root_pid,
        attempts[i].failure matches Some((_, wait_result)) && wait_result != 0,
        forall|j: int|
            i < j < attempts.len() && (#[trigger] attempts[j]).pid == root_pid ==> (
            attempts[j].failure matches Some((_, wait_result)) ==> wait_result == 0),
    ensures
        attempts[i].failure matches Some((error, _))
            && last_root_error(root_pid, attempts) == error,
    decreases attempts.len(),
{
    if i < attempts.len() - 1 {
        let front = attempts.drop_last();
        let last = attempts[attempts.len() - 1];
        assert forall|j: int| i < j < front.len() && (#[trigger] front[j]).pid == root_pid implies (
        front[j].failure matches Some((_, wait_result)) ==> wait_result == 0) by {
            assert(front[j] == attempts[j]);
        }
        assert(last.pid == root_pid ==> !last.failed());
        root_error_is_the_last(root_pid, front, i);
    }
}

/// Without a failed attempt on the root there is no error of it.
pub proof fn no_root_error_without_failure(root_pid: u32, attempts: Seq<TerminationAttempt>)
    requires
        forall|j: int|
            0 <= j < attempts.len() && (#[trigger] attempts[j]).pid == root_pid ==> (
            attempts[j].failure matches Some((_, wait_result)) ==> wait_result == 0),
    ensures
        last_root_error(root_pid, attempts) == 0,
    decreases attempts.len(),
{
    if attempts.len() > 0 {
        let front = attempts.drop_last();
        assert forall|j: int| 0 <= j < front.len()
            && (#[trigger] front[j]).pid == root_pid implies (
        front[j].failure matches Some((_, wait_result)) ==> wait_result == 0) by {
            assert(front[j] == attempts[j]);
        }
        assert(attempts[attempts.len() - 1] == attempts.last());
        no_root_error_without_failure(root_pid, front);
    }
}

} // verus!
