//! Ending a process together with its descendants.
//!
//! A snapshot of the system tells which process started which, by identifiers that may have been
//! given out again since. The walk asks for the creation time of every process that it comes to,
//! and goes on below it only if that fits: a child is not older than its parent and not newer
//! than the snapshot.
use vstd::prelude::*;

use crate::process_identity::ProcIdentity;
use crate::seqs::{contains_u32, lemma_push_contains};
use crate::win32::{ERROR_GEN_FAILURE, ERROR_INVALID_DATA, ERROR_INVALID_PARAMETER};

verus! {

pub const WAIT_OBJECT_0: u32 = 0;

/// What became of a process below the root.
#[derive(Clone, Copy, Debug, PartialEq, Eq, Structural)]
pub enum DescendantProcessOutcome<T> {
    Verified(T),
    GoneOrReused,
    Fatal(u32),
}

pub fn classify_descendant_process_result<T, F>(result: Result<T, u32>, is_verified: F) -> (outcome:
    DescendantProcessOutcome<T>) where F: FnOnce(&T) -> bool
    requires
        result matches Ok(value) ==> is_verified.requires((&value,)),
    ensures
        match result {
            Ok(value) => {
                ||| outcome == DescendantProcessOutcome::Verified(value) && is_verified.ensures(
                    (&value,),
                    true,
                )
                ||| outcome == DescendantProcessOutcome::<T>::GoneOrReused && is_verified.ensures(
                    (&value,),
                    false,
                )
            },
            Err(error) => outcome == if error == ERROR_INVALID_PARAMETER {
                DescendantProcessOutcome::<T>::GoneOrReused
            } else {
                DescendantProcessOutcome::Fatal(error)
            },
        },
{
    match result {
        Ok(value) => {
            if is_verified(&value) {
                DescendantProcessOutcome::Verified(value)
            } else {
                DescendantProcessOutcome::GoneOrReused
            }
        },
        Err(error) => if error == ERROR_INVALID_PARAMETER {
            DescendantProcessOutcome::GoneOrReused
        } else {
            DescendantProcessOutcome::Fatal(error)
        },
    }
}

/// Whether a process that the snapshot places below `parent` was started by it.
pub open spec fn valid_edge(parent: ProcIdentity, child: ProcIdentity, snapshot_time: u64) -> bool {
    parent.verified() && child.verified() && parent.creation_time_100ns
        <= child.creation_time_100ns <= snapshot_time
}

pub fn is_valid_process_tree_edge(
    parent: ProcIdentity,
    child: ProcIdentity,
    snapshot_time_100ns: u64,
) -> (valid: bool)
    ensures
        valid == valid_edge(parent, child, snapshot_time_100ns),
{
    parent.is_verified() && child.is_verified() && parent.creation_time_100ns
        <= child.creation_time_100ns && child.creation_time_100ns <= snapshot_time_100ns
}

/// Checks after the snapshot that the root is still the process that was meant.
pub fn validate_snapshot_root_identity(expected: ProcIdentity, observed: ProcIdentity) -> (outcome:
    Result<(), u32>)
    ensures
        outcome == if expected.verified() && expected == observed {
            Ok::<(), u32>(())
        } else {
            Err(ERROR_INVALID_PARAMETER)
        },
{
    if expected.is_verified() && expected == observed {
        Ok(())
    } else {
        Err(ERROR_INVALID_PARAMETER)
    }
}

/// A process of the snapshot: its identifier and that of the process that started it.
#[derive(Clone, Copy, Debug, PartialEq, Eq, Structural)]
pub struct SnapshotProcess {
    pub pid: u32,
    pub parent_pid: u32,
}

/// The processes that the snapshot places below `pid`, in its order.
pub open spec fn children_of(processes: Seq<SnapshotProcess>, pid: u32) -> Seq<u32>
    decreases processes.len(),
{
    if processes.len() == 0 {
        Seq::empty()
    } else if processes.last().parent_pid == pid {
        children_of(processes.drop_last(), pid).push(processes.last().pid)
    } else {
        children_of(processes.drop_last(), pid)
    }
}

fn find_children(processes: &Vec<SnapshotProcess>, pid: u32) -> (children: Vec<u32>)
    ensures
        children@ == children_of(processes@, pid),
{
    let mut children: Vec<u32> = Vec::new();
    assert(processes@.take(0) =~= Seq::<SnapshotProcess>::empty());
    for index in 0..processes.len()
        invariant
            children@ == children_of(processes@.take(index as int), pid),
    {
        assert(processes@.take(index + 1).drop_last() =~= processes@.take(index as int));
        if processes[index].parent_pid == pid {
            children.push(processes[index].pid);
        }
    }
    assert(processes@.take(processes@.len() as int) =~= processes@);
    children
}

/// A process whose children are being visited: `next` of them were looked at.
pub struct TreeFrame {
    pub parent: ProcIdentity,
    pub children: Vec<u32>,
    pub next: usize,
}

/// The walk over the descendants of `root`. `frames` is the way from the root to where the walk
/// stands, `order` what it left behind, and `pending` a child whose creation time it asks for.
pub struct TreeWalk {
    pub root: ProcIdentity,
    pub processes: Vec<SnapshotProcess>,
    pub snapshot_time_100ns: u64,
    pub visited: Vec<u32>,
    pub frames: Vec<TreeFrame>,
    pub order: Vec<ProcIdentity>,
    pub pending: Option<u32>,
    /// The children that were refused, each with the process that it was found below.
    pub refused: Ghost<Set<(u32, u32)>>,
}

/// What the walk does next.
#[derive(Clone, Copy, Debug, PartialEq, Eq, Structural)]
pub enum TreeStep {
    Continue,
    /// The creation time of this process is needed.
    Ask(u32),
    Finished,
}

/// `child` was started by `parent`, as the snapshot and the creation times show.
pub open spec fn is_child(
    processes: Seq<SnapshotProcess>,
    snapshot_time: u64,
    parent: ProcIdentity,
    child: ProcIdentity,
) -> bool {
    &&& children_of(processes, parent.pid).contains(child.pid)
    &&& valid_edge(parent, child, snapshot_time)
}

impl TreeWalk {
    pub open spec fn stacked(&self, k: int) -> ProcIdentity {
        self.frames@[k].parent
    }

    pub open spec fn edge(&self, parent: ProcIdentity, child: ProcIdentity) -> bool {
        is_child(self.processes@, self.snapshot_time_100ns, parent, child)
    }

    /// A child was visited, or it was refused.
    pub open spec fn settled(&self, parent: u32, child: u32) -> bool {
        self.visited@.contains(child) || self.refused@.contains((parent, child))
    }

    pub open spec fn frames_fit(&self) -> bool {
        &&& forall|k: int|
            0 <= k < self.frames@.len() ==> (#[trigger] self.frames@[k]).next
                <= self.frames@[k].children@.len() && self.frames@[k].children@ == children_of(
                self.processes@,
                self.frames@[k].parent.pid,
            )
        &&& forall|k: int|
            1 <= k < self.frames@.len() ==> self.edge(
                self.stacked(k - 1),
                #[trigger] self.stacked(k),
            )
    }

    pub open spec fn root_is_placed(&self) -> bool {
        if self.frames@.len() > 0 {
            self.stacked(0) == self.root
        } else {
            self.order@.len() > 0 && self.order@.last() == self.root
        }
    }

    pub open spec fn nothing_twice(&self) -> bool {
        &&& forall|i: int, j: int|
            0 <= i < j < self.order@.len() ==> (#[trigger] self.order@[i]).pid != (
            #[trigger] self.order@[j]).pid
        &&& forall|i: int, j: int|
            0 <= i < j < self.frames@.len() ==> (#[trigger] self.stacked(i)).pid != (
            #[trigger] self.stacked(j)).pid
        &&& forall|i: int, k: int|
            0 <= i < self.order@.len() && 0 <= k < self.frames@.len() ==> (
            #[trigger] self.order@[i]).pid != (#[trigger] self.stacked(k)).pid
    }

    pub open spec fn visited_fits(&self) -> bool {
        &&& forall|i: int|
            0 <= i < self.order@.len() ==> self.visited@.contains((#[trigger] self.order@[i]).pid)
        &&& forall|k: int|
            0 <= k < self.frames@.len() ==> self.visited@.contains((#[trigger] self.stacked(k)).pid)
        &&& forall|pid: u32| #[trigger]
            self.visited@.contains(pid) ==> (exists|i: int|
                0 <= i < self.order@.len() && (#[trigger] self.order@[i]).pid == pid) || (exists|
                k: int,
            |
                0 <= k < self.frames@.len() && (#[trigger] self.stacked(k)).pid == pid)
    }

    /// The process at `i` of the order is the root, or was started by one that comes later.
    pub open spec fn has_later_parent(&self, i: int) -> bool {
        ||| i == self.order@.len() - 1 && self.frames@.len() == 0
        ||| exists|j: int|
            i < j < self.order@.len() && self.edge(#[trigger] self.order@[j], self.order@[i])
        ||| exists|k: int|
            0 <= k < self.frames@.len() && self.edge(#[trigger] self.stacked(k), self.order@[i])
    }

    pub open spec fn children_settled(&self) -> bool {
        &&& forall|i: int, c: int|
            0 <= i < self.order@.len() && 0 <= c < children_of(
                self.processes@,
                self.order@[i].pid,
            ).len() ==> self.settled(
                self.order@[i].pid,
                #[trigger] children_of(self.processes@, self.order@[i].pid)[c],
            )
        &&& forall|k: int, c: int|
            0 <= k < self.frames@.len() && 0 <= c < self.frames@[k].next && !(self.pending is Some
                && k == self.frames@.len() - 1 && c == self.frames@[k].next - 1) ==> self.settled(
                self.stacked(k).pid,
                #[trigger] self.frames@[k].children@[c],
            )
    }

    pub open spec fn pending_fits(&self) -> bool {
        self.pending matches Some(pid) ==> {
            &&& self.frames@.len() > 0
            &&& self.frames@.last().next > 0
            &&& self.frames@.last().children@[self.frames@.last().next - 1] == pid
            &&& !self.visited@.contains(pid)
        }
    }

    pub open spec fn well_formed(&self) -> bool {
        &&& self.frames_fit()
        &&& self.root_is_placed()
        &&& self.nothing_twice()
        &&& self.visited_fits()
        &&& forall|i: int|
            0 <= i < self.order@.len() ==> self.has_later_parent(i)
        &&& self.children_settled()
        &&& self.pending_fits()
    }

    /// Starts the walk at `root`.
    pub fn new(
        root: ProcIdentity,
        processes: Vec<SnapshotProcess>,
        snapshot_time_100ns: u64,
    ) -> (walk: Self)
        ensures
            walk.well_formed(),
            walk.root == root,
            walk.processes == processes,
            walk.snapshot_time_100ns == snapshot_time_100ns,
            walk.frames@.len() == 1,
            walk.frames@[0].parent == root,
            walk.frames@[0].next == 0,
            walk.frames@[0].children@ == children_of(processes@, root.pid),
            walk.visited@ == seq![root.pid],
            walk.order@.len() == 0,
            walk.pending is None,
            walk.refused@ == Set::<(u32, u32)>::empty(),
    {
        let children = find_children(&processes, root.pid);
        let walk = TreeWalk {
            root,
            processes,
            snapshot_time_100ns,
            visited: vec![root.pid],
            frames: vec![TreeFrame { parent: root, children, next: 0 }],
            order: Vec::new(),
            pending: None,
            refused: Ghost(Set::empty()),
        };
        proof {
            assert(walk.visited@ =~= seq![root.pid]);
            assert(walk.visited@[0] == root.pid);
            assert(walk.stacked(0) == root);
        }
        walk
    }

    /// Goes one step on: leaves a process whose children were all looked at, or looks at the
    /// next child, whose creation time is needed unless it was visited before.
    pub fn step(&mut self) -> (step: TreeStep)
        requires
            old(self).well_formed(),
            old(self).pending is None,
        ensures
            final(self).well_formed(),
            final(self).root == old(self).root,
            final(self).processes == old(self).processes,
            final(self).snapshot_time_100ns == old(self).snapshot_time_100ns,
            final(self).visited == old(self).visited,
            final(self).refused == old(self).refused,
            final(self).pending == match step {
                TreeStep::Ask(pid) => Some(pid),
                _ => None::<u32>,
            },
            old(self).frames@.len() == 0 ==> step == TreeStep::Finished && *final(self) == *old(
                self,
            ),
            old(self).frames@.len() > 0 ==> {
                let top = old(self).frames@.last();
                if top.next == top.children@.len() {
                    &&& step == TreeStep::Continue
                    &&& final(self).frames@ == old(self).frames@.drop_last()
                    &&& final(self).order@ == old(self).order@.push(top.parent)
                } else {
                    &&& step == if old(self).visited@.contains(top.children@[top.next as int]) {
                        TreeStep::Continue
                    } else {
                        TreeStep::Ask(top.children@[top.next as int])
                    }
                    &&& final(self).frames@ == old(self).frames@.update(
                        old(self).frames@.len() - 1,
                        (TreeFrame { next: (top.next + 1) as usize, ..top }),
                    )
                    &&& final(self).order == old(self).order
                }
            },
    {
        let count: usize = self.frames.len();
        if count == 0 {
            return TreeStep::Finished;
        }
        let top: usize = count - 1;
        if self.frames[top].next == self.frames[top].children.len() {
            let ghost before = *self;
            let parent = self.frames[top].parent;
            self.frames.pop();
            self.order.push(parent);
            proof {
                before.lemma_leave(*self);
            }
            return TreeStep::Continue;
        }
        let ghost before = *self;
        let position: usize = self.frames[top].next;
        let child: u32 = self.frames[top].children[position];
        self.frames[top].next = position + 1;
        let step = if contains_u32(&self.visited, child) {
            TreeStep::Continue
        } else {
            self.pending = Some(child);
            TreeStep::Ask(child)
        };
        proof {
            before.lemma_look(*self);
        }
        step
    }

    /// Takes the creation time of the process that was asked for. A process that is gone, or that
    /// was not started by the one above it, is left out; any other failure ends the walk.
    pub fn answer(&mut self, creation_time_100ns: Result<u64, u32>) -> (outcome: Result<(), u32>)
        requires
            old(self).well_formed(),
            old(self).pending is Some,
        ensures
            ({
                let parent = old(self).frames@.last().parent;
                let pid = old(self).pending->0;
                match creation_time_100ns {
                    Err(error) if error != ERROR_INVALID_PARAMETER => outcome == Err::<(), u32>(
                        error,
                    ) && *final(self) == *old(self),
                    Ok(time) if valid_edge(
                        parent,
                        (ProcIdentity { pid, creation_time_100ns: time }),
                        old(self).snapshot_time_100ns,
                    ) => {
                        &&& outcome is Ok
                        &&& final(self).well_formed()
                        &&& final(self).pending is None
                        &&& final(self).root == old(self).root
                        &&& final(self).processes == old(self).processes
                        &&& final(self).snapshot_time_100ns == old(self).snapshot_time_100ns
                        &&& final(self).visited@ == old(self).visited@.push(pid)
                        &&& final(self).order == old(self).order
                        &&& final(self).refused == old(self).refused
                        &&& final(self).frames@.drop_last() == old(self).frames@
                        &&& final(self).frames@.last().parent == (ProcIdentity {
                            pid,
                            creation_time_100ns: time,
                        })
                        &&& final(self).frames@.last().children@ == children_of(
                            old(self).processes@,
                            pid,
                        )
                        &&& final(self).frames@.last().next == 0
                    },
                    _ => {
                        &&& outcome is Ok
                        &&& final(self).well_formed()
                        &&& final(self).refused@ == old(self).refused@.insert((parent.pid, pid))
                        &&& *final(self) == (TreeWalk {
                            pending: None,
                            refused: final(self).refused,
                            ..*old(self)
                        })
                    },
                }
            }),
    {
        let pid: u32 = match self.pending {
            Some(pid) => pid,
            None => return Ok(()),
        };
        let ghost before = *self;
        let parent = self.frames[self.frames.len() - 1].parent;
        let snapshot_time_100ns: u64 = self.snapshot_time_100ns;
        let identity: Result<ProcIdentity, u32> = match creation_time_100ns {
            Ok(time) => Ok(ProcIdentity::new(pid, time)),
            Err(error) => Err(error),
        };
        let is_started_here = |child: &ProcIdentity| -> (valid: bool)
            ensures
                valid == valid_edge(parent, *child, snapshot_time_100ns),
        { is_valid_process_tree_edge(parent, *child, snapshot_time_100ns) };
        match classify_descendant_process_result(identity, is_started_here) {
            DescendantProcessOutcome::Fatal(error) => Err(error),
            DescendantProcessOutcome::GoneOrReused => {
                self.pending = None;
                self.refused = Ghost(self.refused@.insert((parent.pid, pid)));
                proof {
                    before.lemma_refuse(*self);
                }
                Ok(())
            },
            DescendantProcessOutcome::Verified(child) => {
                let children = find_children(&self.processes, pid);
                self.pending = None;
                self.visited.push(pid);
                self.frames.push(TreeFrame { parent: child, children, next: 0 });
                proof {
                    assert(self.frames@.drop_last() =~= before.frames@);
                    before.lemma_enter(*self);
                }
                Ok(())
            },
        }
    }

    proof fn lemma_leave(self, after: Self)
        requires
            self.well_formed(),
            self.pending is None,
            self.frames@.len() > 0,
            self.frames@.last().next == self.frames@.last().children@.len(),
            after == (TreeWalk { frames: after.frames, order: after.order, ..self }),
            after.frames@ == self.frames@.drop_last(),
            after.order@ == self.order@.push(self.frames@.last().parent),
        ensures
            after.well_formed(),
    {
        let n = self.frames@.len() - 1;
        let parent = self.stacked(n);
        let last = self.order@.len() as int;
        assert(after.order@[last] == parent);
        assert forall|k: int| 0 <= k < after.frames@.len() implies after.frames@[k]
            == self.frames@[k] && #[trigger] after.stacked(k) == self.stacked(k) by {}
        assert(after.frames_fit()) by {
            assert forall|k: int| 1 <= k < after.frames@.len() implies after.edge(
                after.stacked(k - 1),
                #[trigger] after.stacked(k),
            ) by {
                assert(self.edge(self.stacked(k - 1), self.stacked(k)));
            }
        }
        assert(after.root_is_placed()) by {
            if after.frames@.len() > 0 {
                assert(after.stacked(0) == self.stacked(0));
            }
        }
        assert(after.nothing_twice()) by {
            assert forall|i: int, j: int| 0 <= i < j < after.order@.len() implies (
            #[trigger] after.order@[i]).pid != (#[trigger] after.order@[j]).pid by {
                if j == last {
                    assert(self.order@[i].pid != self.stacked(n).pid);
                } else {
                    assert(self.order@[i].pid != self.order@[j].pid);
                }
            }
            assert forall|i: int, k: int|
                0 <= i < after.order@.len() && 0 <= k < after.frames@.len() implies (
            #[trigger] after.order@[i]).pid != (#[trigger] after.stacked(k)).pid by {
                if i == last {
                    assert(self.stacked(k).pid != self.stacked(n).pid);
                } else {
                    assert(self.order@[i].pid != self.stacked(k).pid);
                }
            }
        }
        assert(after.visited_fits()) by {
            assert forall|i: int| 0 <= i < after.order@.len() implies after.visited@.contains(
                (#[trigger] after.order@[i]).pid,
            ) by {
                if i == last {
                    assert(self.visited@.contains(self.stacked(n).pid));
                } else {
                    assert(self.visited@.contains(self.order@[i].pid));
                }
            }
            assert forall|pid: u32| #[trigger] after.visited@.contains(pid) implies (exists|i: int|
                0 <= i < after.order@.len() && (#[trigger] after.order@[i]).pid == pid) || (exists|
                k: int,
            |
                0 <= k < after.frames@.len() && (#[trigger] after.stacked(k)).pid == pid) by {
                assert(self.visited@.contains(pid));
                if exists|i: int|
                    0 <= i < self.order@.len() && (#[trigger] self.order@[i]).pid == pid {
                    let i = choose|i: int|
                        0 <= i < self.order@.len() && (#[trigger] self.order@[i]).pid == pid;
                    assert(after.order@[i].pid == pid);
                } else {
                    let k = choose|k: int|
                        0 <= k < self.frames@.len() && (#[trigger] self.stacked(k)).pid == pid;
                    if k == n {
                        assert(after.order@[last].pid == pid);
                    } else {
                        assert(after.stacked(k).pid == pid);
                    }
                }
            }
        }
        assert forall|i: int| 0 <= i < after.order@.len() implies after.has_later_parent(i) by {
            if i == last {
                if n > 0 {
                    assert(self.edge(self.stacked(n - 1), self.stacked(n)));
                    assert(after.edge(after.stacked(n - 1), after.order@[i]));
                }
            } else {
                assert(self.has_later_parent(i));
                if exists|j: int|
                    i < j < self.order@.len() && self.edge(
                        #[trigger] self.order@[j],
                        self.order@[i],
                    ) {
                    let j = choose|j: int|
                        i < j < self.order@.len() && self.edge(
                            #[trigger] self.order@[j],
                            self.order@[i],
                        );
                    assert(after.edge(after.order@[j], after.order@[i]));
                } else {
                    let k = choose|k: int|
                        0 <= k < self.frames@.len() && self.edge(
                            #[trigger] self.stacked(k),
                            self.order@[i],
                        );
                    if k == n {
                        assert(after.edge(after.order@[last], after.order@[i]));
                    } else {
                        assert(after.edge(after.stacked(k), after.order@[i]));
                    }
                }
            }
        }
        assert(after.children_settled()) by {
            assert forall|i: int, c: int|
                0 <= i < after.order@.len() && 0 <= c < children_of(
                    after.processes@,
                    after.order@[i].pid,
                ).len() implies after.settled(
                after.order@[i].pid,
                #[trigger] children_of(after.processes@, after.order@[i].pid)[c],
            ) by {
                if i == last {
                    assert(self.frames@[n].children@ == children_of(
                        self.processes@,
                        self.frames@[n].parent.pid,
                    ));
                    assert(self.settled(self.stacked(n).pid, self.frames@[n].children@[c]));
                } else {
                    assert(self.settled(
                        self.order@[i].pid,
                        children_of(self.processes@, self.order@[i].pid)[c],
                    ));
                }
            }
            assert forall|k: int, c: int|
                0 <= k < after.frames@.len() && 0 <= c < after.frames@[k].next implies after.settled(
                after.stacked(k).pid,
                #[trigger] after.frames@[k].children@[c],
            ) by {
                assert(self.settled(self.stacked(k).pid, self.frames@[k].children@[c]));
            }
        }
    }

    proof fn lemma_look(self, after: Self)
        requires
            self.well_formed(),
            self.pending is None,
            self.frames@.len() > 0,
            self.frames@.last().next < self.frames@.last().children@.len(),
            after == (TreeWalk { frames: after.frames, pending: after.pending, ..self }),
            ({
                let top = self.frames@.last();
                let child = top.children@[top.next as int];
                &&& after.frames@ == self.frames@.update(
                    self.frames@.len() - 1,
                    (TreeFrame { next: (top.next + 1) as usize, ..top }),
                )
                &&& after.pending == if self.visited@.contains(child) {
                    None
                } else {
                    Some(child)
                }
            }),
        ensures
            after.well_formed(),
    {
        let n = self.frames@.len() - 1;
        assert forall|k: int| 0 <= k < after.frames@.len() implies (#[trigger] after.stacked(k))
            == self.stacked(k) && after.frames@[k].children == self.frames@[k].children by {}
        assert(after.frames_fit()) by {
            assert forall|k: int| 0 <= k < after.frames@.len() implies (
            #[trigger] after.frames@[k]).next <= after.frames@[k].children@.len()
                && after.frames@[k].children@ == children_of(
                after.processes@,
                after.frames@[k].parent.pid,
            ) by {
                assert(self.frames@[k].children@ == children_of(
                    self.processes@,
                    self.frames@[k].parent.pid,
                ));
            }
            assert forall|k: int| 1 <= k < after.frames@.len() implies after.edge(
                after.stacked(k - 1),
                #[trigger] after.stacked(k),
            ) by {
                assert(self.edge(self.stacked(k - 1), self.stacked(k)));
            }
        }
        assert(after.root_is_placed()) by {
            assert(after.stacked(0) == self.stacked(0));
        }
        assert(after.nothing_twice()) by {
            assert forall|i: int, j: int| 0 <= i < j < after.frames@.len() implies (
            #[trigger] after.stacked(i)).pid != (#[trigger] after.stacked(j)).pid by {
                assert(self.stacked(i).pid != self.stacked(j).pid);
            }
            assert forall|i: int, k: int|
                0 <= i < after.order@.len() && 0 <= k < after.frames@.len() implies (
            #[trigger] after.order@[i]).pid != (#[trigger] after.stacked(k)).pid by {
                assert(self.order@[i].pid != self.stacked(k).pid);
            }
        }
        assert(after.visited_fits()) by {
            assert forall|pid: u32| #[trigger] after.visited@.contains(pid) implies (exists|i: int|
                0 <= i < after.order@.len() && (#[trigger] after.order@[i]).pid == pid) || (exists|
                k: int,
            |
                0 <= k < after.frames@.len() && (#[trigger] after.stacked(k)).pid == pid) by {
                assert(self.visited@.contains(pid));
                if !(exists|i: int|
                    0 <= i < self.order@.len() && (#[trigger] self.order@[i]).pid == pid) {
                    let k = choose|k: int|
                        0 <= k < self.frames@.len() && (#[trigger] self.stacked(k)).pid == pid;
                    assert(after.stacked(k).pid == pid);
                }
            }
        }
        assert forall|i: int| 0 <= i < after.order@.len() implies after.has_later_parent(i) by {
            assert(self.has_later_parent(i));
            if exists|j: int|
                i < j < self.order@.len() && self.edge(#[trigger] self.order@[j], self.order@[i]) {
                let j = choose|j: int|
                    i < j < self.order@.len() && self.edge(
                        #[trigger] self.order@[j],
                        self.order@[i],
                    );
                assert(after.edge(after.order@[j], after.order@[i]));
            } else {
                let k = choose|k: int|
                    0 <= k < self.frames@.len() && self.edge(
                        #[trigger] self.stacked(k),
                        self.order@[i],
                    );
                assert(after.edge(after.stacked(k), after.order@[i]));
            }
        }
        assert(after.children_settled()) by {
            assert forall|i: int, c: int|
                0 <= i < after.order@.len() && 0 <= c < children_of(
                    after.processes@,
                    after.order@[i].pid,
                ).len() implies after.settled(
                after.order@[i].pid,
                #[trigger] children_of(after.processes@, after.order@[i].pid)[c],
            ) by {
                assert(self.settled(
                    self.order@[i].pid,
                    children_of(self.processes@, self.order@[i].pid)[c],
                ));
            }
            assert forall|k: int, c: int|
                0 <= k < after.frames@.len() && 0 <= c < after.frames@[k].next && !(
                after.pending is Some && k == after.frames@.len() - 1 && c == after.frames@[k].next
                    - 1) implies after.settled(
                after.stacked(k).pid,
                #[trigger] after.frames@[k].children@[c],
            ) by {
                if !(k == n && c == self.frames@[k].next) {
                    assert(self.settled(self.stacked(k).pid, self.frames@[k].children@[c]));
                }
            }
        }
        assert(self.frames@[n].children.len() == self.frames@[n].children@.len());
    }

    proof fn lemma_refuse(self, after: Self)
        requires
            self.well_formed(),
            self.pending is Some,
            after == (TreeWalk { pending: None, refused: after.refused, ..self }),
            after.refused@ == self.refused@.insert((self.frames@.last().parent.pid, self.pending->0)),
        ensures
            after.well_formed(),
    {
        assert forall|k: int| 0 <= k < after.frames@.len() implies (#[trigger] after.stacked(k))
            == self.stacked(k) by {}
        assert(after.frames_fit()) by {
            assert forall|k: int| 1 <= k < after.frames@.len() implies after.edge(
                after.stacked(k - 1),
                #[trigger] after.stacked(k),
            ) by {
                assert(self.edge(self.stacked(k - 1), self.stacked(k)));
            }
        }
        assert(after.nothing_twice()) by {
            assert forall|i: int, j: int| 0 <= i < j < after.frames@.len() implies (
            #[trigger] after.stacked(i)).pid != (#[trigger] after.stacked(j)).pid by {
                assert(self.stacked(i).pid != self.stacked(j).pid);
            }
            assert forall|i: int, k: int|
                0 <= i < after.order@.len() && 0 <= k < after.frames@.len() implies (
            #[trigger] after.order@[i]).pid != (#[trigger] after.stacked(k)).pid by {
                assert(self.order@[i].pid != self.stacked(k).pid);
            }
        }
        assert(after.visited_fits()) by {
            assert forall|pid: u32| #[trigger] after.visited@.contains(pid) implies (exists|i: int|
                0 <= i < after.order@.len() && (#[trigger] after.order@[i]).pid == pid) || (exists|
                k: int,
            |
                0 <= k < after.frames@.len() && (#[trigger] after.stacked(k)).pid == pid) by {
                assert(self.visited@.contains(pid));
                if !(exists|i: int|
                    0 <= i < self.order@.len() && (#[trigger] self.order@[i]).pid == pid) {
                    let k = choose|k: int|
                        0 <= k < self.frames@.len() && (#[trigger] self.stacked(k)).pid == pid;
                    assert(after.stacked(k).pid == pid);
                }
            }
        }
        assert forall|i: int| 0 <= i < after.order@.len() implies after.has_later_parent(i) by {
            assert(self.has_later_parent(i));
            if exists|j: int|
                i < j < self.order@.len() && self.edge(#[trigger] self.order@[j], self.order@[i]) {
                let j = choose|j: int|
                    i < j < self.order@.len() && self.edge(
                        #[trigger] self.order@[j],
                        self.order@[i],
                    );
                assert(after.edge(after.order@[j], after.order@[i]));
            } else {
                let k = choose|k: int|
                    0 <= k < self.frames@.len() && self.edge(
                        #[trigger] self.stacked(k),
                        self.order@[i],
                    );
                assert(after.edge(after.stacked(k), after.order@[i]));
            }
        }
        assert(after.children_settled()) by {
            assert forall|i: int, c: int|
                0 <= i < after.order@.len() && 0 <= c < children_of(
                    after.processes@,
                    after.order@[i].pid,
                ).len() implies after.settled(
                after.order@[i].pid,
                #[trigger] children_of(after.processes@, after.order@[i].pid)[c],
            ) by {
                assert(self.settled(
                    self.order@[i].pid,
                    children_of(self.processes@, self.order@[i].pid)[c],
                ));
            }
            assert forall|k: int, c: int|
                0 <= k < after.frames@.len() && 0 <= c < after.frames@[k].next implies after.settled(
                after.stacked(k).pid,
                #[trigger] after.frames@[k].children@[c],
            ) by {
                if !(k == self.frames@.len() - 1 && c == self.frames@[k].next - 1) {
                    assert(self.settled(self.stacked(k).pid, self.frames@[k].children@[c]));
                }
            }
        }
    }

    proof fn lemma_enter(self, after: Self)
        requires
            self.well_formed(),
            self.pending is Some,
            after == (TreeWalk {
                pending: None,
                visited: after.visited,
                frames: after.frames,
                ..self
            }),
            after.visited@ == self.visited@.push(self.pending->0),
            after.frames@.len() == self.frames@.len() + 1,
            after.frames@.drop_last() == self.frames@,
            after.frames@.last().parent.pid == self.pending->0,
            after.frames@.last().children@ == children_of(self.processes@, self.pending->0),
            after.frames@.last().next == 0,
            valid_edge(
                self.frames@.last().parent,
                after.frames@.last().parent,
                self.snapshot_time_100ns,
            ),
        ensures
            after.well_formed(),
    {
        let n = self.frames@.len() as int;
        let pid = self.pending->0;
        lemma_push_contains(self.visited@, pid);
        assert forall|k: int| 0 <= k < n implies after.frames@[k] == self.frames@[k] && (
        #[trigger] after.stacked(k)) == self.stacked(k) by {
            assert(after.frames@.drop_last()[k] == after.frames@[k]);
        }
        assert(after.stacked(n).pid == pid);
        assert(after.frames_fit()) by {
            assert forall|k: int| 0 <= k < after.frames@.len() implies (
            #[trigger] after.frames@[k]).next <= after.frames@[k].children@.len()
                && after.frames@[k].children@ == children_of(
                after.processes@,
                after.frames@[k].parent.pid,
            ) by {
                if k < n {
                    assert(after.stacked(k) == self.stacked(k));
                    assert(self.frames@[k].children@ == children_of(
                        self.processes@,
                        self.frames@[k].parent.pid,
                    ));
                }
            }
            assert forall|k: int| 1 <= k < after.frames@.len() implies after.edge(
                after.stacked(k - 1),
                #[trigger] after.stacked(k),
            ) by {
                if k < n {
                    assert(self.edge(self.stacked(k - 1), self.stacked(k)));
                    assert(after.stacked(k - 1) == self.stacked(k - 1));
                } else {
                    assert(after.stacked(n - 1) == self.stacked(n - 1));
                    let top = self.frames@[n - 1];
                    assert(top.children@ == children_of(self.processes@, top.parent.pid));
                    assert(top.children@[top.next - 1] == pid);
                }
            }
        }
        assert(after.root_is_placed()) by {
            assert(after.stacked(0) == self.stacked(0));
        }
        assert(after.nothing_twice()) by {
            assert forall|i: int, j: int| 0 <= i < j < after.frames@.len() implies (
            #[trigger] after.stacked(i)).pid != (#[trigger] after.stacked(j)).pid by {
                if j < n {
                    assert(self.stacked(i).pid != self.stacked(j).pid);
                } else {
                    assert(self.visited@.contains(self.stacked(i).pid));
                }
            }
            assert forall|i: int, k: int|
                0 <= i < after.order@.len() && 0 <= k < after.frames@.len() implies (
            #[trigger] after.order@[i]).pid != (#[trigger] after.stacked(k)).pid by {
                if k < n {
                    assert(self.order@[i].pid != self.stacked(k).pid);
                } else {
                    assert(self.visited@.contains(self.order@[i].pid));
                }
            }
        }
        assert(after.visited_fits()) by {
            assert forall|k: int| 0 <= k < after.frames@.len() implies after.visited@.contains(
                (#[trigger] after.stacked(k)).pid,
            ) by {
                if k < n {
                    assert(self.visited@.contains(self.stacked(k).pid));
                }
            }
            assert forall|pid: u32| #[trigger] after.visited@.contains(pid) implies (exists|i: int|
                0 <= i < after.order@.len() && (#[trigger] after.order@[i]).pid == pid) || (exists|
                k: int,
            |
                0 <= k < after.frames@.len() && (#[trigger] after.stacked(k)).pid == pid) by {
                if self.visited@.contains(pid) {
                    if !(exists|i: int|
                        0 <= i < self.order@.len() && (#[trigger] self.order@[i]).pid == pid) {
                        let k = choose|k: int|
                            0 <= k < self.frames@.len() && (#[trigger] self.stacked(k)).pid == pid;
                        assert(after.stacked(k).pid == pid);
                    }
                } else {
                    assert(after.stacked(n).pid == pid);
                }
            }
        }
        assert forall|i: int| 0 <= i < after.order@.len() implies after.has_later_parent(i) by {
            assert(self.has_later_parent(i));
            if exists|j: int|
                i < j < self.order@.len() && self.edge(#[trigger] self.order@[j], self.order@[i]) {
                let j = choose|j: int|
                    i < j < self.order@.len() && self.edge(
                        #[trigger] self.order@[j],
                        self.order@[i],
                    );
                assert(after.edge(after.order@[j], after.order@[i]));
            } else {
                let k = choose|k: int|
                    0 <= k < self.frames@.len() && self.edge(
                        #[trigger] self.stacked(k),
                        self.order@[i],
                    );
                assert(after.edge(after.stacked(k), after.order@[i]));
            }
        }
        assert(after.children_settled()) by {
            assert forall|i: int, c: int|
                0 <= i < after.order@.len() && 0 <= c < children_of(
                    after.processes@,
                    after.order@[i].pid,
                ).len() implies after.settled(
                after.order@[i].pid,
                #[trigger] children_of(after.processes@, after.order@[i].pid)[c],
            ) by {
                assert(self.settled(
                    self.order@[i].pid,
                    children_of(self.processes@, self.order@[i].pid)[c],
                ));
            }
            assert forall|k: int, c: int|
                0 <= k < after.frames@.len() && 0 <= c < after.frames@[k].next implies after.settled(
                after.stacked(k).pid,
                #[trigger] after.frames@[k].children@[c],
            ) by {
                if k < n {
                    assert(after.stacked(k) == self.stacked(k));
                    if !(k == n - 1 && c == self.frames@[k].next - 1) {
                        assert(self.settled(self.stacked(k).pid, self.frames@[k].children@[c]));
                    }
                }
            }
        }
    }
}

/// When the walk is finished, its order ends with the root, names no process twice, has every
/// other process before the one that started it, and leaves out a child of a process only if
/// that child was refused.
pub proof fn finished_walk_orders_the_tree(walk: TreeWalk)
    requires
        walk.well_formed(),
        walk.frames@.len() == 0,
    ensures
        walk.order@.len() > 0,
        walk.order@.last() == walk.root,
        forall|i: int, j: int|
            0 <= i < j < walk.order@.len() ==> (#[trigger] walk.order@[i]).pid != (
            #[trigger] walk.order@[j]).pid,
        forall|i: int|
            0 <= i < walk.order@.len() - 1 ==> exists|j: int|
                i < j < walk.order@.len() && is_child(
                    walk.processes@,
                    walk.snapshot_time_100ns,
                    #[trigger] walk.order@[j],
                    #[trigger] walk.order@[i],
                ),
        forall|i: int, c: int|
            0 <= i < walk.order@.len() && 0 <= c < children_of(
                walk.processes@,
                walk.order@[i].pid,
            ).len() ==> {
                let child = #[trigger] children_of(walk.processes@, walk.order@[i].pid)[c];
                ||| walk.refused@.contains((walk.order@[i].pid, child))
                ||| exists|j: int|
                    0 <= j < walk.order@.len() && (#[trigger] walk.order@[j]).pid == child
            },
{
    assert forall|i: int| 0 <= i < walk.order@.len() - 1 implies exists|j: int|
        i < j < walk.order@.len() && is_child(
            walk.processes@,
            walk.snapshot_time_100ns,
            #[trigger] walk.order@[j],
            #[trigger] walk.order@[i],
        ) by {
        assert(walk.has_later_parent(i));
        let j = choose|j: int|
            i < j < walk.order@.len() && walk.edge(#[trigger] walk.order@[j], walk.order@[i]);
        assert(is_child(
            walk.processes@,
            walk.snapshot_time_100ns,
            walk.order@[j],
            walk.order@[i],
        ));
    }
    assert forall|i: int, c: int|
        0 <= i < walk.order@.len() && 0 <= c < children_of(
            walk.processes@,
            walk.order@[i].pid,
        ).len() implies ({
        let child = #[trigger] children_of(walk.processes@, walk.order@[i].pid)[c];
        ||| walk.refused@.contains((walk.order@[i].pid, child))
        ||| exists|j: int| 0 <= j < walk.order@.len() && (#[trigger] walk.order@[j]).pid == child
    }) by {
        assert(walk.settled(
            walk.order@[i].pid,
            children_of(walk.processes@, walk.order@[i].pid)[c],
        ));
    }
}

#[derive(Clone, Copy, Debug, PartialEq, Eq, Structural)]
pub enum ProcessTreePrepareError {
    Root(u32),
    Tree(u32),
}

/// The processes of the order that can be ended, and whether the root is among them; or why
/// nothing is ended.
pub open spec fn prepared(
    root: ProcIdentity,
    order: Seq<ProcIdentity>,
    opened: Seq<Result<(), u32>>,
) -> Result<(Seq<usize>, bool), u32>
    decreases order.len(),
{
    if order.len() == 0 {
        Ok((Seq::empty(), false))
    } else {
        match prepared(root, order.drop_last(), opened.drop_last()) {
            Err(error) => Err(error),
            Ok((targets, has_root)) => if order.last() == root {
                if has_root {
                    Err(ERROR_INVALID_DATA)
                } else {
                    Ok((targets.push((order.len() - 1) as usize), true))
                }
            } else {
                match opened.last() {
                    Ok(_) => Ok((targets.push((order.len() - 1) as usize), has_root)),
                    Err(error) => if error == ERROR_INVALID_PARAMETER {
                        Ok((targets, has_root))
                    } else {
                        Err(error)
                    },
                }
            },
        }
    }
}

/// Decides which processes of the order are ended, by their positions. `root_opened` tells
/// whether the root could be opened, `opened` whether each other process could. One that is gone
/// is left out; if any other cannot be opened, nothing is ended.
pub fn prepare_process_tree_termination(
    root: ProcIdentity,
    root_opened: Result<(), u32>,
    order: Result<&Vec<ProcIdentity>, u32>,
    opened: &Vec<Result<(), u32>>,
) -> (outcome: Result<Vec<usize>, ProcessTreePrepareError>)
    requires
        order matches Ok(order) ==> order@.len() == opened@.len(),
    ensures
        match root_opened {
            Err(error) => outcome == Err::<Vec<usize>, ProcessTreePrepareError>(
                ProcessTreePrepareError::Root(error),
            ),
            Ok(_) => match order {
                Err(error) => outcome == Err::<Vec<usize>, ProcessTreePrepareError>(
                    ProcessTreePrepareError::Tree(error),
                ),
                Ok(order) => match prepared(root, order@, opened@) {
                    Err(error) => outcome == Err::<Vec<usize>, ProcessTreePrepareError>(
                        ProcessTreePrepareError::Tree(error),
                    ),
                    Ok((targets, has_root)) => if has_root {
                        outcome matches Ok(found) && found@ == targets
                    } else {
                        outcome == Err::<Vec<usize>, ProcessTreePrepareError>(
                            ProcessTreePrepareError::Tree(ERROR_GEN_FAILURE),
                        )
                    },
                },
            },
        },
{
    if let Err(error) = root_opened {
        return Err(ProcessTreePrepareError::Root(error));
    }
    let list = match order {
        Ok(list) => list,
        Err(error) => return Err(ProcessTreePrepareError::Tree(error)),
    };
    let mut has_root = false;
    let mut targets: Vec<usize> = Vec::new();
    assert(list@.take(0) =~= Seq::<ProcIdentity>::empty());
    for index in 0..list.len()
        invariant
            order == Ok::<&Vec<ProcIdentity>, u32>(list),
            root_opened is Ok,
            list@.len() == opened@.len(),
            prepared(root, list@.take(index as int), opened@.take(index as int)) == Ok::<
                (Seq<usize>, bool),
                u32,
            >((targets@, has_root)),
    {
        let ghost upto = (list@.take(index + 1), opened@.take(index + 1));
        proof {
            assert(upto.0.drop_last() =~= list@.take(index as int));
            assert(upto.1.drop_last() =~= opened@.take(index as int));
            lemma_prepared_error_stays(root, list@, opened@, index + 1);
        }
        if list[index] == root {
            if has_root {
                return Err(ProcessTreePrepareError::Tree(ERROR_INVALID_DATA));
            }
            has_root = true;
            targets.push(index);
        } else {
            match opened[index] {
                Ok(_) => {
                    targets.push(index);
                },
                Err(error) => {
                    if error != ERROR_INVALID_PARAMETER {
                        return Err(ProcessTreePrepareError::Tree(error));
                    }
                },
            }
        }
    }
    proof {
        assert(list@.take(list@.len() as int) =~= list@);
        assert(opened@.take(list@.len() as int) =~= opened@);
    }
    if has_root {
        Ok(targets)
    } else {
        Err(ProcessTreePrepareError::Tree(ERROR_GEN_FAILURE))
    }
}

proof fn lemma_prepared_error_stays(
    root: ProcIdentity,
    order: Seq<ProcIdentity>,
    opened: Seq<Result<(), u32>>,
    n: int,
)
    requires
        0 <= n <= order.len(),
        order.len() == opened.len(),
    ensures
        prepared(root, order.take(n), opened.take(n)) is Err ==> prepared(root, order, opened)
            == prepared(root, order.take(n), opened.take(n)),
    decreases order.len(),
{
    if n == order.len() {
        assert(order.take(n) =~= order);
        assert(opened.take(n) =~= opened);
    } else {
        assert(order.drop_last().take(n) =~= order.take(n));
        assert(opened.drop_last().take(n) =~= opened.take(n));
        lemma_prepared_error_stays(root, order.drop_last(), opened.drop_last(), n);
    }
}

proof fn lemma_without_root(
    root: ProcIdentity,
    order: Seq<ProcIdentity>,
    opened: Seq<Result<(), u32>>,
)
    requires
        order.len() == opened.len(),
        forall|i: int| 0 <= i < order.len() ==> order[i] != root,
    ensures
        prepared(root, order, opened) matches Ok((_, has_root)) ==> !has_root,
        (forall|i: int|
            0 <= i < opened.len() ==> (#[trigger] opened[i] is Ok || opened[i] == Err::<(), u32>(
                ERROR_INVALID_PARAMETER,
            ))) ==> prepared(root, order, opened) is Ok,
    decreases order.len(),
{
    if order.len() > 0 {
        assert forall|i: int| 0 <= i < order.drop_last().len() implies order.drop_last()[i]
            != root by {
            assert(order[i] != root);
        }
        lemma_without_root(root, order.drop_last(), opened.drop_last());
        if forall|i: int|
            0 <= i < opened.len() ==> (#[trigger] opened[i] is Ok || opened[i] == Err::<(), u32>(
                ERROR_INVALID_PARAMETER,
            )) {
            assert forall|i: int| 0 <= i < opened.drop_last().len() implies (
            #[trigger] opened.drop_last()[i] is Ok || opened.drop_last()[i] == Err::<(), u32>(
                ERROR_INVALID_PARAMETER,
            )) by {
                assert(opened[i] is Ok || opened[i] == Err::<(), u32>(ERROR_INVALID_PARAMETER));
            }
            assert(opened[opened.len() - 1] is Ok || opened[opened.len() - 1] == Err::<(), u32>(
                ERROR_INVALID_PARAMETER,
            ));
        }
    }
}

/// After a finished walk the root is the last process that is ended, and nothing stands in the
/// way unless some descendant cannot be opened although it is still there.
pub proof fn root_is_ended_last(walk: TreeWalk, opened: Seq<Result<(), u32>>)
    requires
        walk.well_formed(),
        walk.frames@.len() == 0,
        opened.len() == walk.order@.len(),
    ensures
        prepared(walk.root, walk.order@, opened) matches Ok((targets, has_root)) ==> has_root
            && targets.len() > 0 && targets.last() == walk.order@.len() - 1,
        (forall|i: int|
            0 <= i < opened.len() ==> (#[trigger] opened[i] is Ok || opened[i] == Err::<(), u32>(
                ERROR_INVALID_PARAMETER,
            ))) ==> prepared(walk.root, walk.order@, opened) is Ok,
{
    let order = walk.order@;
    let n = order.len() - 1;
    assert forall|i: int| 0 <= i < order.drop_last().len() implies order.drop_last()[i]
        != walk.root by {
        assert(order[i].pid != order[n].pid);
    }
    lemma_without_root(walk.root, order.drop_last(), opened.drop_last());
    if forall|i: int|
        0 <= i < opened.len() ==> (#[trigger] opened[i] is Ok || opened[i] == Err::<(), u32>(
            ERROR_INVALID_PARAMETER,
        )) {
        assert forall|i: int| 0 <= i < opened.drop_last().len() implies (
        #[trigger] opened.drop_last()[i] is Ok || opened.drop_last()[i] == Err::<(), u32>(
            ERROR_INVALID_PARAMETER,
        )) by {
            assert(opened[i] is Ok || opened[i] == Err::<(), u32>(ERROR_INVALID_PARAMETER));
        }
    }
    assert(walk.order.len() == order.len());
}

#[derive(Clone, Copy, Debug, PartialEq, Eq, Structural)]
pub enum FailedTerminationOutcome {
    AlreadyTerminated,
    Failed(u32),
}

/// A process that could not be ended has ended already if it can be waited for.
pub fn classify_failed_termination(error: u32, wait_result: u32) -> (outcome:
    FailedTerminationOutcome)
    ensures
        outcome == if wait_result == WAIT_OBJECT_0 {
            FailedTerminationOutcome::AlreadyTerminated
        } else {
            FailedTerminationOutcome::Failed(error)
        },
{
    if wait_result == WAIT_OBJECT_0 {
        FailedTerminationOutcome::AlreadyTerminated
    } else {
        FailedTerminationOutcome::Failed(error)
    }
}

/// What came of the attempt to end one process: `failure` is there if the attempt failed, and
/// holds the error and what waiting for the process returned.
#[derive(Clone, Copy, Debug, PartialEq, Eq)]
pub struct TerminationAttempt {
    pub pid: u32,
    pub failure: Option<(u32, u32)>,
}

impl TerminationAttempt {
    pub open spec fn error(self) -> u32 {
        match self.failure {
            Some((error, _)) => error,
            None => 0,
        }
    }

    pub open spec fn failed(self) -> bool {
        self.failure matches Some((_, wait_result)) && wait_result != WAIT_OBJECT_0
    }
}

#[derive(Clone, Copy, Debug, PartialEq, Eq, Structural)]
pub struct ProcessTreeTerminationOutcome {
    pub any_success: bool,
    pub any_completed: bool,
    pub any_failure: bool,
    pub root_error: u32,
}

/// The error of the last failed attempt on the root, or zero.
pub open spec fn last_root_error(root_pid: u32, attempts: Seq<TerminationAttempt>) -> u32
    decreases attempts.len(),
{
    if attempts.len() == 0 {
        0
    } else if attempts.last().failed() && attempts.last().pid == root_pid {
        attempts.last().error()
    } else {
        last_root_error(root_pid, attempts.drop_last())
    }
}

/// Sums up the attempts to end the processes of a tree.
pub fn terminate_prepared_process_tree(root_pid: u32, attempts: &Vec<TerminationAttempt>) -> (outcome:
    ProcessTreeTerminationOutcome)
    ensures
        outcome.any_success == exists|i: int|
            0 <= i < attempts@.len() && (#[trigger] attempts@[i]).failure is None,
        outcome.any_completed == exists|i: int|
            0 <= i < attempts@.len() && !(#[trigger] attempts@[i]).failed(),
        outcome.any_failure == exists|i: int|
            0 <= i < attempts@.len() && (#[trigger] attempts@[i]).failed(),
        outcome.root_error == last_root_error(root_pid, attempts@),
{
    let mut outcome = ProcessTreeTerminationOutcome {
        any_success: false,
        any_completed: false,
        any_failure: false,
        root_error: 0,
    };
    assert(attempts@.take(0) =~= Seq::<TerminationAttempt>::empty());
    for index in 0..attempts.len()
        invariant
            outcome.any_success == exists|i: int|
                0 <= i < index && (#[trigger] attempts@[i]).failure is None,
            outcome.any_completed == exists|i: int|
                0 <= i < index && !(#[trigger] attempts@[i]).failed(),
            outcome.any_failure == exists|i: int|
                0 <= i < index && (#[trigger] attempts@[i]).failed(),
            outcome.root_error == last_root_error(root_pid, attempts@.take(index as int)),
    {
        let attempt = attempts[index];
        assert(attempts@.take(index + 1).drop_last() =~= attempts@.take(index as int));
        assert(attempts@[index as int] == attempt);
        match attempt.failure {
            None => {
                outcome.any_success = true;
                outcome.any_completed = true;
            },
            Some((error, wait_result)) => match classify_failed_termination(error, wait_result) {
                FailedTerminationOutcome::AlreadyTerminated => {
                    outcome.any_completed = true;
                },
                FailedTerminationOutcome::Failed(error) => {
                    outcome.any_failure = true;
                    if attempt.pid == root_pid {
                        outcome.root_error = error;
                    }
                },
            },
        }
    }
    assert(attempts@.take(attempts@.len() as int) =~= attempts@);
    outcome
}

impl ProcessTreeTerminationOutcome {
    pub fn any_success(self) -> (any: bool)
        ensures
            any == self.any_success,
    {
        self.any_success
    }

    pub fn any_failure(self) -> (any: bool)
        ensures
            any == self.any_failure,
    {
        self.any_failure
    }

    pub fn completed_without_failure(self) -> (completed: bool)
        ensures
            completed == (self.any_completed && !self.any_failure),
    {
        self.any_completed && !self.any_failure
    }
}

} // verus!
