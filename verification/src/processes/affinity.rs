//! The processors that a process may run on.
use vstd::prelude::*;

use crate::bits::{bit_count, count_bits};
use crate::seqs::lemma_push_contains;
use crate::text::{append_chars, append_text, chars_of, decimal_chars, decimal_text, string_of};
use crate::win32::{
    error_or_gen_failure, ERROR_BUSY, ERROR_INSUFFICIENT_BUFFER, ERROR_INVALID_DATA,
    ERROR_INVALID_HANDLE, ERROR_INVALID_PARAMETER, ERROR_NOT_SUPPORTED,
};

verus! {

pub const MAX_AFFINITY_CPU: i32 = 63;

/// A group of processors: which there are, and which can be assigned.
#[derive(Clone, Copy, Debug, PartialEq, Eq, Structural)]
pub struct AffinityGroup {
    pub number: u16,
    pub processor_mask: usize,
    pub assignable_mask: usize,
}

/// The bit that stands for a processor of a group, if there is one.
pub open spec fn cpu_mask(cpu_index: int) -> usize {
    if 0 <= cpu_index < usize::BITS {
        1usize << (cpu_index as usize)
    } else {
        0
    }
}

pub fn affinity_cpu_mask(cpu_index: i32) -> (mask: usize)
    ensures
        mask == cpu_mask(cpu_index as int),
{
    if cpu_index < 0 || cpu_index as u32 >= usize::BITS {
        0
    } else {
        1usize << (cpu_index as usize)
    }
}

/// The masks with which the choice starts. `default_masks` is there if the process has default
/// processors; a process of several groups may run everywhere; any other keeps what it has.
pub open spec fn initial_masks(
    groups: Seq<AffinityGroup>,
    process_groups: Seq<u16>,
    process_mask: usize,
    system_mask: usize,
) -> Result<Seq<usize>, u32> {
    if process_groups.len() == 0 && groups.len() == 0 {
        Err(ERROR_NOT_SUPPORTED)
    } else {
        let number = if process_groups.len() > 0 {
            process_groups[0]
        } else {
            groups[0].number
        };
        match group_position(groups, number) {
            None => Err(ERROR_INVALID_DATA),
            Some(position) => {
                let selected = process_mask & system_mask & groups[position].assignable_mask;
                if selected == 0 {
                    Err(ERROR_NOT_SUPPORTED)
                } else {
                    Ok(Seq::new(groups.len(), |i: int| 0usize).update(position, selected))
                }
            },
        }
    }
}

/// The position of the first group with a number.
pub open spec fn group_position(groups: Seq<AffinityGroup>, number: u16) -> Option<int>
    decreases groups.len(),
{
    if groups.len() == 0 {
        None
    } else {
        match group_position(groups.drop_last(), number) {
            Some(position) => Some(position),
            None => if groups.last().number == number {
                Some(groups.len() - 1)
            } else {
                None
            },
        }
    }
}

proof fn lemma_group_position(groups: Seq<AffinityGroup>, number: u16)
    ensures
        match group_position(groups, number) {
            Some(position) => 0 <= position < groups.len() && groups[position].number == number && (
            forall|j: int| 0 <= j < position ==> (#[trigger] groups[j]).number != number),
            None => forall|j: int| 0 <= j < groups.len() ==> (#[trigger] groups[j]).number
                != number,
        },
    decreases groups.len(),
{
    if groups.len() > 0 {
        lemma_group_position(groups.drop_last(), number);
        assert forall|j: int| 0 <= j < groups.len() - 1 implies groups.drop_last()[j]
            == #[trigger] groups[j] by {}
    }
}

fn find_group(groups: &Vec<AffinityGroup>, number: u16) -> (position: Option<usize>)
    ensures
        match position {
            Some(position) => group_position(groups@, number) == Some(position as int) && position
                < groups@.len(),
            None => group_position(groups@, number) is None,
        },
{
    proof {
        lemma_group_position(groups@, number);
    }
    for index in 0..groups.len()
        invariant
            forall|j: int| 0 <= j < index ==> (#[trigger] groups@[j]).number != number,
    {
        if groups[index].number == number {
            proof {
                lemma_group_position(groups@, number);
                let position = group_position(groups@, number)->0;
                assert(groups@[index as int].number == number);
                if position < index {
                    assert(groups@[position].number != number);
                }
            }
            return Some(index);
        }
    }
    proof {
        lemma_group_position(groups@, number);
        if group_position(groups@, number) is Some {
            assert(groups@[group_position(groups@, number)->0].number != number);
        }
    }
    None
}

/// The masks with which the choice starts: those of the default processors of the process, if it
/// has some; everything for a process of several groups; else what it may run on now.
pub fn initial_affinity_masks(
    groups: &Vec<AffinityGroup>,
    default_masks: Option<Result<Vec<usize>, u32>>,
    process_groups: &Vec<u16>,
    process_affinity: Result<(usize, usize), u32>,
) -> (outcome: Result<Vec<usize>, u32>)
    ensures
        match default_masks {
            Some(masks) => outcome == masks,
            None => if groups@.len() > 1 && process_groups@.len() > 1 {
                outcome matches Ok(masks) && masks@ == groups@.map_values(
                    |group: AffinityGroup| group.assignable_mask,
                )
            } else {
                match process_affinity {
                    Err(error) => outcome == Err::<Vec<usize>, u32>(error),
                    Ok((process_mask, system_mask)) => match initial_masks(
                        groups@,
                        process_groups@,
                        process_mask,
                        system_mask,
                    ) {
                        Err(error) => outcome == Err::<Vec<usize>, u32>(error),
                        Ok(masks) => outcome matches Ok(found) && found@ == masks,
                    },
                }
            },
        },
{
    if let Some(masks) = default_masks {
        return masks;
    }
    let count: usize = groups.len();
    let mut masks: Vec<usize> = Vec::new();
    if count > 1 && process_groups.len() > 1 {
        for index in 0..count
            invariant
                count == groups@.len(),
                masks@ =~= groups@.take(index as int).map_values(
                    |group: AffinityGroup| group.assignable_mask,
                ),
        {
            masks.push(groups[index].assignable_mask);
        }
        assert(groups@.take(count as int) =~= groups@);
        return Ok(masks);
    }
    let (process_mask, system_mask): (usize, usize) = match process_affinity {
        Ok(affinity) => affinity,
        Err(error) => return Err(error),
    };
    let number: u16 = if process_groups.len() > 0 {
        process_groups[0]
    } else if count > 0 {
        groups[0].number
    } else {
        return Err(ERROR_NOT_SUPPORTED);
    };
    let position: usize = match find_group(groups, number) {
        Some(position) => position,
        None => return Err(ERROR_INVALID_DATA),
    };
    let selected: usize = process_mask & system_mask & groups[position].assignable_mask;
    if selected == 0 {
        return Err(ERROR_NOT_SUPPORTED);
    }
    for index in 0..count
        invariant
            masks@ =~= Seq::new(index as nat, |i: int| 0usize),
    {
        masks.push(0);
    }
    masks.set(position, selected);
    Ok(masks)
}

/// The first group of which something is selected.
pub fn first_selected_group(masks: &Vec<usize>) -> (position: usize)
    ensures
        (forall|i: int| 0 <= i < masks@.len() ==> masks@[i] == 0) ==> position == 0,
        (exists|i: int| 0 <= i < masks@.len() && masks@[i] != 0) ==> position < masks@.len()
            && masks@[position as int] != 0 && forall|i: int|
            0 <= i < position ==> masks@[i] == 0,
{
    for index in 0..masks.len()
        invariant
            forall|i: int| 0 <= i < index ==> masks@[i] == 0,
    {
        if masks[index] != 0 {
            return index;
        }
    }
    0
}

/// The groups of which something is selected, with what is.
pub open spec fn selection(groups: Seq<AffinityGroup>, masks: Seq<usize>) -> Seq<(u16, usize)>
    decreases groups.len(),
{
    if groups.len() == 0 {
        Seq::empty()
    } else {
        let earlier = selection(groups.drop_last(), masks);
        let mask = masks[groups.len() - 1];
        if mask != 0 {
            earlier.push((groups.last().number, mask))
        } else {
            earlier
        }
    }
}

fn selected_groups(groups: &Vec<AffinityGroup>, masks: &Vec<usize>) -> (selected: Vec<(u16, usize)>)
    requires
        groups@.len() == masks@.len(),
    ensures
        selected@ == selection(groups@, masks@),
{
    let mut selected: Vec<(u16, usize)> = Vec::new();
    assert(groups@.take(0) =~= Seq::<AffinityGroup>::empty());
    for index in 0..groups.len()
        invariant
            groups@.len() == masks@.len(),
            selected@ == selection(groups@.take(index as int), masks@),
    {
        assert(groups@.take(index + 1).drop_last() =~= groups@.take(index as int));
        if masks[index] != 0 {
            selected.push((groups[index].number, masks[index]));
        }
    }
    assert(groups@.take(groups@.len() as int) =~= groups@);
    selected
}

/// How a selection takes effect.
pub enum AffinityPlan {
    /// There is one group: the process has no default processors and this mask.
    Process(usize),
    /// There are several: the process has these default processors, and its threads are spread
    /// over the groups.
    Threads(Vec<u32>, Vec<(u16, usize)>),
}

/// Decides how a selection takes effect, given the identifiers of the selected processors.
pub fn plan_affinity(
    selected_ids: Result<Vec<u32>, u32>,
    groups: &Vec<AffinityGroup>,
    masks: &Vec<usize>,
) -> (outcome: Result<AffinityPlan, u32>)
    requires
        groups@.len() == masks@.len(),
    ensures
        match selected_ids {
            Err(error) => outcome == Err::<AffinityPlan, u32>(error),
            Ok(ids) => if ids@.len() == 0 {
                outcome == Err::<AffinityPlan, u32>(ERROR_INVALID_PARAMETER)
            } else if groups@.len() == 1 {
                outcome == Ok::<AffinityPlan, u32>(AffinityPlan::Process(masks@[0]))
            } else {
                outcome matches Ok(AffinityPlan::Threads(defaults, selected)) && defaults == ids
                    && selected@ == selection(groups@, masks@)
            },
        },
{
    match selected_ids {
        Err(error) => Err(error),
        Ok(ids) => {
            if ids.len() == 0 {
                Err(ERROR_INVALID_PARAMETER)
            } else if groups.len() == 1 {
                Ok(AffinityPlan::Process(masks[0]))
            } else {
                Ok(AffinityPlan::Threads(ids, selected_groups(groups, masks)))
            }
        },
    }
}

/// What is selected of a group: of the first entry for it.
pub open spec fn selected_mask_of(selected: Seq<(u16, usize)>, group: u16) -> Option<usize>
    decreases selected.len(),
{
    if selected.len() == 0 {
        None
    } else if selected[0].0 == group {
        Some(selected[0].1)
    } else {
        selected_mask_of(selected.drop_first(), group)
    }
}

/// Whether a thread only runs on selected processors.
pub open spec fn within_selection(selected: Seq<(u16, usize)>, group: u16, mask: usize) -> bool {
    mask != 0 && (selected_mask_of(selected, group) matches Some(allowed) && mask & !allowed == 0)
}

pub fn affinity_is_within_selection(group: u16, mask: usize, selected_groups: &[(u16, usize)]) -> (within:
    bool)
    ensures
        within == within_selection(selected_groups@, group, mask),
{
    if mask == 0 {
        return false;
    }
    assert(selected_groups@.skip(0) =~= selected_groups@);
    for index in 0..selected_groups.len()
        invariant
            mask != 0,
            selected_mask_of(selected_groups@, group) == selected_mask_of(
                selected_groups@.skip(index as int),
                group,
            ),
    {
        let (selected_group, selected_mask): (u16, usize) = selected_groups[index];
        assert(selected_groups@.skip(index as int)[0] == selected_groups@[index as int]);
        assert(selected_groups@.skip(index as int).drop_first() =~= selected_groups@.skip(
            index + 1,
        ));
        if selected_group == group {
            return mask & !selected_mask == 0;
        }
    }
    assert(selected_groups@.skip(selected_groups@.len() as int) =~= Seq::<(u16, usize)>::empty());
    false
}

/// Where a thread runs: the threads take the selected groups in turn.
pub fn affinity_target_for_thread(thread_index: usize, selected_groups: &[(u16, usize)]) -> (target:
    Option<(u16, usize)>)
    ensures
        target == if selected_groups@.len() == 0 {
            None
        } else {
            Some(selected_groups@[thread_index as int % selected_groups@.len() as int])
        },
{
    if selected_groups.len() == 0 {
        None
    } else {
        Some(selected_groups[thread_index % selected_groups.len()])
    }
}

proof fn lemma_mask_within_itself(mask: usize)
    ensures
        mask & !mask == 0,
{
    assert(mask & !mask == 0) by (bit_vector);
}

proof fn lemma_selection_entries(groups: Seq<AffinityGroup>, masks: Seq<usize>)
    requires
        groups.len() <= masks.len(),
        forall|i: int, j: int|
            0 <= i < j < groups.len() ==> (#[trigger] groups[i]).number != (
            #[trigger] groups[j]).number,
    ensures
        forall|k: int|
            0 <= k < selection(groups, masks).len() ==> (#[trigger] selection(groups, masks)[k]).1
                != 0,
        forall|k: int|
            0 <= k < selection(groups, masks).len() ==> exists|i: int|
                0 <= i < groups.len() && (#[trigger] groups[i]).number == (
                #[trigger] selection(groups, masks)[k]).0,
        forall|j: int, k: int|
            0 <= j < k < selection(groups, masks).len() ==> (
            #[trigger] selection(groups, masks)[j]).0 != (#[trigger] selection(groups, masks)[k]).0,
    decreases groups.len(),
{
    if groups.len() > 0 {
        let front = groups.drop_last();
        let n = groups.len() - 1;
        assert forall|i: int| 0 <= i < n implies front[i] == #[trigger] groups[i] by {}
        lemma_selection_entries(front, masks);
        let earlier = selection(front, masks);
        let whole = selection(groups, masks);
        assert forall|k: int| 0 <= k < whole.len() implies exists|i: int|
            0 <= i < groups.len() && (#[trigger] groups[i]).number == (#[trigger] whole[k]).0 by {
            if k < earlier.len() {
                assert(whole[k] == earlier[k]);
                let i = choose|i: int|
                    0 <= i < front.len() && (#[trigger] front[i]).number == earlier[k].0;
                assert(groups[i].number == whole[k].0);
            } else {
                assert(groups[n].number == whole[k].0);
            }
        }
        assert forall|j: int, k: int| 0 <= j < k < whole.len() implies (#[trigger] whole[j]).0 != (
        #[trigger] whole[k]).0 by {
            assert(whole[j] == earlier[j]);
            if k < earlier.len() {
                assert(whole[k] == earlier[k]);
                assert(earlier[j].0 != earlier[k].0);
            } else {
                let i = choose|i: int|
                    0 <= i < front.len() && (#[trigger] front[i]).number == earlier[j].0;
                assert(groups[i].number != groups[n].number);
            }
        }
    }
}

proof fn lemma_entry_is_found(selected: Seq<(u16, usize)>, k: int)
    requires
        0 <= k < selected.len(),
        forall|i: int, j: int|
            0 <= i < j < selected.len() ==> (#[trigger] selected[i]).0 != (
            #[trigger] selected[j]).0,
    ensures
        selected_mask_of(selected, selected[k].0) == Some(selected[k].1),
    decreases selected.len(),
{
    if k > 0 {
        let rest = selected.drop_first();
        assert(selected[0].0 != selected[k].0);
        assert forall|i: int, j: int| 0 <= i < j < rest.len() implies (#[trigger] rest[i]).0 != (
        #[trigger] rest[j]).0 by {
            assert(selected[i + 1].0 != selected[j + 1].0);
        }
        assert(rest[k - 1] == selected[k]);
        lemma_entry_is_found(rest, k - 1);
    }
}

/// Every thread is sent to where the selection lets it run.
pub proof fn targets_lie_within_the_selection(
    groups: Seq<AffinityGroup>,
    masks: Seq<usize>,
    thread_index: usize,
)
    requires
        groups.len() == masks.len(),
        forall|i: int, j: int|
            0 <= i < j < groups.len() ==> (#[trigger] groups[i]).number != (
            #[trigger] groups[j]).number,
        selection(groups, masks).len() > 0,
    ensures
        ({
            let selected = selection(groups, masks);
            let target = selected[thread_index as int % selected.len() as int];
            within_selection(selected, target.0, target.1)
        }),
{
    let selected = selection(groups, masks);
    let k = thread_index as int % selected.len() as int;
    lemma_selection_entries(groups, masks);
    lemma_entry_is_found(selected, k);
    assert(selected[k].1 != 0);
    lemma_mask_within_itself(selected[k].1);
}

/// A thread that was moved, and where it ran before: the group, and the mask within it.
#[derive(Clone, Copy, Debug, PartialEq, Eq)]
pub struct MovedThread {
    pub thread_id: u32,
    pub previous: (u16, usize),
}

pub open spec fn moved_ids(moved: Seq<MovedThread>) -> Seq<u32> {
    moved.map_values(|thread: MovedThread| thread.thread_id)
}

/// The threads of a process while they are sent to the selected groups: how many were given a
/// target, and which were moved, in order.
pub struct ThreadAssignment {
    pub selected: Vec<(u16, usize)>,
    pub assignment_index: usize,
    pub changed: Vec<MovedThread>,
}

/// Whether an error at the opening of a thread means that the thread is gone.
pub open spec fn thread_is_gone(error: u32) -> bool {
    error == ERROR_INVALID_HANDLE || error == ERROR_INVALID_PARAMETER
}

/// Decides on a thread that could not be opened: it is skipped if it is gone.
pub fn skip_unopened_thread(error: u32) -> (outcome: Result<(), u32>)
    ensures
        outcome == if thread_is_gone(error) {
            Ok::<(), u32>(())
        } else {
            Err(error)
        },
{
    if error == ERROR_INVALID_HANDLE || error == ERROR_INVALID_PARAMETER {
        Ok(())
    } else {
        Err(error)
    }
}

impl ThreadAssignment {
    pub fn new(selected: Vec<(u16, usize)>) -> (outcome: Result<Self, u32>)
        ensures
            if selected@.len() == 0 {
                outcome == Err::<Self, u32>(ERROR_INVALID_PARAMETER)
            } else {
                outcome matches Ok(assignment) && assignment.selected == selected
                    && assignment.assignment_index == 0 && assignment.changed@.len() == 0
            },
    {
        if selected.len() == 0 {
            Err(ERROR_INVALID_PARAMETER)
        } else {
            Ok(ThreadAssignment { selected, assignment_index: 0, changed: Vec::new() })
        }
    }

    /// The target of an opened thread, which has to belong to the process.
    pub fn target(&mut self, process_id: u32, owner_id: u32) -> (outcome: Result<(u16, usize), u32>)
        requires
            old(self).selected@.len() > 0,
            old(self).assignment_index < usize::MAX,
        ensures
            final(self).selected == old(self).selected,
            final(self).changed == old(self).changed,
            if owner_id != process_id {
                outcome == Err::<(u16, usize), u32>(ERROR_INVALID_DATA)
                    && final(self).assignment_index == old(self).assignment_index
            } else {
                outcome == Ok::<(u16, usize), u32>(
                    old(self).selected@[old(self).assignment_index as int % old(
                        self,
                    ).selected@.len() as int],
                ) && final(self).assignment_index == old(self).assignment_index + 1
            },
    {
        if owner_id != process_id {
            return Err(ERROR_INVALID_DATA);
        }
        match affinity_target_for_thread(self.assignment_index, self.selected.as_slice()) {
            None => Err(ERROR_INVALID_PARAMETER),
            Some(target) => {
                self.assignment_index = self.assignment_index + 1;
                Ok(target)
            },
        }
    }

    /// Notes whether a thread was moved, and where it ran before. One that ended in the meantime is
    /// skipped.
    pub fn record(&mut self, thread_id: u32, moved: Result<(u16, usize), u32>) -> (outcome: Result<
        (),
        u32,
    >)
        ensures
            final(self).selected == old(self).selected,
            final(self).assignment_index == old(self).assignment_index,
            final(self).changed@ == match moved {
                Ok(previous) => old(self).changed@.push(MovedThread { thread_id, previous }),
                Err(_) => old(self).changed@,
            },
            outcome == match moved {
                Err(error) if error != ERROR_INVALID_HANDLE => Err::<(), u32>(error),
                _ => Ok(()),
            },
    {
        match moved {
            Ok(previous) => {
                self.changed.push(MovedThread { thread_id, previous });
                Ok(())
            },
            Err(error) => if error == ERROR_INVALID_HANDLE {
                Ok(())
            } else {
                Err(error)
            },
        }
    }

    /// Checks that some thread was moved.
    pub fn check_moved(&self) -> (outcome: Result<(), u32>)
        ensures
            outcome == if self.changed@.len() == 0 {
                Err::<(), u32>(ERROR_NOT_SUPPORTED)
            } else {
                Ok(())
            },
    {
        if self.changed.len() == 0 {
            Err(ERROR_NOT_SUPPORTED)
        } else {
            Ok(())
        }
    }

    /// Whether a thread that is there after the moves was not moved itself.
    pub fn needs_check(&self, thread_id: u32) -> (needed: bool)
        ensures
            needed == !moved_ids(self.changed@).contains(thread_id),
    {
        let ghost ids = moved_ids(self.changed@);
        for index in 0..self.changed.len()
            invariant
                ids == moved_ids(self.changed@),
                forall|i: int| 0 <= i < index ==> #[trigger] ids[i] != thread_id,
        {
            assert(ids[index as int] == self.changed@[index as int].thread_id);
            if self.changed[index].thread_id == thread_id {
                return false;
            }
        }
        true
    }

    /// What is moved back after the moves and checks had this outcome: on a failure every thread
    /// that was moved, the last one first.
    pub fn moves_to_undo(&self, outcome: Result<(), u32>) -> (undo: Vec<MovedThread>)
        ensures
            undo@ == if outcome is Ok {
                Seq::<MovedThread>::empty()
            } else {
                self.changed@.reverse()
            },
    {
        let mut undo: Vec<MovedThread> = Vec::new();
        if outcome.is_ok() {
            assert(undo@ =~= Seq::<MovedThread>::empty());
            return undo;
        }
        let count: usize = self.changed.len();
        for done in 0..count
            invariant
                count == self.changed@.len(),
                undo@ =~= self.changed@.reverse().take(done as int),
        {
            undo.push(self.changed[count - 1 - done]);
        }
        assert(undo@ =~= self.changed@.reverse());
        undo
    }

    /// Checks a thread that appeared during the moves: it belongs to the process, and runs on
    /// selected processors only.
    pub fn check_racing_thread(
        &self,
        process_id: u32,
        owner_id: u32,
        affinity: Result<(u16, usize), u32>,
    ) -> (outcome: Result<(), u32>)
        ensures
            outcome == if owner_id != process_id {
                Err::<(), u32>(ERROR_INVALID_DATA)
            } else {
                match affinity {
                    Err(error) => Err(error),
                    Ok((group, mask)) => if within_selection(self.selected@, group, mask) {
                        Ok(())
                    } else {
                        Err(ERROR_BUSY)
                    },
                }
            },
    {
        if owner_id != process_id {
            return Err(ERROR_INVALID_DATA);
        }
        match affinity {
            Err(error) => Err(error),
            Ok((group, mask)) => {
                if affinity_is_within_selection(group, mask, self.selected.as_slice()) {
                    Ok(())
                } else {
                    Err(ERROR_BUSY)
                }
            },
        }
    }
}

impl AffinityPlan {
    /// The default processors that the process gets before anything else.
    pub fn default_sets(&self) -> (ids: Vec<u32>)
        ensures
            ids@ == match *self {
                AffinityPlan::Process(_) => Seq::<u32>::empty(),
                AffinityPlan::Threads(ids, _) => ids@,
            },
    {
        match self {
            AffinityPlan::Process(_) => {
                let ids: Vec<u32> = Vec::new();
                assert(ids@ =~= Seq::<u32>::empty());
                ids
            },
            AffinityPlan::Threads(ids, _) => copied_ids(ids),
        }
    }
}

fn copied_ids(ids: &Vec<u32>) -> (copied: Vec<u32>)
    ensures
        copied@ == ids@,
{
    let mut copied: Vec<u32> = Vec::new();
    for index in 0..ids.len()
        invariant
            copied@ =~= ids@.take(index as int),
    {
        copied.push(ids[index]);
    }
    assert(copied@ =~= ids@);
    copied
}

/// The steps in which a selection takes effect.
#[derive(Clone, Copy, Debug, PartialEq, Eq, Structural)]
pub enum AffinityStage {
    /// The process gets other default processors.
    DefaultSets,
    /// The process, or its threads, are bound to the selected processors.
    Processors,
}

/// The default processors that the process gets back after a step had this outcome: those that it
/// had, if they were replaced and what followed failed. Threads are moved back before.
pub fn sets_to_restore(
    stage: AffinityStage,
    outcome: Result<(), u32>,
    original_ids: &Vec<u32>,
) -> (ids: Option<Vec<u32>>)
    ensures
        match ids {
            Some(ids) => stage == AffinityStage::Processors && outcome is Err && ids@
                == original_ids@,
            None => stage == AffinityStage::DefaultSets || outcome is Ok,
        },
{
    if stage == AffinityStage::Processors && outcome.is_err() {
        Some(copied_ids(original_ids))
    } else {
        None
    }
}

/// Where the threads run after some moves, each of a thread to a group and a mask.
pub open spec fn after_moves(
    affinities: Map<u32, (u16, usize)>,
    moves: Seq<(u32, (u16, usize))>,
) -> Map<u32, (u16, usize)>
    decreases moves.len(),
{
    if moves.len() == 0 {
        affinities
    } else {
        after_moves(affinities, moves.drop_last()).insert(moves.last().0, moves.last().1)
    }
}

/// What is noted of some moves.
pub open spec fn noted_moves(
    affinities: Map<u32, (u16, usize)>,
    moves: Seq<(u32, (u16, usize))>,
) -> Seq<MovedThread>
    decreases moves.len(),
{
    if moves.len() == 0 {
        Seq::empty()
    } else {
        noted_moves(affinities, moves.drop_last()).push(
            MovedThread {
                thread_id: moves.last().0,
                previous: after_moves(affinities, moves.drop_last())[moves.last().0],
            },
        )
    }
}

/// The moves that bring threads back to where they ran before, in the order given.
pub open spec fn moves_back(undo: Seq<MovedThread>) -> Seq<(u32, (u16, usize))> {
    undo.map_values(|thread: MovedThread| (thread.thread_id, thread.previous))
}

proof fn lemma_first_move(
    affinities: Map<u32, (u16, usize)>,
    first: (u32, (u16, usize)),
    rest: Seq<(u32, (u16, usize))>,
)
    ensures
        after_moves(affinities, seq![first] + rest) == after_moves(
            affinities.insert(first.0, first.1),
            rest,
        ),
    decreases rest.len(),
{
    let all = seq![first] + rest;
    assert(all.len() == rest.len() + 1);
    if rest.len() == 0 {
        assert(all.drop_last() =~= Seq::<(u32, (u16, usize))>::empty());
        assert(all.last() == first);
        assert(after_moves(affinities, all.drop_last()) == affinities);
    } else {
        assert(all.last() == rest.last());
        assert(all.drop_last() =~= seq![first] + rest.drop_last());
        lemma_first_move(affinities, first, rest.drop_last());
    }
}

/// Moving the threads back, the last one first, leaves every thread where it ran before, even if
/// one was moved several times.
pub proof fn undone_moves_leave_no_trace(
    affinities: Map<u32, (u16, usize)>,
    moves: Seq<(u32, (u16, usize))>,
)
    requires
        forall|i: int| 0 <= i < moves.len() ==> affinities.contains_key((#[trigger] moves[i]).0),
    ensures
        after_moves(
            after_moves(affinities, moves),
            moves_back(noted_moves(affinities, moves).reverse()),
        ) == affinities,
    decreases moves.len(),
{
    let undo = moves_back(noted_moves(affinities, moves).reverse());
    if moves.len() == 0 {
        assert(undo =~= Seq::<(u32, (u16, usize))>::empty());
    } else {
        let earlier = moves.drop_last();
        let before = after_moves(affinities, earlier);
        let moved = moves.last();
        let noted = noted_moves(affinities, earlier);
        assert forall|i: int| 0 <= i < earlier.len() implies affinities.contains_key(
            (#[trigger] earlier[i]).0,
        ) by {
            assert(earlier[i] == moves[i]);
        }
        undone_moves_leave_no_trace(affinities, earlier);
        lemma_moves_keep_threads(affinities, earlier);
        assert(affinities.contains_key(moves[moves.len() - 1].0));
        let back = moves_back(noted.reverse());
        let first = (moved.0, before[moved.0]);
        assert(undo =~= seq![first] + back);
        lemma_first_move(after_moves(affinities, moves), first, back);
        assert(after_moves(affinities, moves).insert(first.0, first.1) =~= before);
    }
}

proof fn lemma_moves_keep_threads(
    affinities: Map<u32, (u16, usize)>,
    moves: Seq<(u32, (u16, usize))>,
)
    ensures
        forall|id: u32| affinities.contains_key(id) ==> #[trigger] after_moves(
            affinities,
            moves,
        ).contains_key(id),
    decreases moves.len(),
{
    if moves.len() > 0 {
        let before = after_moves(affinities, moves.drop_last());
        lemma_moves_keep_threads(affinities, moves.drop_last());
        assert forall|id: u32| affinities.contains_key(id) implies #[trigger] after_moves(
            affinities,
            moves,
        ).contains_key(id) by {
            assert(before.contains_key(id));
        }
    }
}

pub open spec fn rises(list: Seq<u32>) -> bool {
    forall|i: int, j: int| 0 <= i < j < list.len() ==> list[i] < list[j]
}

fn insert_rising(list: &mut Vec<u32>, value: u32)
    requires
        rises(old(list)@),
    ensures
        rises(final(list)@),
        forall|x: u32| #[trigger]
            final(list)@.contains(x) <==> old(list)@.contains(x) || x == value,
{
    let count: usize = list.len();
    let mut position: usize = 0;
    while position < count && list[position] < value
        invariant
            count == list@.len(),
            position <= count,
            forall|i: int| 0 <= i < position ==> list@[i] < value,
        decreases count - position,
    {
        position = position + 1;
    }
    if position < count && list[position] == value {
        assert(list@.contains(value));
        return;
    }
    list.insert(position, value);
    proof {
        let before = old(list)@;
        let after = list@;
        assert(after == before.insert(position as int, value));
        assert forall|x: u32| #[trigger] after.contains(x) <==> before.contains(x) || x == value by {
            if before.contains(x) {
                let i = choose|i: int| 0 <= i < before.len() && before[i] == x;
                if i < position {
                    assert(after[i] == x);
                } else {
                    assert(after[i + 1] == x);
                }
            }
            if x == value {
                assert(after[position as int] == x);
            }
            if after.contains(x) && x != value {
                let i = choose|i: int| 0 <= i < after.len() && after[i] == x;
                if i < position {
                    assert(before[i] == x);
                } else {
                    assert(before[i - 1] == x);
                }
            }
        }
    }
}

/// The numbers of a list, each once, from the smallest to the largest.
pub fn sorted_once(list: &Vec<u32>) -> (sorted: Vec<u32>)
    ensures
        rises(sorted@),
        forall|x: u32| #[trigger] sorted@.contains(x) <==> list@.contains(x),
{
    let mut sorted: Vec<u32> = Vec::new();
    for index in 0..list.len()
        invariant
            rises(sorted@),
            forall|x: u32| #[trigger] sorted@.contains(x) <==> list@.take(index as int).contains(x),
    {
        insert_rising(&mut sorted, list[index]);
        proof {
            assert(list@.take(index + 1) =~= list@.take(index as int).push(list@[index as int]));
            lemma_push_contains(list@.take(index as int), list@[index as int]);
        }
    }
    assert(list@.take(list@.len() as int) =~= list@);
    sorted
}

/// A thread of the system: its identifier and that of its process.
#[derive(Clone, Copy, Debug, PartialEq, Eq, Structural)]
pub struct SnapshotThread {
    pub thread_id: u32,
    pub owner_id: u32,
}

/// The threads of a process, each once, from the smallest identifier to the largest.
pub fn process_threads(threads: &Vec<SnapshotThread>, process_id: u32) -> (ids: Vec<u32>)
    ensures
        rises(ids@),
        forall|id: u32| #[trigger]
            ids@.contains(id) <==> threads@.contains(
                SnapshotThread { thread_id: id, owner_id: process_id },
            ),
{
    let mut owned: Vec<u32> = Vec::new();
    for index in 0..threads.len()
        invariant
            forall|id: u32| #[trigger]
                owned@.contains(id) <==> threads@.take(index as int).contains(
                    SnapshotThread { thread_id: id, owner_id: process_id },
                ),
    {
        let thread = threads[index];
        let ghost before = owned@;
        if thread.owner_id == process_id {
            owned.push(thread.thread_id);
        }
        proof {
            assert(threads@.take(index + 1) =~= threads@.take(index as int).push(thread));
            lemma_push_contains(threads@.take(index as int), thread);
            lemma_push_contains(before, thread.thread_id);
        }
    }
    assert(threads@.take(threads@.len() as int) =~= threads@);
    sorted_once(&owned)
}

/// The groups of a process, each once, from the smallest number to the largest.
fn sorted_groups(list: &Vec<u16>) -> (sorted: Vec<u16>)
    ensures
        forall|i: int, j: int| 0 <= i < j < sorted@.len() ==> sorted@[i] < sorted@[j],
        forall|x: u16| #[trigger] sorted@.contains(x) <==> list@.contains(x),
{
    let mut wide: Vec<u32> = Vec::new();
    for index in 0..list.len()
        invariant
            wide@ =~= list@.take(index as int).map_values(|x: u16| x as u32),
    {
        wide.push(list[index] as u32);
    }
    assert(list@.take(list@.len() as int) =~= list@);
    let ordered = sorted_once(&wide);
    proof {
        assert forall|i: int| 0 <= i < ordered@.len() implies #[trigger] ordered@[i] <= 0xFFFF by {
            assert(ordered@.contains(ordered@[i]));
            let k = choose|k: int| 0 <= k < wide@.len() && wide@[k] == ordered@[i];
            assert(wide@[k] == list@[k] as u32);
        }
    }
    let mut sorted: Vec<u16> = Vec::new();
    for index in 0..ordered.len()
        invariant
            forall|i: int| 0 <= i < ordered@.len() ==> #[trigger] ordered@[i] <= 0xFFFF,
            sorted@.len() == index,
            forall|i: int| 0 <= i < index ==> #[trigger] sorted@[i] as u32 == ordered@[i],
    {
        sorted.push(ordered[index] as u16);
    }
    proof {
        assert forall|x: u16| #[trigger] sorted@.contains(x) <==> list@.contains(x) by {
            if sorted@.contains(x) {
                let i = choose|i: int| 0 <= i < sorted@.len() && sorted@[i] == x;
                assert(ordered@.contains(ordered@[i]));
                let k = choose|k: int| 0 <= k < wide@.len() && wide@[k] == ordered@[i];
                assert(wide@[k] == list@[k] as u32);
                assert(list@[k] == x);
            }
            if list@.contains(x) {
                let k = choose|k: int| 0 <= k < list@.len() && list@[k] == x;
                assert(wide@[k] == x as u32);
                assert(wide@.contains(x as u32));
                assert(ordered@.contains(x as u32));
                let i = choose|i: int| 0 <= i < ordered@.len() && ordered@[i] == x as u32;
                assert(sorted@[i] == x);
            }
        }
    }
    sorted
}

/// What to do after the question for the groups of a process.
pub enum GroupQueryStep {
    /// Ask again, with room for this many groups.
    Ask(u16),
    Done(Vec<u16>),
    Fail(u32),
}

/// Decides on the answer to the first question, which has no room for any group and so has to
/// fail and to tell how many there are.
pub fn first_group_answer(succeeded: bool, error: u32, required: u16) -> (step: GroupQueryStep)
    ensures
        step == if succeeded {
            GroupQueryStep::Fail(ERROR_INVALID_DATA)
        } else if error == ERROR_INSUFFICIENT_BUFFER && required > 0 {
            GroupQueryStep::Ask(required)
        } else if error == 0 {
            GroupQueryStep::Fail(crate::win32::ERROR_GEN_FAILURE)
        } else {
            GroupQueryStep::Fail(error)
        },
{
    if succeeded {
        GroupQueryStep::Fail(ERROR_INVALID_DATA)
    } else if error != ERROR_INSUFFICIENT_BUFFER || required == 0 {
        GroupQueryStep::Fail(error_or_gen_failure(error))
    } else {
        GroupQueryStep::Ask(required)
    }
}

/// How many groups the storage for `required` holds: it is made of words of two.
pub open spec fn group_capacity(required: u16) -> int {
    (required + 1) / 2 * 2
}

/// The room that is announced for `required` groups.
pub fn announced_room(required: u16) -> (room: u16)
    ensures
        room == if group_capacity(required) <= u16::MAX {
            group_capacity(required)
        } else {
            u16::MAX as int
        },
{
    let capacity: u32 = (required as u32 + 1) / 2 * 2;
    if capacity <= 0xFFFF {
        capacity as u16
    } else {
        0xFFFF
    }
}

/// Decides on the answer to a later question, made with room for `required` groups. `storage` is
/// what the system wrote.
pub fn group_answer(
    succeeded: bool,
    error: u32,
    required: u16,
    returned: u16,
    storage: &Vec<u16>,
) -> (step: GroupQueryStep)
    requires
        storage@.len() == group_capacity(required),
    ensures
        if succeeded {
            if returned == 0 || returned > group_capacity(required) {
                step == GroupQueryStep::Fail(ERROR_INVALID_DATA)
            } else {
                step matches GroupQueryStep::Done(groups) && (forall|i: int, j: int|
                    0 <= i < j < groups@.len() ==> groups@[i] < groups@[j]) && (forall|x: u16|
                 #[trigger]
                    groups@.contains(x) <==> storage@.take(returned as int).contains(x))
            }
        } else if error == ERROR_INSUFFICIENT_BUFFER && returned > required {
            step == GroupQueryStep::Ask(returned)
        } else if error == 0 {
            step == GroupQueryStep::Fail(crate::win32::ERROR_GEN_FAILURE)
        } else {
            step == GroupQueryStep::Fail(error)
        },
{
    if succeeded {
        if returned == 0 || returned as usize > storage.len() {
            return GroupQueryStep::Fail(ERROR_INVALID_DATA);
        }
        let mut groups: Vec<u16> = Vec::new();
        for index in 0..returned as usize
            invariant
                returned <= storage@.len(),
                groups@ =~= storage@.take(index as int),
        {
            groups.push(storage[index]);
        }
        return GroupQueryStep::Done(sorted_groups(&groups));
    }
    if error != ERROR_INSUFFICIENT_BUFFER || returned <= required {
        GroupQueryStep::Fail(error_or_gen_failure(error))
    } else {
        GroupQueryStep::Ask(returned)
    }
}

/// The choice of processors, one group of them at a time.
pub struct AffinityChoice {
    pub groups: Vec<AffinityGroup>,
    pub selected_masks: Vec<usize>,
    pub selected_group_index: usize,
}

/// A box for one processor.
pub struct ProcessorBox {
    pub label: String,
    pub enabled: bool,
    pub checked: bool,
}

/// The name of a group in the list of groups; with several groups it tells their sizes.
pub open spec fn group_label(group: AffinityGroup, several: bool) -> Seq<char> {
    if several {
        "G"@ + decimal_text(group.number as nat) + " ("@ + decimal_text(
            bit_count(group.processor_mask as u64),
        ) + ")"@
    } else {
        "G"@ + decimal_text(group.number as nat)
    }
}

/// The name of a processor; with several groups it tells the group.
pub open spec fn processor_label(group: AffinityGroup, several: bool, cpu_index: int) -> Seq<char> {
    if several {
        "G"@ + decimal_text(group.number as nat) + ":CPU "@ + decimal_text(cpu_index as nat)
    } else {
        "CPU "@ + decimal_text(cpu_index as nat)
    }
}

/// What the boxes that are checked stand for, of the processors below `count`.
pub open spec fn checked_mask(checked: Seq<bool>, assignable: usize, count: int) -> usize
    decreases count,
{
    if count <= 0 {
        0
    } else {
        let earlier = checked_mask(checked, assignable, count - 1);
        let mask = cpu_mask(count - 1);
        if assignable & mask != 0 && checked[count - 1] {
            earlier | mask
        } else {
            earlier
        }
    }
}

/// All processors below `count`.
spec fn all_below(count: int) -> usize {
    if count < usize::BITS {
        ((1usize << (count as usize)) - 1) as usize
    } else {
        !0usize
    }
}

proof fn lemma_all_below(count: usize)
    requires
        count < usize::BITS,
    ensures
        all_below(count + 1) == all_below(count as int) | (1usize << count),
{
    let next = (count + 1) as usize;
    assert(1usize << count >= 1) by (bit_vector)
        requires
            count < usize::BITS,
    ;
    if next < usize::BITS {
        assert(1usize << next >= 1) by (bit_vector)
            requires
                next < usize::BITS,
        ;
        assert(((1usize << next) - 1) as usize == (((1usize << count) - 1) as usize) | (1usize
            << count)) by (bit_vector)
            requires
                next == count + 1,
                next < usize::BITS,
        ;
    } else {
        assert((((1usize << count) - 1) as usize) | (1usize << count) == !0usize) by (bit_vector)
            requires
                count == usize::BITS - 1,
        ;
    }
}

/// Which boxes are checked for a selection.
pub open spec fn boxes_for(selected: usize, assignable: usize) -> Seq<bool> {
    Seq::new(
        (MAX_AFFINITY_CPU + 1) as nat,
        |i: int| assignable & cpu_mask(i) != 0 && selected & cpu_mask(i) != 0,
    )
}

proof fn lemma_checked_mask(selected: usize, assignable: usize, count: int)
    requires
        0 <= count <= MAX_AFFINITY_CPU + 1,
    ensures
        checked_mask(boxes_for(selected, assignable), assignable, count) == (selected & assignable)
            & all_below(count),
    decreases count,
{
    if count == 0 {
        assert((selected & assignable) & (((1usize << 0usize) - 1) as usize) == 0) by (bit_vector);
    } else {
        let last = (count - 1) as usize;
        let below = all_below(count - 1);
        let mask = cpu_mask(count - 1);
        lemma_checked_mask(selected, assignable, count - 1);
        if last < usize::BITS {
            lemma_all_below(last);
            assert(if assignable & (1usize << last) != 0 && selected & (1usize << last) != 0 {
                ((selected & assignable) & below) | (1usize << last) == (selected & assignable) & (
                below | (1usize << last))
            } else {
                (selected & assignable) & below == (selected & assignable) & (below | (1usize
                    << last))
            }) by (bit_vector)
                requires
                    last < usize::BITS,
            ;
        } else {
            assert(assignable & 0usize == 0) by (bit_vector);
        }
    }
}

/// Boxes that are taken over as they were shown keep the selection, as far as it can be
/// assigned.
pub proof fn shown_boxes_stand_for_the_selection(selected: usize, assignable: usize)
    ensures
        checked_mask(boxes_for(selected, assignable), assignable, MAX_AFFINITY_CPU + 1) == selected
            & assignable,
{
    lemma_checked_mask(selected, assignable, MAX_AFFINITY_CPU + 1);
    let both = selected & assignable;
    assert(both & !0usize == both) by (bit_vector);
}

impl AffinityChoice {
    pub open spec fn well_formed(&self) -> bool {
        &&& self.selected_masks@.len() == self.groups@.len()
        &&& self.selected_group_index < self.groups@.len()
    }

    pub open spec fn several(&self) -> bool {
        self.groups@.len() > 1
    }

    /// The names in the list of groups.
    pub fn group_labels(&self) -> (labels: Vec<String>)
        ensures
            labels@.len() == self.groups@.len(),
            forall|i: int|
                0 <= i < labels@.len() ==> (#[trigger] labels@[i])@ == group_label(
                    self.groups@[i],
                    self.several(),
                ),
    {
        let several = self.groups.len() > 1;
        let mut labels: Vec<String> = Vec::new();
        for index in 0..self.groups.len()
            invariant
                several == self.several(),
                labels@.len() == index,
                forall|i: int|
                    0 <= i < index ==> (#[trigger] labels@[i])@ == group_label(
                        self.groups@[i],
                        several,
                    ),
        {
            let group = self.groups[index];
            let mut label = chars_of("G");
            append_chars(&mut label, decimal_chars(group.number as u64).as_slice());
            if several {
                append_text(&mut label, " (");
                append_chars(
                    &mut label,
                    decimal_chars(count_bits(group.processor_mask as u64) as u64).as_slice(),
                );
                append_text(&mut label, ")");
            }
            labels.push(string_of(label.as_slice()));
        }
        labels
    }

    /// The boxes for the processors of the group that is shown.
    pub fn render_affinity_group(&self) -> (boxes: Vec<ProcessorBox>)
        requires
            self.well_formed(),
        ensures
            boxes@.len() == MAX_AFFINITY_CPU + 1,
            forall|i: int|
                0 <= i < boxes@.len() ==> {
                    let group = self.groups@[self.selected_group_index as int];
                    let selected = self.selected_masks@[self.selected_group_index as int];
                    let shown = #[trigger] boxes@[i];
                    &&& shown.label@ == processor_label(group, self.several(), i)
                    &&& shown.enabled == (group.assignable_mask & cpu_mask(i) != 0)
                    &&& shown.checked == (shown.enabled && selected & cpu_mask(i) != 0)
                },
    {
        let group = self.groups[self.selected_group_index];
        let selected: usize = self.selected_masks[self.selected_group_index];
        let several = self.groups.len() > 1;
        let mut boxes: Vec<ProcessorBox> = Vec::new();
        for cpu_index in 0..MAX_AFFINITY_CPU + 1
            invariant
                several == self.several(),
                boxes@.len() == cpu_index,
                forall|i: int|
                    0 <= i < boxes@.len() ==> {
                        let shown = #[trigger] boxes@[i];
                        &&& shown.label@ == processor_label(group, several, i)
                        &&& shown.enabled == (group.assignable_mask & cpu_mask(i) != 0)
                        &&& shown.checked == (shown.enabled && selected & cpu_mask(i) != 0)
                    },
        {
            let mask: usize = affinity_cpu_mask(cpu_index);
            let enabled = group.assignable_mask & mask != 0;
            let mut label = chars_of(
                if several {
                    "G"
                } else {
                    "CPU "
                },
            );
            if several {
                append_chars(&mut label, decimal_chars(group.number as u64).as_slice());
                append_text(&mut label, ":CPU ");
            }
            append_chars(&mut label, decimal_chars(cpu_index as u64).as_slice());
            boxes.push(
                ProcessorBox {
                    label: string_of(label.as_slice()),
                    enabled,
                    checked: enabled && selected & mask != 0,
                },
            );
        }
        boxes
    }

    /// Takes over which boxes are checked for the group that is shown.
    pub fn save_affinity_group(&mut self, checked: &Vec<bool>)
        requires
            old(self).well_formed(),
            checked@.len() == MAX_AFFINITY_CPU + 1,
        ensures
            final(self).well_formed(),
            final(self).groups == old(self).groups,
            final(self).selected_group_index == old(self).selected_group_index,
            final(self).selected_masks@ == old(self).selected_masks@.update(
                old(self).selected_group_index as int,
                checked_mask(
                    checked@,
                    old(self).groups@[old(self).selected_group_index as int].assignable_mask,
                    MAX_AFFINITY_CPU + 1,
                ),
            ),
    {
        let assignable: usize = self.groups[self.selected_group_index].assignable_mask;
        let mut selected: usize = 0;
        for cpu_index in 0..MAX_AFFINITY_CPU + 1
            invariant
                checked@.len() == MAX_AFFINITY_CPU + 1,
                selected == checked_mask(checked@, assignable, cpu_index as int),
        {
            let mask: usize = affinity_cpu_mask(cpu_index);
            if assignable & mask != 0 && checked[cpu_index as usize] {
                selected = selected | mask;
            }
        }
        self.selected_masks.set(self.selected_group_index, selected);
    }

    /// Shows another group.
    pub fn choose_group(&mut self, selection: i64) -> (changed: bool)
        requires
            old(self).well_formed(),
        ensures
            final(self).well_formed(),
            changed == (0 <= selection < old(self).groups@.len()),
            *final(self) == (AffinityChoice {
                selected_group_index: if changed {
                    selection as usize
                } else {
                    old(self).selected_group_index
                },
                ..*old(self)
            }),
    {
        if selection >= 0 && (selection as u64) < self.groups.len() as u64 {
            self.selected_group_index = selection as usize;
            true
        } else {
            false
        }
    }

    /// Whether anything is selected; without it the choice cannot be confirmed.
    pub fn selects_something(&self) -> (selects: bool)
        ensures
            selects == exists|i: int|
                0 <= i < self.selected_masks@.len() && self.selected_masks@[i] != 0,
    {
        for index in 0..self.selected_masks.len()
            invariant
                forall|i: int| 0 <= i < index ==> self.selected_masks@[i] == 0,
        {
            if self.selected_masks[index] != 0 {
                return true;
            }
        }
        false
    }
}

} // verus!
