//! The icons of the tasks: where they come from, where they are kept, and in which batches they
//! are asked for.
use vstd::prelude::*;

use super::sampler::TaskIdentity;
use crate::win32::{ERROR_BROKEN_PIPE, ERROR_GEN_FAILURE, ERROR_INVALID_DATA};

verus! {

pub const MAX_TASK_ICON_WORKERS: usize = 8;

/// How many workers collect icons.
pub fn icon_worker_count(parallelism: usize) -> (count: usize)
    ensures
        count == if parallelism < 1 {
            1
        } else if parallelism > MAX_TASK_ICON_WORKERS {
            MAX_TASK_ICON_WORKERS
        } else {
            parallelism
        },
{
    if parallelism < 1 {
        1
    } else if parallelism > MAX_TASK_ICON_WORKERS {
        MAX_TASK_ICON_WORKERS
    } else {
        parallelism
    }
}

/// The code of an error of the system.
pub fn io_error_code(raw_os_error: Option<i32>) -> (code: u32)
    ensures
        code == match raw_os_error {
            Some(value) if value >= 0 => value as u32,
            _ => ERROR_GEN_FAILURE,
        },
{
    match raw_os_error {
        Some(value) => if value >= 0 {
            value as u32
        } else {
            ERROR_GEN_FAILURE
        },
        None => ERROR_GEN_FAILURE,
    }
}

#[derive(Clone, Copy, Debug, PartialEq, Eq, Structural)]
pub struct TaskIconRequest {
    pub identity: TaskIdentity,
    pub is_hung: bool,
}

/// The icons of a task; zero where there is none.
#[derive(Debug, PartialEq, Eq)]
pub struct TaskIconResult {
    pub identity: TaskIdentity,
    pub small_icon: isize,
    pub large_icon: isize,
}

impl TaskIconResult {
    /// Hands the small icon over.
    pub fn take_small_icon(&mut self) -> (icon: isize)
        ensures
            icon == old(self).small_icon,
            *final(self) == (TaskIconResult { small_icon: 0, ..*old(self) }),
    {
        let icon: isize = self.small_icon;
        self.small_icon = 0;
        icon
    }

    /// Hands the large icon over.
    pub fn take_large_icon(&mut self) -> (icon: isize)
        ensures
            icon == old(self).large_icon,
            *final(self) == (TaskIconResult { large_icon: 0, ..*old(self) }),
    {
        let icon: isize = self.large_icon;
        self.large_icon = 0;
        icon
    }
}

pub struct TaskIconBatchRequest {
    pub generation: u64,
    pub requests: Vec<TaskIconRequest>,
}

pub struct TaskIconCompletion {
    pub generation: u64,
    pub requested_identities: Vec<TaskIdentity>,
    pub result: Result<Vec<TaskIconResult>, u32>,
}

pub open spec fn requested(requests: Seq<TaskIconRequest>) -> Seq<TaskIdentity> {
    requests.map_values(|request: TaskIconRequest| request.identity)
}

fn identities_of(requests: &Vec<TaskIconRequest>) -> (identities: Vec<TaskIdentity>)
    ensures
        identities@ == requested(requests@),
{
    let mut identities: Vec<TaskIdentity> = Vec::new();
    for index in 0..requests.len()
        invariant
            identities@ =~= requested(requests@).take(index as int),
    {
        identities.push(requests[index].identity);
    }
    assert(identities@ =~= requested(requests@));
    identities
}

/// The last request for a task.
pub open spec fn last_request(requests: Seq<TaskIconRequest>, task: TaskIdentity) -> Option<int>
    decreases requests.len(),
{
    if requests.len() == 0 {
        None
    } else if requests.last().identity == task {
        Some(requests.len() - 1)
    } else {
        last_request(requests.drop_last(), task)
    }
}

/// The requests with one more. A request for the same task is replaced.
pub open spec fn with_request(requests: Seq<TaskIconRequest>, request: TaskIconRequest) -> Seq<
    TaskIconRequest,
> {
    match last_request(requests, request.identity) {
        Some(position) => requests.update(position, request),
        None => requests.push(request),
    }
}

pub open spec fn with_requests(current: Seq<TaskIconRequest>, incoming: Seq<TaskIconRequest>) -> Seq<
    TaskIconRequest,
>
    decreases incoming.len(),
{
    if incoming.len() == 0 {
        current
    } else {
        with_request(with_requests(current, incoming.drop_last()), incoming.last())
    }
}

fn find_last_request(requests: &Vec<TaskIconRequest>, task: TaskIdentity) -> (position: Option<
    usize,
>)
    ensures
        match position {
            Some(position) => last_request(requests@, task) == Some(position as int) && position
                < requests@.len(),
            None => last_request(requests@, task) is None,
        },
{
    let mut end: usize = requests.len();
    assert(requests@.take(end as int) =~= requests@);
    while end > 0
        invariant
            end <= requests@.len(),
            last_request(requests@, task) == last_request(requests@.take(end as int), task),
        decreases end,
    {
        assert(requests@.take(end as int).drop_last() =~= requests@.take(end - 1));
        if requests[end - 1].identity == task {
            return Some(end - 1);
        }
        end = end - 1;
    }
    None
}

/// Merges a batch that waits with a new one. What was asked for stays asked for.
pub fn merge_task_icon_batches(current: &mut TaskIconBatchRequest, incoming: TaskIconBatchRequest)
    ensures
        final(current).generation == if old(current).generation >= incoming.generation {
            old(current).generation
        } else {
            incoming.generation
        },
        final(current).requests@ == with_requests(old(current).requests@, incoming.requests@),
{
    if current.generation < incoming.generation {
        current.generation = incoming.generation;
    }
    let ghost start = current.requests@;
    assert(incoming.requests@.take(0) =~= Seq::<TaskIconRequest>::empty());
    for index in 0..incoming.requests.len()
        invariant
            start == old(current).requests@,
            current.generation == if old(current).generation >= incoming.generation {
                old(current).generation
            } else {
                incoming.generation
            },
            current.requests@ == with_requests(start, incoming.requests@.take(index as int)),
    {
        let request = incoming.requests[index];
        assert(incoming.requests@.take(index + 1).drop_last() =~= incoming.requests@.take(
            index as int,
        ));
        match find_last_request(&current.requests, request.identity) {
            Some(position) => {
                current.requests.set(position, request);
            },
            None => {
                current.requests.push(request);
            },
        }
    }
    assert(incoming.requests@.take(incoming.requests@.len() as int) =~= incoming.requests@);
}

proof fn lemma_last_request(requests: Seq<TaskIconRequest>, task: TaskIdentity)
    ensures
        match last_request(requests, task) {
            Some(position) => 0 <= position < requests.len() && requests[position].identity == task,
            None => !requested(requests).contains(task),
        },
    decreases requests.len(),
{
    if requests.len() > 0 {
        lemma_last_request(requests.drop_last(), task);
        if last_request(requests, task) is None && requested(requests).contains(task) {
            let i = choose|i: int|
                0 <= i < requested(requests).len() && requested(requests)[i] == task;
            assert(requested(requests.drop_last())[i] == task);
        }
    }
}

proof fn lemma_with_request(requests: Seq<TaskIconRequest>, request: TaskIconRequest)
    ensures
        requested(requests).no_duplicates() ==> requested(
            with_request(requests, request),
        ).no_duplicates(),
        forall|task: TaskIdentity| #[trigger]
            requested(with_request(requests, request)).contains(task) <==> requested(
                requests,
            ).contains(task) || task == request.identity,
{
    let before = requested(requests);
    let after = requested(with_request(requests, request));
    lemma_last_request(requests, request.identity);
    match last_request(requests, request.identity) {
        Some(position) => {
            assert(after =~= before);
            assert(before[position] == request.identity);
        },
        None => {
            assert(after =~= before.push(request.identity));
            crate::seqs::lemma_push_contains(before, request.identity);
        },
    }
}

/// A merged batch asks for the tasks of both batches and for no others; if the batch that waits
/// asks for no task twice, neither does the merged one.
pub proof fn merged_batch_asks_for_both(
    current: Seq<TaskIconRequest>,
    incoming: Seq<TaskIconRequest>,
)
    ensures
        requested(current).no_duplicates() ==> requested(
            with_requests(current, incoming),
        ).no_duplicates(),
        forall|task: TaskIdentity| #[trigger]
            requested(with_requests(current, incoming)).contains(task) <==> requested(
                current,
            ).contains(task) || requested(incoming).contains(task),
    decreases incoming.len(),
{
    if incoming.len() > 0 {
        let front = incoming.drop_last();
        merged_batch_asks_for_both(current, front);
        lemma_with_request(with_requests(current, front), incoming.last());
        assert(requested(incoming) =~= requested(front).push(incoming.last().identity));
        crate::seqs::lemma_push_contains(requested(front), incoming.last().identity);
    }
}

pub fn failed_task_icon_completion(request: TaskIconBatchRequest, error: u32) -> (completion:
    TaskIconCompletion)
    ensures
        completion.generation == request.generation,
        completion.requested_identities@ == requested(request.requests@),
        completion.result == Err::<Vec<TaskIconResult>, u32>(error),
{
    TaskIconCompletion {
        generation: request.generation,
        requested_identities: identities_of(&request.requests),
        result: Err(error),
    }
}

/// How many workers a batch is handed to.
pub fn active_workers(request_count: usize, worker_count: usize) -> (active: usize)
    ensures
        active == if request_count <= worker_count {
            request_count
        } else {
            worker_count
        },
{
    if request_count <= worker_count {
        request_count
    } else {
        worker_count
    }
}

/// What came of a worker: its icons, its error, or nothing if it is gone.
pub type WorkerReply = Option<Result<Vec<TaskIconResult>, u32>>;

/// The first error of a batch: that of handing it out, or of a worker.
pub open spec fn batch_error(handed_out: bool, replies: Seq<WorkerReply>) -> Option<u32>
    decreases replies.len(),
{
    if !handed_out {
        Some(ERROR_BROKEN_PIPE)
    } else if replies.len() == 0 {
        None
    } else {
        match batch_error(handed_out, replies.drop_last()) {
            Some(error) => Some(error),
            None => match replies.last() {
                Some(Ok(_)) => None,
                Some(Err(error)) => Some(error),
                None => Some(ERROR_BROKEN_PIPE),
            },
        }
    }
}

/// The icons that the workers delivered.
pub open spec fn batch_results(replies: Seq<WorkerReply>) -> Seq<TaskIconResult>
    decreases replies.len(),
{
    if replies.len() == 0 {
        Seq::empty()
    } else {
        let earlier = batch_results(replies.drop_last());
        match replies.last() {
            Some(Ok(results)) => earlier + results@,
            _ => earlier,
        }
    }
}

/// Ends a batch, given whether it was handed to all the workers it was meant for, and their
/// replies. A batch without requests needs no worker.
pub fn finish_batch(
    request: TaskIconBatchRequest,
    handed_out: bool,
    replies: Vec<WorkerReply>,
) -> (completion: TaskIconCompletion)
    ensures
        completion.generation == request.generation,
        completion.requested_identities@ == requested(request.requests@),
        if request.requests@.len() == 0 {
            completion.result matches Ok(results) && results@.len() == 0
        } else {
            match batch_error(handed_out, replies@) {
                Some(error) => completion.result == Err::<Vec<TaskIconResult>, u32>(error),
                None => completion.result matches Ok(results) && results@ == batch_results(
                    replies@,
                ),
            }
        },
{
    let requested_identities = identities_of(&request.requests);
    let generation: u64 = request.generation;
    if request.requests.len() == 0 {
        return TaskIconCompletion { generation, requested_identities, result: Ok(Vec::new()) };
    }
    let mut error: Option<u32> = if handed_out {
        None
    } else {
        Some(ERROR_BROKEN_PIPE)
    };
    let mut results: Vec<TaskIconResult> = Vec::new();
    let ghost given = replies@;
    let mut rest = replies;
    let count: usize = rest.len();
    assert(given.take(0) =~= Seq::<WorkerReply>::empty());
    for index in 0..count
        invariant
            count == given.len(),
            rest@ == given.skip(index as int),
            error == batch_error(handed_out, given.take(index as int)),
            results@ == batch_results(given.take(index as int)),
    {
        let reply = rest.remove(0);
        assert(rest@ =~= given.skip(index + 1));
        assert(given.take(index + 1).drop_last() =~= given.take(index as int));
        assert(reply == given[index as int]);
        match reply {
            Some(Ok(found)) => {
                let mut found = found;
                results.append(&mut found);
            },
            Some(Err(code)) => {
                if error.is_none() {
                    error = Some(code);
                }
            },
            None => {
                if error.is_none() {
                    error = Some(ERROR_BROKEN_PIPE);
                }
            },
        }
    }
    assert(given.take(count as int) =~= given);
    TaskIconCompletion {
        generation,
        requested_identities,
        result: match error {
            Some(error) => Err(error),
            None => Ok(results),
        },
    }
}

/// Whether the plain small icon of a window is asked for: not of a window that hangs, nor if both
/// better ones are there.
pub fn needs_plain_small_icon(is_hung: bool, small2: isize, big: isize) -> (needed: bool)
    ensures
        needed == !(is_hung || (small2 != 0 && big != 0)),
{
    !(is_hung || (small2 != 0 && big != 0))
}

pub open spec fn first_icon(first: isize, second: isize, third: isize) -> isize {
    if first != 0 {
        first
    } else if second != 0 {
        second
    } else {
        third
    }
}

fn choose_icon(first: isize, second: isize, third: isize) -> (icon: isize)
    ensures
        icon == first_icon(first, second, third),
{
    if first != 0 {
        first
    } else if second != 0 {
        second
    } else {
        third
    }
}

/// The icons out of those that the window names.
pub fn window_icons(small2: isize, small: isize, big: isize) -> (icons: (isize, isize))
    ensures
        icons.0 == first_icon(small2, small, big),
        icons.1 == first_icon(big, small, small2),
{
    (choose_icon(small2, small, big), choose_icon(big, small, small2))
}

/// The icons with those of the class of the window for what is missing.
pub fn with_class_icons(icons: (isize, isize), class_small: isize, class_large: isize) -> (found: (
    isize,
    isize,
))
    ensures
        found.0 == first_icon(icons.0, class_small, class_large),
        found.1 == first_icon(icons.1, class_large, class_small),
{
    (
        choose_icon(icons.0, class_small, class_large),
        choose_icon(icons.1, class_large, class_small),
    )
}

/// The places in the lists of icons. The first place is for tasks without an icon.
pub struct IconSlots {
    pub free_slots: Vec<usize>,
}

/// Where the icons of a task go.
#[derive(Clone, Copy, Debug, PartialEq, Eq, Structural)]
pub enum SlotPlan {
    /// It has none, and shares the first place.
    Shared,
    /// To a new place.
    Append,
    /// To a place that is free again.
    Reuse(i32),
}

/// Where the icons of a task are, and which of them are taken out again.
#[derive(Clone, Copy, Debug, PartialEq, Eq)]
pub struct Allocation {
    pub slot: Result<usize, u32>,
    pub undo_small: Option<usize>,
    pub undo_large: Option<usize>,
}

impl IconSlots {
    pub fn new() -> (slots: Self)
        ensures
            slots.free_slots@.len() == 0,
    {
        IconSlots { free_slots: Vec::new() }
    }

    /// Decides where the icons of a task go.
    pub fn plan(&self, has_icon: bool) -> (outcome: Result<SlotPlan, u32>)
        ensures
            outcome == if !has_icon {
                Ok::<SlotPlan, u32>(SlotPlan::Shared)
            } else if self.free_slots@.len() == 0 {
                Ok(SlotPlan::Append)
            } else if self.free_slots@.last() <= i32::MAX {
                Ok(SlotPlan::Reuse(self.free_slots@.last() as i32))
            } else {
                Err(ERROR_INVALID_DATA)
            },
    {
        if !has_icon {
            return Ok(SlotPlan::Shared);
        }
        let count: usize = self.free_slots.len();
        if count == 0 {
            return Ok(SlotPlan::Append);
        }
        let slot: usize = self.free_slots[count - 1];
        if slot <= i32::MAX as usize {
            Ok(SlotPlan::Reuse(slot as i32))
        } else {
            Err(ERROR_INVALID_DATA)
        }
    }

    /// Takes over where both icons of a task went. They have to be in the same place, and in the
    /// one that was free if there was one; what cannot stay is undone. `large` does not matter if
    /// the small icon could not be placed.
    pub fn allocate(&mut self, small: Result<usize, u32>, large: Result<usize, u32>) -> (outcome:
        Allocation)
        ensures
            ({
                let free = old(self).free_slots@;
                match (small, large) {
                    (Err(error), _) => outcome == (Allocation {
                        slot: Err(error),
                        undo_small: None,
                        undo_large: None,
                    }) && final(self).free_slots@ == free,
                    (Ok(small), Err(error)) => outcome == (Allocation {
                        slot: Err(error),
                        undo_small: Some(small),
                        undo_large: None,
                    }) && final(self).free_slots@ == free,
                    (Ok(small), Ok(large)) => if small != large || (free.len() > 0 && free.last()
                        != small) {
                        outcome == (Allocation {
                            slot: Err(ERROR_INVALID_DATA),
                            undo_small: Some(small),
                            undo_large: Some(large),
                        }) && final(self).free_slots@ == free
                    } else {
                        outcome == (Allocation {
                            slot: Ok(small),
                            undo_small: None,
                            undo_large: None,
                        }) && final(self).free_slots@ == if free.len() > 0 {
                            free.drop_last()
                        } else {
                            free
                        }
                    },
                }
            }),
    {
        let small: usize = match small {
            Ok(small) => small,
            Err(error) => return Allocation {
                slot: Err(error),
                undo_small: None,
                undo_large: None,
            },
        };
        let large: usize = match large {
            Ok(large) => large,
            Err(error) => return Allocation {
                slot: Err(error),
                undo_small: Some(small),
                undo_large: None,
            },
        };
        let count: usize = self.free_slots.len();
        if small != large || (count > 0 && self.free_slots[count - 1] != small) {
            return Allocation {
                slot: Err(ERROR_INVALID_DATA),
                undo_small: Some(small),
                undo_large: Some(large),
            };
        }
        if count > 0 {
            self.free_slots.pop();
        }
        Allocation { slot: Ok(small), undo_small: None, undo_large: None }
    }

    /// Which place of the lists is cleared when a task gives its place back: the shared one never
    /// is.
    pub fn slot_to_clear(&self, slot: usize) -> (outcome: Result<Option<i32>, u32>)
        ensures
            outcome == if slot == 0 {
                Ok::<Option<i32>, u32>(None)
            } else if slot <= i32::MAX {
                Ok(Some(slot as i32))
            } else {
                Err(ERROR_INVALID_DATA)
            },
    {
        if slot == 0 {
            Ok(None)
        } else if slot <= i32::MAX as usize {
            Ok(Some(slot as i32))
        } else {
            Err(ERROR_INVALID_DATA)
        }
    }

    /// Takes a place back after it was cleared in both lists.
    pub fn release(
        &mut self,
        slot: usize,
        small_error: Option<u32>,
        large_error: Option<u32>,
    ) -> (outcome: Result<(), u32>)
        ensures
            ({
                let error = match (small_error, large_error) {
                    (Some(error), _) => Some(error),
                    (None, error) => error,
                };
                if slot == 0 {
                    outcome is Ok && final(self).free_slots@ == old(self).free_slots@
                } else if slot > i32::MAX {
                    outcome == Err::<(), u32>(ERROR_INVALID_DATA) && final(self).free_slots@ == old(
                        self,
                    ).free_slots@
                } else if let Some(error) = error {
                    outcome == Err::<(), u32>(error) && final(self).free_slots@ == old(
                        self,
                    ).free_slots@
                } else {
                    outcome is Ok && final(self).free_slots@ == old(self).free_slots@.push(slot)
                }
            }),
    {
        if slot == 0 {
            return Ok(());
        }
        if slot > i32::MAX as usize {
            return Err(ERROR_INVALID_DATA);
        }
        if let Some(error) = small_error {
            return Err(error);
        }
        if let Some(error) = large_error {
            return Err(error);
        }
        self.free_slots.push(slot);
        Ok(())
    }
}

/// The place that was given back last is the next one to be used, and using it leaves the places
/// as they were before.
pub proof fn released_slot_is_used_next(before: IconSlots, slot: usize, released: IconSlots)
    requires
        0 < slot <= i32::MAX,
        released.free_slots@ == before.free_slots@.push(slot),
    ensures
        released.free_slots@.last() == slot,
        released.free_slots@.drop_last() == before.free_slots@,
{
    assert(released.free_slots@.drop_last() =~= before.free_slots@);
}

} // verus!
