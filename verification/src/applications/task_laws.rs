//! Which tasks and icons remain, told from what was asked and answered.
use vstd::prelude::*;

use super::icons::{
    batch_error, batch_results, first_icon, last_request, with_request, with_requests,
    TaskIconRequest, TaskIconResult, WorkerReply,
};
use super::sampler::{first_error, is_task_name, matching_tasks, TaskIdentity, WorkerTaskEntry};
use crate::text::lower;
use crate::win32::{ERROR_BROKEN_PIPE, ERROR_INVALID_DATA};

verus! {

/// Whether a task is one of those whose windows still belong to them.
pub open spec fn is_matching(
    tasks: Seq<WorkerTaskEntry>,
    matches: Seq<bool>,
    task: WorkerTaskEntry,
) -> bool {
    exists|i: int| 0 <= i < tasks.len() && matches[i] && #[trigger] tasks[i] == task
}

/// The tasks that remain are those whose windows still belong to them: every one of them, and no
/// other, in their order.
pub proof fn remaining_tasks_still_match(tasks: Seq<WorkerTaskEntry>, matches: Seq<bool>)
    requires
        tasks.len() <= matches.len(),
    ensures
        forall|i: int|
            0 <= i < tasks.len() && matches[i] ==> matching_tasks(tasks, matches).contains(
                #[trigger] tasks[i],
            ),
        forall|k: int|
            0 <= k < matching_tasks(tasks, matches).len() ==> is_matching(
                tasks,
                matches,
                #[trigger] matching_tasks(tasks, matches)[k],
            ),
        (forall|i: int| 0 <= i < tasks.len() ==> #[trigger] matches[i]) ==> matching_tasks(
            tasks,
            matches,
        ) == tasks,
    decreases tasks.len(),
{
    if tasks.len() > 0 {
        let front = tasks.drop_last();
        let n = tasks.len() - 1;
        remaining_tasks_still_match(front, matches);
        let before = matching_tasks(front, matches);
        let after = matching_tasks(tasks, matches);
        assert(tasks[n] == tasks.last());
        assert forall|i: int| 0 <= i < tasks.len() && matches[i] implies after.contains(
            #[trigger] tasks[i],
        ) by {
            if i < n {
                assert(front[i] == tasks[i]);
                let k = choose|k: int| 0 <= k < before.len() && before[k] == front[i];
                assert(after[k] == tasks[i]);
            } else {
                assert(after[before.len() as int] == tasks[n]);
            }
        }
        assert forall|k: int| 0 <= k < after.len() implies is_matching(
            tasks,
            matches,
            #[trigger] after[k],
        ) by {
            if k < before.len() {
                assert(after[k] == before[k]);
                assert(is_matching(front, matches, before[k]));
                let i = choose|i: int|
                    0 <= i < front.len() && matches[i] && #[trigger] front[i] == before[k];
                assert(tasks[i] == after[k]);
            } else {
                assert(tasks[n] == after[k]);
            }
        }
        if forall|i: int| 0 <= i < tasks.len() ==> #[trigger] matches[i] {
            assert(matches[n]);
            assert(before.push(tasks[n]) =~= tasks);
        }
    }
}

/// A window without a title is no task, and neither is that of the desktop, whatever the case of
/// its letters.
pub proof fn untitled_windows_are_no_tasks(title: Seq<char>)
    ensures
        title.len() == 0 ==> !is_task_name(title),
        lower(title) == lower("Program Manager"@) ==> !is_task_name(title),
        title.len() > 0 && lower(title) != lower("Program Manager"@) ==> is_task_name(title),
{
}

/// The first error of a round stays, whatever else fails.
pub proof fn first_error_of_a_round_stays(first: u32, second: u32)
    ensures
        first != 0 ==> first_error(None, first) == Some(first),
        first_error(None, 0) == Some(ERROR_INVALID_DATA),
        first_error(first_error(None, first), second) == first_error(None, first),
{
}

/// The first icon that there is is taken.
pub proof fn first_icon_is_taken(first: isize, second: isize, third: isize)
    ensures
        first != 0 ==> first_icon(first, second, third) == first,
        first == 0 && second != 0 ==> first_icon(first, second, third) == second,
        first == 0 && second == 0 ==> first_icon(first, second, third) == third,
        first_icon(first, second, third) == 0 <==> first == 0 && second == 0 && third == 0,
{
}

proof fn lemma_last_request(requests: Seq<TaskIconRequest>, task: TaskIdentity)
    ensures
        match last_request(requests, task) {
            Some(at) => 0 <= at < requests.len() && requests[at].identity == task && forall|i: int|
                at < i < requests.len() ==> (#[trigger] requests[i]).identity != task,
            None => forall|i: int|
                0 <= i < requests.len() ==> (#[trigger] requests[i]).identity != task,
        },
    decreases requests.len(),
{
    if requests.len() > 0 {
        let front = requests.drop_last();
        lemma_last_request(front, task);
        if requests.last().identity != task {
            match last_request(front, task) {
                Some(at) => {
                    assert forall|i: int| at < i < requests.len() implies (
                    #[trigger] requests[i]).identity != task by {
                        if i < front.len() {
                            assert(front[i].identity != task);
                        }
                    }
                },
                None => {
                    assert forall|i: int| 0 <= i < requests.len() implies (
                    #[trigger] requests[i]).identity != task by {
                        if i < front.len() {
                            assert(front[i].identity != task);
                        }
                    }
                },
            }
        }
    }
}

/// Of several requests for one task the latest counts, in the place of the first; the requests for
/// other tasks stay as they are.
pub proof fn latest_request_counts(requests: Seq<TaskIconRequest>, request: TaskIconRequest)
    ensures
        with_request(requests, request).contains(request),
        forall|i: int|
            0 <= i < requests.len() && (#[trigger] requests[i]).identity != request.identity
                ==> with_request(requests, request)[i] == requests[i],
        with_request(requests, request).len() == if last_request(requests, request.identity)
            is Some {
            requests.len()
        } else {
            requests.len() + 1
        },
{
    lemma_last_request(requests, request.identity);
    let after = with_request(requests, request);
    match last_request(requests, request.identity) {
        Some(at) => {
            assert(after[at] == request);
        },
        None => {
            assert(after[requests.len() as int] == request);
        },
    }
}

/// A merged batch asks for each task of the new batch as the new batch does.
pub proof fn merged_batch_asks_as_the_new_one(
    current: Seq<TaskIconRequest>,
    incoming: Seq<TaskIconRequest>,
    i: int,
)
    requires
        0 <= i < incoming.len(),
        forall|j: int|
            i < j < incoming.len() ==> (#[trigger] incoming[j]).identity != incoming[i].identity,
    ensures
        with_requests(current, incoming).contains(incoming[i]),
    decreases incoming.len(),
{
    let front = incoming.drop_last();
    let n = incoming.len() - 1;
    let before = with_requests(current, front);
    latest_request_counts(before, incoming[n]);
    if i < n {
        assert(front[i] == incoming[i]);
        assert forall|j: int| i < j < front.len() implies (#[trigger] front[j]).identity
            != front[i].identity by {
            assert(incoming[j].identity != incoming[i].identity);
        }
        merged_batch_asks_as_the_new_one(current, front, i);
        let k = choose|k: int| 0 <= k < before.len() && before[k] == incoming[i];
        assert(incoming[n].identity != incoming[i].identity);
        assert(before[k].identity != incoming[n].identity);
        lemma_last_request(before, incoming[n].identity);
        assert(with_requests(current, incoming)[k] == incoming[i]);
    }
}

/// A batch succeeds exactly if it was handed out and every worker delivered; else it has the first
/// error, where a worker that is gone counts as a broken pipe.
pub proof fn batch_fails_with_the_first_error(replies: Seq<WorkerReply>)
    ensures
        batch_error(false, replies) == Some(ERROR_BROKEN_PIPE),
        match batch_error(true, replies) {
            None => forall|i: int| 0 <= i < replies.len() ==> delivered(#[trigger] replies[i]),
            Some(error) => exists|i: int|
                0 <= i < replies.len() && !delivered(#[trigger] replies[i]) && (replies[i] is None
                    ==> error == ERROR_BROKEN_PIPE) && (replies[i] is Some ==> replies[i]->0
                    == Err::<Vec<TaskIconResult>, u32>(error)) && forall|j: int|
                    0 <= j < i ==> delivered(#[trigger] replies[j]),
        },
    decreases replies.len(),
{
    if replies.len() > 0 {
        let front = replies.drop_last();
        let n = replies.len() - 1;
        batch_fails_with_the_first_error(front);
        assert(replies[n] == replies.last());
        match batch_error(true, front) {
            None => {
                assert forall|i: int| 0 <= i < n implies delivered(#[trigger] replies[i]) by {
                    assert(delivered(front[i]));
                }
                if batch_error(true, replies) is Some {
                    assert(!delivered(replies[n]));
                }
            },
            Some(error) => {
                let i = choose|i: int|
                    0 <= i < front.len() && !delivered(#[trigger] front[i]) && (front[i] is None
                        ==> error == ERROR_BROKEN_PIPE) && (front[i] is Some ==> front[i]->0
                        == Err::<Vec<TaskIconResult>, u32>(error)) && forall|j: int|
                        0 <= j < i ==> delivered(#[trigger] front[j]);
                assert(replies[i] == front[i]);
                assert forall|j: int| 0 <= j < i implies delivered(#[trigger] replies[j]) by {
                    assert(delivered(front[j]));
                }
            },
        }
    }
}

/// Whether a worker delivered icons.
pub open spec fn delivered(reply: WorkerReply) -> bool {
    reply matches Some(Ok(_))
}

/// Every icon that a worker delivered is among the results, and no other is.
pub proof fn every_delivered_icon_is_a_result(replies: Seq<WorkerReply>, result: TaskIconResult)
    ensures
        batch_results(replies).contains(result) <==> exists|i: int|
            0 <= i < replies.len() && delivered(#[trigger] replies[i])
                && replies[i]->0->Ok_0@.contains(result),
    decreases replies.len(),
{
    if replies.len() > 0 {
        let front = replies.drop_last();
        let n = replies.len() - 1;
        every_delivered_icon_is_a_result(front, result);
        let before = batch_results(front);
        let after = batch_results(replies);
        assert(replies[n] == replies.last());
        if before.contains(result) {
            let k = choose|k: int| 0 <= k < before.len() && before[k] == result;
            assert(after[k] == result);
            let i = choose|i: int|
                0 <= i < front.len() && delivered(#[trigger] front[i])
                    && front[i]->0->Ok_0@.contains(result);
            assert(replies[i] == front[i]);
        }
        if delivered(replies[n]) && replies[n]->0->Ok_0@.contains(result) {
            let own = replies[n]->0->Ok_0@;
            let k = choose|k: int| 0 <= k < own.len() && own[k] == result;
            assert(after[before.len() + k] == result);
        }
        if after.contains(result) {
            let k = choose|k: int| 0 <= k < after.len() && after[k] == result;
            if k < before.len() {
                assert(before[k] == result);
            } else {
                assert(replies[n]->0->Ok_0@[k - before.len()] == result);
                assert(replies[n]->0->Ok_0@.contains(result));
            }
        }
        if exists|i: int|
            0 <= i < replies.len() && delivered(#[trigger] replies[i])
                && replies[i]->0->Ok_0@.contains(result) {
            let i = choose|i: int|
                0 <= i < replies.len() && delivered(#[trigger] replies[i])
                    && replies[i]->0->Ok_0@.contains(result);
            if i < n {
                assert(front[i] == replies[i]);
            }
        }
    }
}

} // verus!
