//! What a walk over the windows lists, told from what was asked and answered.
use vstd::prelude::*;

use super::icons::{Allocation, IconSlots};
use super::sampler::{entry_views, Admission, TaskEntryView, TaskIdentity, WindowWalk};
use crate::process_identity::ProcIdentity;

verus! {

/// A window that belongs to a verified process is listed once, however often it is met.
pub proof fn windows_are_listed_once(
    first: &mut WindowWalk,
    second: &mut WindowWalk,
    hwnd: isize,
    thread_id: u32,
    process: ProcIdentity,
    first_admission: Admission,
    second_admission: Admission,
)
    requires
        process.creation_time_100ns != 0,
        !old(first).seen_tasks@.contains(TaskIdentity { hwnd, process, thread_id }),
    ensures
        call_ensures(
            WindowWalk::accept_window,
            (first, hwnd, thread_id, Ok::<ProcIdentity, u32>(process), true),
            first_admission,
        ) && *old(second) == *final(first) && call_ensures(
            WindowWalk::accept_window,
            (second, hwnd, thread_id, Ok::<ProcIdentity, u32>(process), true),
            second_admission,
        ) ==> {
            &&& first_admission != Admission::Skip
            &&& second_admission == Admission::Skip
            &&& *final(second) == *old(second)
        },
{
    let identity = TaskIdentity { hwnd, process, thread_id };
    let seen = old(first).seen_tasks@.push(identity);
    assert(seen[old(first).seen_tasks@.len() as int] == identity);
}

/// What was learned of a process counts for all its windows: it is not asked for again.
pub proof fn bitness_is_asked_for_once(
    noted: &mut WindowWalk,
    walk: &mut WindowWalk,
    hwnd: isize,
    thread_id: u32,
    process: ProcIdentity,
    is_32_bit: bool,
    told: Option<bool>,
    admission: Admission,
)
    requires
        process.creation_time_100ns != 0,
        !old(noted).seen_tasks@.contains(TaskIdentity { hwnd, process, thread_id }),
    ensures
        call_ensures(
            WindowWalk::note_bitness,
            (noted, process, Ok::<bool, u32>(is_32_bit), true),
            told,
        ) && *old(walk) == *final(noted) && call_ensures(
            WindowWalk::accept_window,
            (walk, hwnd, thread_id, Ok::<ProcIdentity, u32>(process), true),
            admission,
        ) ==> told == Some(is_32_bit) && admission == Admission::Known(
            TaskIdentity { hwnd, process, thread_id },
            is_32_bit,
        ),
{
}

/// A process that was asked for in a round is not asked for again in it.
pub proof fn processes_are_asked_for_once(
    walk: &mut WindowWalk,
    pid: u32,
    process: Result<ProcIdentity, u32>,
    known: Option<Result<ProcIdentity, u32>>,
)
    ensures
        call_ensures(WindowWalk::note_process, (walk, pid, process), ()) && call_ensures(
            WindowWalk::known_process,
            (final(walk), pid),
            known,
        ) ==> known == Some(process),
{
}

/// An error counts only for a window that is still there, and the first one of a round stays.
pub proof fn errors_of_closed_windows_do_not_count(
    walk: &mut WindowWalk,
    hwnd: isize,
    thread_id: u32,
    error: u32,
    still_there: bool,
    admission: Admission,
)
    ensures
        call_ensures(
            WindowWalk::accept_window,
            (walk, hwnd, thread_id, Err::<ProcIdentity, u32>(error), still_there),
            admission,
        ) ==> {
            &&& admission == Admission::Skip
            &&& final(walk).tasks == old(walk).tasks
            &&& final(walk).seen_tasks == old(walk).seen_tasks
            &&& !still_there ==> final(walk).row_error == old(walk).row_error
            &&& still_there && error != 0 && old(walk).row_error is None
                ==> final(walk).row_error == Some(error)
            &&& old(walk).row_error is Some ==> final(walk).row_error == old(walk).row_error
        },
{
}

/// A task that is added stands behind the others, with its own title and the desktop of the walk.
pub proof fn tasks_are_added_behind_the_others(
    walk: &mut WindowWalk,
    identity: TaskIdentity,
    title: String,
    is_32_bit: Option<bool>,
    is_hung: bool,
)
    ensures
        call_ensures(WindowWalk::add_task, (walk, identity, title, is_32_bit, is_hung), ()) ==> {
            let last = final(walk).tasks@.last();
            &&& final(walk).tasks@.len() == old(walk).tasks@.len() + 1
            &&& last.identity == identity
            &&& last.title@ == title@
            &&& last.is_32_bit == is_32_bit
            &&& last.is_hung == is_hung
            &&& last.winstation@ == old(walk).winstation@
            &&& last.desktop@ == old(walk).desktop@
        },
{
    if call_ensures(WindowWalk::add_task, (walk, identity, title, is_32_bit, is_hung), ()) {
        let before = entry_views(old(walk).tasks@);
        let after = entry_views(final(walk).tasks@);
        assert(after.len() == before.len() + 1);
        let entry: TaskEntryView = after[before.len() as int];
        assert(entry == final(walk).tasks@.last()@);
    }
}

/// An icon gets the same slot in both lists, or none, and nothing is left behind in either.
pub proof fn icons_have_one_slot(
    slots: &mut IconSlots,
    small: usize,
    large: usize,
    outcome: Allocation,
)
    ensures
        call_ensures(
            IconSlots::allocate,
            (slots, Ok::<usize, u32>(small), Ok::<usize, u32>(large)),
            outcome,
        ) ==> {
            &&& outcome.slot matches Ok(slot) ==> slot == small && slot == large
                && outcome.undo_small is None && outcome.undo_large is None
            &&& outcome.slot is Err ==> outcome.undo_small == Some(small) && outcome.undo_large
                == Some(large)
            &&& small != large ==> outcome.slot is Err
            &&& small == large && old(slots).free_slots@.len() == 0 ==> outcome.slot is Ok
            &&& outcome.slot is Ok && old(slots).free_slots@.len() > 0
                ==> old(slots).free_slots@.last() == small
                && final(slots).free_slots@ == old(slots).free_slots@.drop_last()
        },
{
}

} // verus!
