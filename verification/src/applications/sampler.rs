//! Which windows of the desktop are tasks.
use vstd::prelude::*;

use crate::perf_drawing::{decode_up_to_zero, up_to_zero};
use crate::process_identity::ProcIdentity;
use crate::seqs::lemma_push_contains;
use crate::table::Table;
use crate::text::{chars_of, copy_of, equals_ignore_ascii_case, lower};
use crate::utf16::{decode_lossy, decoded_lossy};
use crate::win32::ERROR_INVALID_DATA;

verus! {

/// A window, with the thread and the process that it belongs to.
#[derive(Clone, Copy, Debug, PartialEq, Eq, Structural, Hash)]
pub struct TaskIdentity {
    pub hwnd: isize,
    pub process: ProcIdentity,
    pub thread_id: u32,
}

/// A window that is a task.
#[derive(Clone, Debug, PartialEq, Eq)]
pub struct WorkerTaskEntry {
    pub identity: TaskIdentity,
    pub title: String,
    pub is_32_bit: Option<bool>,
    pub winstation: String,
    pub desktop: String,
    pub is_hung: bool,
}

pub struct TaskEntryView {
    pub identity: TaskIdentity,
    pub title: Seq<char>,
    pub is_32_bit: Option<bool>,
    pub winstation: Seq<char>,
    pub desktop: Seq<char>,
    pub is_hung: bool,
}

impl View for WorkerTaskEntry {
    type V = TaskEntryView;

    open spec fn view(&self) -> TaskEntryView {
        TaskEntryView {
            identity: self.identity,
            title: self.title@,
            is_32_bit: self.is_32_bit,
            winstation: self.winstation@,
            desktop: self.desktop@,
            is_hung: self.is_hung,
        }
    }
}

pub open spec fn entry_views(tasks: Seq<WorkerTaskEntry>) -> Seq<TaskEntryView> {
    tasks.map_values(|task: WorkerTaskEntry| task@)
}

/// What the sampler keeps from one round to the next.
pub struct TaskSamplerCache {
    pub desktop_names: Option<(String, String)>,
    pub bitness_by_process: Table<ProcIdentity, bool>,
}

pub struct TaskWorkerSnapshot {
    pub tasks: Vec<WorkerTaskEntry>,
    pub row_error: Option<u32>,
}

/// One round over the windows of the desktop.
pub struct WindowWalk {
    pub tasks: Vec<WorkerTaskEntry>,
    pub seen_tasks: Vec<TaskIdentity>,
    pub process_identities: Table<u32, Result<ProcIdentity, u32>>,
    pub bitness_by_process: Table<ProcIdentity, bool>,
    pub row_error: Option<u32>,
    pub main_hwnd: isize,
    pub winstation: String,
    pub desktop: String,
}

/// How the walk goes on with a window.
#[derive(Clone, Copy, Debug, PartialEq, Eq, Structural)]
pub enum Admission {
    /// It is no task.
    Skip,
    /// It is a task of a process whose bitness is known.
    Known(TaskIdentity, bool),
    /// It is a task of a process whose bitness has to be asked for.
    AskBitness(TaskIdentity),
}

/// The first error that was noted stays.
pub open spec fn first_error(noted: Option<u32>, error: u32) -> Option<u32> {
    match noted {
        Some(noted) => Some(noted),
        None => Some(
            if error == 0 {
                ERROR_INVALID_DATA
            } else {
                error
            },
        ),
    }
}

fn note_error(noted: Option<u32>, error: u32) -> (first: Option<u32>)
    ensures
        first == first_error(noted, error),
{
    match noted {
        Some(noted) => Some(noted),
        None => Some(
            if error == 0 {
                ERROR_INVALID_DATA
            } else {
                error
            },
        ),
    }
}

/// Whether a window with this title can be a task.
pub open spec fn is_task_name(title: Seq<char>) -> bool {
    title.len() > 0 && lower(title) != lower("Program Manager"@)
}

pub fn is_task_title(title: &str) -> (is_task: bool)
    ensures
        is_task == is_task_name(title@),
{
    let chars = chars_of(title);
    chars.len() > 0 && !equals_ignore_ascii_case(chars.as_slice(), "Program Manager")
}

/// Whether a window still belongs to the thread and the process that it belonged to.
pub fn window_still_has_identity(
    is_window: bool,
    current: (u32, u32),
    pid: u32,
    thread_id: u32,
) -> (still: bool)
    ensures
        still == (is_window && current.0 == pid && current.1 == thread_id),
{
    is_window && current.1 == thread_id && current.0 == pid
}

/// How many units to ask for, for a title of the length that the system names; none where there
/// is no title.
pub fn title_capacity(length: i32) -> (capacity: Option<i32>)
    ensures
        capacity == if 0 < length < i32::MAX {
            Some((length + 1) as i32)
        } else {
            None
        },
{
    if length <= 0 || length == i32::MAX {
        None
    } else {
        Some(length + 1)
    }
}

/// The title out of the buffer that the system wrote it into. It is no longer than the length
/// that the system named before.
pub fn window_title(buffer: &Vec<u16>, actual: i32, length: i32) -> (title: String)
    requires
        0 <= length <= buffer@.len(),
    ensures
        title@ == decoded_lossy(
            buffer@.take(
                if actual < 0 {
                    0
                } else if actual < length {
                    actual as int
                } else {
                    length as int
                },
            ),
        ),
{
    let end: usize = if actual < 0 {
        0
    } else if actual < length {
        actual as usize
    } else {
        length as usize
    };
    let units = vstd::slice::slice_subrange(buffer.as_slice(), 0, end);
    assert(units@ =~= buffer@.take(end as int));
    decode_lossy(units)
}

/// How many units the name of a desktop needs, given its bytes.
pub fn object_name_units(needed: u32) -> (units: Option<usize>)
    ensures
        units == if needed == 0 {
            None
        } else if needed < 2 {
            Some(1usize)
        } else {
            Some((needed / 2) as usize)
        },
{
    if needed == 0 {
        None
    } else if needed < 2 {
        Some(1)
    } else {
        Some(needed as usize / 2)
    }
}

/// The name of a desktop out of the buffer that the system wrote it into.
pub fn current_user_object_name(buffer: &Vec<u16>) -> (name: String)
    ensures
        name@ == decoded_lossy(up_to_zero(buffer@)),
{
    decode_up_to_zero(buffer.as_slice())
}

fn contains_task(tasks: &Vec<TaskIdentity>, task: TaskIdentity) -> (found: bool)
    ensures
        found == tasks@.contains(task),
{
    for index in 0..tasks.len()
        invariant
            forall|i: int| 0 <= i < index ==> tasks@[i] != task,
    {
        if tasks[index] == task {
            return true;
        }
    }
    false
}

impl WindowWalk {
    /// No task is listed twice, every task has a verified process, and every task was seen.
    pub open spec fn well_formed(&self) -> bool {
        &&& self.process_identities.well_formed()
        &&& self.bitness_by_process.well_formed()
        &&& self.seen_tasks@.no_duplicates()
        &&& forall|i: int|
            0 <= i < self.seen_tasks@.len() ==> (
            #[trigger] self.seen_tasks@[i]).process.verified()
        &&& task_identities(self.tasks@).no_duplicates()
        &&& forall|i: int|
            0 <= i < self.tasks@.len() ==> self.seen_tasks@.contains(
                (#[trigger] self.tasks@[i]).identity,
            )
    }

    pub fn new(
        main_hwnd: isize,
        bitness_by_process: Table<ProcIdentity, bool>,
        winstation: String,
        desktop: String,
    ) -> (walk: Self)
        requires
            bitness_by_process.well_formed(),
        ensures
            walk.well_formed(),
            walk.tasks@.len() == 0,
            walk.seen_tasks@.len() == 0,
            walk.process_identities@ == Map::<u32, Result<ProcIdentity, u32>>::empty(),
            walk.bitness_by_process == bitness_by_process,
            walk.row_error is None,
            walk.main_hwnd == main_hwnd,
            walk.winstation == winstation,
            walk.desktop == desktop,
    {
        WindowWalk {
            tasks: Vec::new(),
            seen_tasks: Vec::new(),
            process_identities: Table::new(),
            bitness_by_process,
            row_error: None,
            main_hwnd,
            winstation,
            desktop,
        }
    }

    /// Whether a window stands for itself: visible, without an owner, and not the main window of
    /// this program.
    pub fn is_top_level(&self, hwnd: isize, has_owner: bool, visible: bool) -> (top_level: bool)
        ensures
            top_level == (!has_owner && visible && hwnd != self.main_hwnd),
    {
        !has_owner && visible && hwnd != self.main_hwnd
    }

    /// The process behind an identifier, if it was asked for in this round.
    pub fn known_process(&self, pid: u32) -> (process: Option<Result<ProcIdentity, u32>>)
        requires
            self.well_formed(),
        ensures
            process == if self.process_identities@.contains_key(pid) {
                Some(self.process_identities@[pid])
            } else {
                None
            },
    {
        match self.process_identities.get(&pid) {
            Some(process) => Some(*process),
            None => None,
        }
    }

    pub fn note_process(&mut self, pid: u32, process: Result<ProcIdentity, u32>)
        requires
            old(self).well_formed(),
        ensures
            final(self).well_formed(),
            final(self).process_identities@ == old(self).process_identities@.insert(pid, process),
            *final(self) == (WindowWalk {
                process_identities: final(self).process_identities,
                ..*old(self)
            }),
    {
        self.process_identities.insert(pid, process);
    }

    /// Decides on a window whose process was asked for. `still_there` tells whether the window
    /// still belongs to it; only then an error counts.
    pub fn accept_window(
        &mut self,
        hwnd: isize,
        thread_id: u32,
        process: Result<ProcIdentity, u32>,
        still_there: bool,
    ) -> (admission: Admission)
        requires
            old(self).well_formed(),
        ensures
            final(self).well_formed(),
            match process {
                Err(error) => {
                    &&& admission == Admission::Skip
                    &&& *final(self) == (WindowWalk {
                        row_error: if still_there {
                            first_error(old(self).row_error, error)
                        } else {
                            old(self).row_error
                        },
                        ..*old(self)
                    })
                },
                Ok(process) => if !process.verified() {
                    &&& admission == Admission::Skip
                    &&& *final(self) == (WindowWalk {
                        row_error: first_error(old(self).row_error, ERROR_INVALID_DATA),
                        ..*old(self)
                    })
                } else {
                    let identity = TaskIdentity { hwnd, process, thread_id };
                    if old(self).seen_tasks@.contains(identity) {
                        admission == Admission::Skip && *final(self) == *old(self)
                    } else {
                        &&& final(self).seen_tasks@ == old(self).seen_tasks@.push(identity)
                        &&& *final(self) == (WindowWalk {
                            seen_tasks: final(self).seen_tasks,
                            ..*old(self)
                        })
                        &&& admission == if old(self).bitness_by_process@.contains_key(process) {
                            Admission::Known(identity, old(self).bitness_by_process@[process])
                        } else {
                            Admission::AskBitness(identity)
                        }
                    }
                },
            },
    {
        let process = match process {
            Ok(process) => process,
            Err(error) => {
                if still_there {
                    self.row_error = note_error(self.row_error, error);
                }
                return Admission::Skip;
            },
        };
        if !process.is_verified() {
            self.row_error = note_error(self.row_error, ERROR_INVALID_DATA);
            return Admission::Skip;
        }
        let identity = TaskIdentity { hwnd, process, thread_id };
        if contains_task(&self.seen_tasks, identity) {
            return Admission::Skip;
        }
        proof {
            lemma_push_contains(self.seen_tasks@, identity);
        }
        self.seen_tasks.push(identity);
        match self.bitness_by_process.get(&process) {
            Some(is_32_bit) => Admission::Known(identity, *is_32_bit),
            None => Admission::AskBitness(identity),
        }
    }

    /// Takes over the bitness of a process, where it could be learned.
    pub fn note_bitness(
        &mut self,
        process: ProcIdentity,
        bitness: Result<bool, u32>,
        still_there: bool,
    ) -> (is_32_bit: Option<bool>)
        requires
            old(self).well_formed(),
        ensures
            final(self).well_formed(),
            match bitness {
                Ok(detected) => {
                    &&& is_32_bit == Some(detected)
                    &&& final(self).bitness_by_process@ == old(self).bitness_by_process@.insert(
                        process,
                        detected,
                    )
                    &&& *final(self) == (WindowWalk {
                        bitness_by_process: final(self).bitness_by_process,
                        ..*old(self)
                    })
                },
                Err(error) => {
                    &&& is_32_bit is None
                    &&& *final(self) == (WindowWalk {
                        row_error: if still_there {
                            first_error(old(self).row_error, error)
                        } else {
                            old(self).row_error
                        },
                        ..*old(self)
                    })
                },
            },
    {
        match bitness {
            Ok(detected) => {
                self.bitness_by_process.insert(process, detected);
                Some(detected)
            },
            Err(error) => {
                if still_there {
                    self.row_error = note_error(self.row_error, error);
                }
                None
            },
        }
    }

    /// Adds a task that was accepted.
    pub fn add_task(
        &mut self,
        identity: TaskIdentity,
        title: String,
        is_32_bit: Option<bool>,
        is_hung: bool,
    )
        requires
            old(self).well_formed(),
            old(self).seen_tasks@.contains(identity),
            !task_identities(old(self).tasks@).contains(identity),
        ensures
            final(self).well_formed(),
            entry_views(final(self).tasks@) == entry_views(old(self).tasks@).push(
                TaskEntryView {
                    identity,
                    title: title@,
                    is_32_bit,
                    winstation: old(self).winstation@,
                    desktop: old(self).desktop@,
                    is_hung,
                },
            ),
            *final(self) == (WindowWalk { tasks: final(self).tasks, ..*old(self) }),
    {
        let entry = WorkerTaskEntry {
            identity,
            title,
            is_32_bit,
            winstation: copy_of(self.winstation.as_str()),
            desktop: copy_of(self.desktop.as_str()),
            is_hung,
        };
        self.tasks.push(entry);
        proof {
            let before = task_identities(old(self).tasks@);
            assert(task_identities(self.tasks@) =~= before.push(identity));
        }
        assert(entry_views(self.tasks@) =~= entry_views(old(self).tasks@).push(entry@));
    }

    /// Ends the round: the bitness of processes without a task is forgotten.
    pub fn finish(self) -> (round: (TaskWorkerSnapshot, Table<ProcIdentity, bool>))
        requires
            self.well_formed(),
        ensures
            round.0.tasks == self.tasks,
            task_identities(round.0.tasks@).no_duplicates(),
            forall|i: int|
                0 <= i < round.0.tasks@.len() ==> (
                #[trigger] round.0.tasks@[i]).identity.process.verified(),
            round.0.row_error == self.row_error,
            round.1.well_formed(),
            round.1@ == self.bitness_by_process@.restrict(task_processes(self.tasks@).to_set()),
    {
        proof {
            assert forall|i: int| 0 <= i < self.tasks@.len() implies (
            #[trigger] self.tasks@[i]).identity.process.verified() by {
                assert(self.seen_tasks@.contains(self.tasks@[i].identity));
            }
        }
        let mut processes: Vec<ProcIdentity> = Vec::new();
        for index in 0..self.tasks.len()
            invariant
                processes@ =~= task_processes(self.tasks@).take(index as int),
        {
            processes.push(self.tasks[index].identity.process);
        }
        assert(processes@ =~= task_processes(self.tasks@));
        let mut bitness = self.bitness_by_process;
        bitness.retain_listed(&processes);
        (TaskWorkerSnapshot { tasks: self.tasks, row_error: self.row_error }, bitness)
    }
}

pub open spec fn task_processes(tasks: Seq<WorkerTaskEntry>) -> Seq<ProcIdentity> {
    tasks.map_values(|task: WorkerTaskEntry| task.identity.process)
}

pub open spec fn task_identities(tasks: Seq<WorkerTaskEntry>) -> Seq<TaskIdentity> {
    tasks.map_values(|task: WorkerTaskEntry| task.identity)
}

/// The tasks whose windows still belong to them.
pub open spec fn matching_tasks(tasks: Seq<WorkerTaskEntry>, matches: Seq<bool>) -> Seq<
    WorkerTaskEntry,
>
    decreases tasks.len(),
{
    if tasks.len() == 0 {
        tasks
    } else {
        let earlier = matching_tasks(tasks.drop_last(), matches);
        if matches[tasks.len() - 1] {
            earlier.push(tasks.last())
        } else {
            earlier
        }
    }
}

/// Keeps the tasks whose windows still belong to them.
pub fn collect_tasks_worker(snapshot: TaskWorkerSnapshot, matches: &Vec<bool>) -> (kept:
    TaskWorkerSnapshot)
    requires
        matches@.len() == snapshot.tasks@.len(),
    ensures
        kept.tasks@ == matching_tasks(snapshot.tasks@, matches@),
        kept.row_error == snapshot.row_error,
{
    let row_error: Option<u32> = snapshot.row_error;
    let ghost given = snapshot.tasks@;
    let mut rest = snapshot.tasks;
    let mut tasks: Vec<WorkerTaskEntry> = Vec::new();
    let count: usize = rest.len();
    assert(given.take(0) =~= tasks@);
    for index in 0..count
        invariant
            count == given.len(),
            matches@.len() == count,
            rest@ == given.skip(index as int),
            tasks@ == matching_tasks(given.take(index as int), matches@),
    {
        let task = rest.remove(0);
        assert(rest@ =~= given.skip(index + 1));
        assert(given.take(index + 1).drop_last() =~= given.take(index as int));
        assert(task == given[index as int]);
        if matches[index] {
            tasks.push(task);
        }
    }
    assert(given.take(count as int) =~= given);
    TaskWorkerSnapshot { tasks, row_error }
}

} // verus!
