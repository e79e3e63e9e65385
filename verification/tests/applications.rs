use taskmgr::applications::icons::{
    active_workers, failed_task_icon_completion, finish_batch, icon_worker_count, io_error_code,
    merge_task_icon_batches, needs_plain_small_icon, window_icons, with_class_icons, IconSlots,
    SlotPlan, TaskIconBatchRequest, TaskIconRequest, TaskIconResult,
};
use taskmgr::applications::sampler::{
    collect_tasks_worker, current_user_object_name, is_task_title, object_name_units,
    title_capacity, window_still_has_identity, window_title, Admission, TaskIdentity, WindowWalk,
};
use taskmgr::process_identity::ProcIdentity;
use taskmgr::table::Table;

fn task(hwnd: isize) -> TaskIdentity {
    TaskIdentity {
        hwnd,
        process: ProcIdentity::new(4, 40),
        thread_id: 400,
    }
}

fn walk() -> WindowWalk {
    WindowWalk::new(
        1,
        Table::new(),
        "WinSta0".to_string(),
        "Default".to_string(),
    )
}

#[test]
fn only_top_level_windows_with_a_title_are_tasks() {
    let walk = walk();
    assert!(walk.is_top_level(2, false, true));
    assert!(!walk.is_top_level(2, true, true));
    assert!(!walk.is_top_level(2, false, false));
    assert!(!walk.is_top_level(1, false, true));
    assert!(is_task_title("Notepad"));
    assert!(!is_task_title(""));
    assert!(!is_task_title("program manager"));
    assert!(window_still_has_identity(true, (4, 400), 4, 400));
    assert!(!window_still_has_identity(true, (4, 401), 4, 400));
    assert!(!window_still_has_identity(false, (4, 400), 4, 400));
}

#[test]
fn titles_are_no_longer_than_announced() {
    assert_eq!(title_capacity(0), None);
    assert_eq!(title_capacity(-1), None);
    assert_eq!(title_capacity(i32::MAX), None);
    assert_eq!(title_capacity(5), Some(6));
    let buffer: Vec<u16> = "Editor\0".encode_utf16().collect();
    assert_eq!(window_title(&buffer, 6, 4), "Edit");
    assert_eq!(window_title(&buffer, 2, 4), "Ed");
    assert_eq!(window_title(&buffer, -1, 4), "");
    assert_eq!(object_name_units(0), None);
    assert_eq!(object_name_units(1), Some(1));
    assert_eq!(object_name_units(16), Some(8));
    assert_eq!(current_user_object_name(&buffer), "Editor");
}

#[test]
fn window_is_listed_once() {
    let mut walk = walk();
    let process = ProcIdentity::new(4, 40);
    assert_eq!(walk.known_process(4), None);
    walk.note_process(4, Ok(process));
    assert_eq!(walk.known_process(4), Some(Ok(process)));
    assert_eq!(
        walk.accept_window(2, 400, Ok(process), true),
        Admission::AskBitness(task(2))
    );
    assert_eq!(walk.note_bitness(process, Ok(true), true), Some(true));
    walk.add_task(task(2), "Notepad".to_string(), Some(true), false);
    assert_eq!(
        walk.accept_window(2, 400, Ok(process), true),
        Admission::Skip
    );
    assert_eq!(
        walk.accept_window(3, 400, Ok(process), true),
        Admission::Known(task(3), true)
    );
    let (snapshot, bitness) = walk.finish();
    assert_eq!(snapshot.tasks.len(), 1);
    assert_eq!(snapshot.tasks[0].desktop, "Default");
    assert_eq!(snapshot.row_error, None);
    assert_eq!(bitness.len(), 1);
    let kept = collect_tasks_worker(snapshot, &vec![false]);
    assert!(kept.tasks.is_empty());
}

#[test]
fn first_error_of_a_window_that_is_still_there_counts() {
    let mut walk = walk();
    assert_eq!(walk.accept_window(2, 400, Err(5), false), Admission::Skip);
    assert_eq!(walk.row_error, None);
    assert_eq!(walk.accept_window(2, 400, Err(0), true), Admission::Skip);
    assert_eq!(walk.row_error, Some(13));
    assert_eq!(walk.accept_window(2, 400, Err(5), true), Admission::Skip);
    assert_eq!(walk.row_error, Some(13));
    let mut other = self::walk();
    assert_eq!(
        other.accept_window(2, 400, Ok(ProcIdentity::pid_only(4)), true),
        Admission::Skip
    );
    assert_eq!(other.row_error, Some(13));
    assert_eq!(other.note_bitness(ProcIdentity::new(4, 40), Err(5), true), None);
    let (snapshot, bitness) = other.finish();
    assert!(snapshot.tasks.is_empty());
    assert_eq!(bitness.len(), 0);
}

fn request(hwnd: isize, is_hung: bool) -> TaskIconRequest {
    TaskIconRequest {
        identity: task(hwnd),
        is_hung,
    }
}

fn icons(hwnd: isize) -> TaskIconResult {
    TaskIconResult {
        identity: task(hwnd),
        small_icon: hwnd * 10,
        large_icon: hwnd * 100,
    }
}

fn batch(generation: u64, requests: Vec<TaskIconRequest>) -> TaskIconBatchRequest {
    TaskIconBatchRequest {
        generation,
        requests,
    }
}

#[test]
fn merged_batch_asks_for_every_task_once() {
    let mut current = batch(5, vec![request(1, false), request(2, false)]);
    merge_task_icon_batches(
        &mut current,
        batch(4, vec![request(2, true), request(3, false), request(3, true)]),
    );
    assert_eq!(current.generation, 5);
    assert_eq!(
        current.requests,
        vec![request(1, false), request(2, true), request(3, true)]
    );
    let failed = failed_task_icon_completion(current, 9);
    assert_eq!(failed.requested_identities, vec![task(1), task(2), task(3)]);
    assert_eq!(failed.result, Err(9));
}

#[test]
fn batch_ends_when_every_worker_replied() {
    let requests = || batch(1, vec![request(1, false), request(2, false)]);
    let done = finish_batch(
        requests(),
        true,
        vec![Some(Ok(vec![icons(2)])), Some(Ok(vec![icons(1)]))],
    );
    assert_eq!(done.result, Ok(vec![icons(2), icons(1)]));
    let failed = finish_batch(requests(), true, vec![Some(Err(5)), Some(Err(6))]);
    assert_eq!(failed.result, Err(5));
    let gone = finish_batch(requests(), true, vec![Some(Ok(Vec::new())), None]);
    assert_eq!(gone.result, Err(109));
    let undelivered = finish_batch(requests(), false, vec![Some(Err(5))]);
    assert_eq!(undelivered.result, Err(109));
    let nothing = finish_batch(batch(1, Vec::new()), false, Vec::new());
    assert_eq!(nothing.result, Ok(Vec::new()));
    assert_eq!(active_workers(3, 8), 3);
    assert_eq!(active_workers(30, 8), 8);
    assert_eq!(icon_worker_count(0), 1);
    assert_eq!(icon_worker_count(4), 4);
    assert_eq!(icon_worker_count(64), 8);
    assert_eq!(io_error_code(Some(5)), 5);
    assert_eq!(io_error_code(Some(-5)), 31);
    assert_eq!(io_error_code(None), 31);
}

#[test]
fn icons_come_from_the_window_or_its_class() {
    assert!(needs_plain_small_icon(false, 0, 7));
    assert!(!needs_plain_small_icon(false, 6, 7));
    assert!(!needs_plain_small_icon(true, 0, 0));
    assert_eq!(window_icons(0, 5, 7), (5, 7));
    assert_eq!(window_icons(6, 5, 0), (6, 5));
    assert_eq!(window_icons(0, 0, 0), (0, 0));
    assert_eq!(with_class_icons((0, 0), 0, 9), (9, 9));
    assert_eq!(with_class_icons((0, 3), 8, 9), (8, 3));
    let mut result = icons(3);
    assert_eq!(result.take_small_icon(), 30);
    assert_eq!(result.take_small_icon(), 0);
    assert_eq!(result.take_large_icon(), 300);
    assert_eq!(result.large_icon, 0);
}

#[test]
fn places_of_icons_are_used_again() {
    let mut slots = IconSlots::new();
    assert_eq!(slots.plan(false), Ok(SlotPlan::Shared));
    assert_eq!(slots.plan(true), Ok(SlotPlan::Append));
    assert_eq!(slots.allocate(Ok(4), Ok(4)).slot, Ok(4));
    let split = slots.allocate(Ok(5), Ok(6));
    assert_eq!(split.slot, Err(13));
    assert_eq!((split.undo_small, split.undo_large), (Some(5), Some(6)));
    let half = slots.allocate(Ok(5), Err(8));
    assert_eq!((half.slot, half.undo_small), (Err(8), Some(5)));
    assert_eq!(slots.allocate(Err(7), Ok(5)).slot, Err(7));
    assert_eq!(slots.slot_to_clear(0), Ok(None));
    assert_eq!(slots.slot_to_clear(4), Ok(Some(4)));
    assert_eq!(slots.slot_to_clear(usize::MAX), Err(13));
    assert_eq!(slots.release(4, None, Some(9)), Err(9));
    assert_eq!(slots.release(4, None, None), Ok(()));
    assert_eq!(slots.release(0, Some(9), None), Ok(()));
    assert_eq!(slots.plan(true), Ok(SlotPlan::Reuse(4)));
    assert_eq!(slots.allocate(Ok(5), Ok(5)).slot, Err(13));
    assert_eq!(slots.allocate(Ok(4), Ok(4)).slot, Ok(4));
    assert_eq!(slots.plan(true), Ok(SlotPlan::Append));
}
