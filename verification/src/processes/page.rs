//! The process page: its rows, what is selected, and how they are sorted.
use vstd::prelude::*;

use super::columns::{
    column_set, columns_among, columns_from_options, is_permutation, no_columns,
    reorder_process_columns, reordered, stored_width, write_process_column_layout, ColumnId,
    DirtyColumns,
};
use super::model::{column_display, column_text, priority_name, PriorityNames, ProcEntry};
use super::sampler::ProcWorkerSnapshot;
use super::snapshot::{merge_snapshot, merged_rows, rows_of};
use super::sort::{in_order, sort_entries};
use crate::options::{Options, UPDATE_SPEED_PAUSED};
use crate::process_identity::ProcIdentity;
use crate::rect::{fits_i32, max_i64, max_of, Rect};
use crate::table::Table;
use crate::win32::{ERROR_GEN_FAILURE, ERROR_INVALID_DATA};

verus! {

pub const DEFAULT_MARGIN: i32 = 8;

/// The rows from the first to the last that has to be drawn.
#[derive(Clone, Copy, Debug, PartialEq, Eq, Structural)]
pub struct DirtyRowRange {
    pub start: Option<usize>,
    pub end: usize,
}

impl DirtyRowRange {
    pub fn new() -> (range: Self)
        ensures
            range == (DirtyRowRange { start: None, end: 0 }),
    {
        DirtyRowRange { start: None, end: 0 }
    }

    pub fn mark(&mut self, index: usize)
        ensures
            final(self).start == Some(
                match old(self).start {
                    Some(start) if start <= index => start,
                    _ => index,
                },
            ),
            final(self).end == if old(self).end >= index {
                old(self).end
            } else {
                index
            },
    {
        self.start = Some(
            match self.start {
                Some(start) => if start <= index {
                    start
                } else {
                    index
                },
                None => index,
            },
        );
        if self.end < index {
            self.end = index;
        }
    }

    /// The part of the range that is visible, of a list that shows `visible_count` rows from
    /// `top` on.
    pub fn visible_rows(self, top: usize, visible_count: usize, item_count: usize) -> (rows: Option<
        (usize, usize),
    >)
        ensures
            ({
                let last = if top + visible_count < item_count {
                    top + visible_count
                } else {
                    item_count - 1
                };
                match rows {
                    Some((first, end)) => {
                        &&& self.start matches Some(start)
                        &&& item_count > 0 && visible_count > 0
                        &&& first == max_of(start as int, top as int)
                        &&& end == crate::rect::min_of(self.end as int, last)
                        &&& first <= end
                    },
                    None => self.start is None || item_count == 0 || visible_count == 0 || max_of(
                        self.start->0 as int,
                        top as int,
                    ) > crate::rect::min_of(self.end as int, last),
                }
            }),
    {
        let start: usize = match self.start {
            Some(start) => start,
            None => return None,
        };
        if item_count == 0 || visible_count == 0 {
            return None;
        }
        let beyond: usize = top.saturating_add(visible_count);
        let last: usize = if beyond < item_count {
            beyond
        } else {
            item_count - 1
        };
        let first: usize = if start >= top {
            start
        } else {
            top
        };
        let end: usize = if self.end <= last {
            self.end
        } else {
            last
        };
        if first > end {
            None
        } else {
            Some((first, end))
        }
    }
}

pub struct ProcessPageState {
    pub entries: Vec<ProcEntry>,
    pub displayed_identities: Vec<ProcIdentity>,
    pub active_columns: Vec<ColumnId>,
    pub selected_identity: Option<ProcIdentity>,
    pub pending_find_identity: Option<ProcIdentity>,
    pub sort_column: ColumnId,
    pub sort_direction: i32,
    pub paused: bool,
    pub confirmations: bool,
    pub no_title: bool,
    pub processor_count: usize,
    pub debugger_path: Option<String>,
    pub debugger_error: Option<u32>,
    pub pass_count: u64,
    pub last_refresh_error: Option<u32>,
    pub last_row_error: Option<u32>,
}

/// Where the row of a process stands, if it has one.
pub open spec fn position_of(entries: Seq<ProcEntry>, identity: ProcIdentity) -> Option<int>
    decreases entries.len(),
{
    if entries.len() == 0 {
        None
    } else if entries[0].identity == identity {
        Some(0)
    } else {
        match position_of(entries.drop_first(), identity) {
            Some(index) => Some(index + 1),
            None => None,
        }
    }
}

pub fn find_position(entries: &Vec<ProcEntry>, identity: ProcIdentity) -> (index: Option<usize>)
    ensures
        match index {
            Some(at) => position_of(entries@, identity) == Some(at as int) && at < entries@.len()
                && entries@[at as int].identity == identity,
            None => position_of(entries@, identity) is None,
        },
{
    assert(entries@.skip(0) =~= entries@);
    for index in 0..entries.len()
        invariant
            match position_of(entries@, identity) {
                Some(at) => position_of(entries@.skip(index as int), identity) == Some(at - index),
                None => position_of(entries@.skip(index as int), identity) is None,
            },
    {
        assert(entries@.skip(index as int)[0] == entries@[index as int]);
        assert(entries@.skip(index as int).drop_first() =~= entries@.skip(index + 1));
        if entries[index].identity == identity {
            return Some(index);
        }
    }
    None
}

pub open spec fn identities_of(entries: Seq<ProcEntry>) -> Seq<ProcIdentity> {
    entries.map_values(|entry: ProcEntry| entry.identity)
}

fn identities(entries: &Vec<ProcEntry>) -> (list: Vec<ProcIdentity>)
    ensures
        list@ == identities_of(entries@),
{
    let mut list: Vec<ProcIdentity> = Vec::new();
    for index in 0..entries.len()
        invariant
            list@ =~= identities_of(entries@.take(index as int)),
    {
        list.push(entries[index].identity);
    }
    assert(entries@.take(entries@.len() as int) =~= entries@);
    list
}

fn same_identities(a: &Vec<ProcIdentity>, b: &Vec<ProcIdentity>) -> (same: bool)
    ensures
        same == (a@ == b@),
{
    if a.len() != b.len() {
        return false;
    }
    for index in 0..a.len()
        invariant
            a@.len() == b@.len(),
            forall|i: int| 0 <= i < index ==> a@[i] == b@[i],
    {
        if a[index] != b[index] {
            return false;
        }
    }
    assert(a@ =~= b@);
    true
}

fn same_columns(a: &Vec<ColumnId>, b: &Vec<ColumnId>) -> (same: bool)
    ensures
        same == (a@ == b@),
{
    if a.len() != b.len() {
        return false;
    }
    for index in 0..a.len()
        invariant
            a@.len() == b@.len(),
            forall|i: int| 0 <= i < index ==> a@[i] == b@[i],
    {
        if a[index] != b[index] {
            return false;
        }
    }
    assert(a@ =~= b@);
    true
}

/// The first of two selections that there is.
pub open spec fn first_selection(
    first: Option<ProcIdentity>,
    second: Option<ProcIdentity>,
) -> Option<ProcIdentity> {
    if first is Some {
        first
    } else {
        second
    }
}

fn or_selection(first: Option<ProcIdentity>, second: Option<ProcIdentity>) -> (selection: Option<
    ProcIdentity,
>)
    ensures
        selection == first_selection(first, second),
{
    match first {
        Some(identity) => Some(identity),
        None => second,
    }
}

/// What to put on record after a refresh.
#[derive(Clone, Copy, Debug, PartialEq, Eq, Structural)]
pub struct RefreshRecord {
    pub refresh_error: Option<u32>,
    pub row_error: Option<u32>,
    pub rebuild: bool,
}

/// How the list has to be brought up to date.
#[derive(Clone, Copy, Debug, PartialEq, Eq, Structural)]
pub struct ListUpdate {
    pub structure_changed: bool,
    pub bulk_update: bool,
    pub selected_index: Option<usize>,
    pub dirty_rows: DirtyRowRange,
}

/// What was found of a process that the user wants to see.
#[derive(Clone, Copy, Debug, PartialEq, Eq, Structural)]
pub enum FindOutcome {
    /// Its identity is not verified, so that it cannot be found for sure.
    Refused,
    /// It has no row yet; it is selected when it appears.
    Pending,
    Found(usize),
}

impl ProcessPageState {
    pub fn new() -> (state: Self)
        ensures
            state.entries@.len() == 0,
            state.displayed_identities@.len() == 0,
            state.active_columns@.len() == 0,
            state.selected_identity is None,
            state.pending_find_identity is None,
            state.sort_column == ColumnId::Pid,
            state.sort_direction == 1,
            !state.paused,
            state.confirmations,
            !state.no_title,
            state.processor_count == 1,
            state.debugger_path is None,
            state.debugger_error is None,
            state.pass_count == 0,
            state.last_refresh_error is None,
            state.last_row_error is None,
    {
        ProcessPageState {
            entries: Vec::new(),
            displayed_identities: Vec::new(),
            active_columns: Vec::new(),
            selected_identity: None,
            pending_find_identity: None,
            sort_column: ColumnId::Pid,
            sort_direction: 1,
            paused: false,
            confirmations: true,
            no_title: false,
            processor_count: 1,
            debugger_path: None,
            debugger_error: None,
            pass_count: 0,
            last_refresh_error: None,
            last_row_error: None,
        }
    }

    pub fn no_title(&self) -> (no_title: bool)
        ensures
            no_title == self.no_title,
    {
        self.no_title
    }

    /// Takes note of the debugger that is configured, or why none could be read; returns the
    /// error to record.
    pub fn initialize(&mut self, debugger: Result<Option<String>, u32>) -> (record: Option<u32>)
        ensures
            *final(self) == (ProcessPageState {
                debugger_path: match debugger {
                    Ok(path) => path,
                    Err(_) => None,
                },
                debugger_error: match debugger {
                    Ok(_) => None,
                    Err(error) => Some(error),
                },
                ..*old(self)
            }),
            record == match debugger {
                Ok(_) => None::<u32>,
                Err(error) => Some(error),
            },
    {
        match debugger {
            Ok(path) => {
                self.debugger_path = path;
                self.debugger_error = None;
                None
            },
            Err(error) => {
                self.debugger_path = None;
                self.debugger_error = Some(error);
                Some(error)
            },
        }
    }

    /// Takes over the options of the user. Where other columns are shown than before, all rows
    /// are written anew; tells whether that is so.
    pub fn apply_options(&mut self, options: &Options, processor_count: usize) -> (columns_changed:
        bool)
        ensures
            columns_changed == (columns_among(options.active_process_columns@) != old(self).active_columns@),
            final(self).active_columns@ == columns_among(options.active_process_columns@),
            final(self).no_title == options.hide_title,
            final(self).confirmations == options.confirm_actions,
            final(self).processor_count == max_of(processor_count as int, 1),
            !columns_changed ==> final(self).entries@ == old(self).entries@,
            columns_changed ==> {
                &&& final(self).entries@.len() == old(self).entries@.len()
                &&& forall|i: int|
                    0 <= i < final(self).entries@.len() ==> {
                        let (after, before) = (
                            #[trigger] final(self).entries@[i],
                            old(self).entries@[i],
                        );
                        &&& after.same_sample(&before)
                        &&& after.dirty_columns == column_set(final(self).active_columns@)
                        &&& forall|column: ColumnId| #[trigger]
                            after.shown(column) == if final(self).active_columns@.contains(column)
                                && column != ColumnId::BasePriority {
                                column_display(before.facts(), column)
                            } else {
                                before.shown(column)
                            }
                    }
            },
            *final(self) == (ProcessPageState {
                entries: final(self).entries,
                active_columns: final(self).active_columns,
                no_title: final(self).no_title,
                confirmations: final(self).confirmations,
                processor_count: final(self).processor_count,
                ..*old(self)
            }),
    {
        self.no_title = options.no_title();
        self.confirmations = options.confirmations();
        self.processor_count = if processor_count == 0 {
            1
        } else {
            processor_count
        };
        let desired = columns_from_options(options);
        if same_columns(&desired, &self.active_columns) {
            return false;
        }
        let visible = DirtyColumns::from_columns(desired.as_slice());
        let ghost before = self.entries@;
        let count: usize = self.entries.len();
        for index in 0..count
            invariant
                count == before.len(),
                self.entries@.len() == count,
                *self == (ProcessPageState {
                    entries: self.entries,
                    no_title: options.hide_title,
                    confirmations: options.confirm_actions,
                    processor_count: self.processor_count,
                    ..*old(self)
                }),
                self.processor_count == max_of(processor_count as int, 1),
                before == old(self).entries@,
                visible == column_set(desired@),
                forall|i: int| index <= i < count ==> #[trigger] self.entries@[i] == before[i],
                forall|i: int|
                    0 <= i < index ==> {
                        let (after, row) = (#[trigger] self.entries@[i], before[i]);
                        &&& after.same_sample(&row)
                        &&& after.dirty_columns == column_set(desired@)
                        &&& forall|column: ColumnId| #[trigger]
                            after.shown(column) == if desired@.contains(column) && column
                                != ColumnId::BasePriority {
                                column_display(row.facts(), column)
                            } else {
                                row.shown(column)
                            }
                    },
        {
            self.entries[index].rebuild_display_columns(desired.as_slice());
            let ghost rebuilt = self.entries@[index as int];
            self.entries[index].dirty_columns = visible;
            assert(forall|column: ColumnId| #[trigger]
                self.entries@[index as int].shown(column) == rebuilt.shown(column));
        }
        self.active_columns = desired;
        true
    }

    /// Whether a refresh is due.
    pub fn timer_event(&mut self, options: &Options, force: bool) -> (refresh: bool)
        ensures
            refresh == (force || options.update_speed != UPDATE_SPEED_PAUSED),
            *final(self) == (ProcessPageState {
                paused: options.update_speed == UPDATE_SPEED_PAUSED,
                ..*old(self)
            }),
    {
        self.paused = options.update_speed == UPDATE_SPEED_PAUSED;
        force || !self.paused
    }

    /// Forgets all rows.
    pub fn destroy(&mut self)
        ensures
            final(self).entries@.len() == 0,
            final(self).displayed_identities@.len() == 0,
            *final(self) == (ProcessPageState {
                entries: final(self).entries,
                displayed_identities: final(self).displayed_identities,
                ..*old(self)
            }),
    {
        self.entries.clear();
        self.displayed_identities.clear();
    }

    /// The process in a row of the list.
    pub fn identity_at(&self, index: i32) -> (identity: Option<ProcIdentity>)
        ensures
            identity == if 0 <= index < self.entries@.len() {
                Some(self.entries@[index as int].identity)
            } else {
                None
            },
    {
        if index < 0 || index as usize >= self.entries.len() {
            return None;
        }
        Some(self.entries[index as usize].identity)
    }

    /// Takes note of what is selected; tells whether it can be ended.
    pub fn selection_changed(&mut self, selected: Option<ProcIdentity>) -> (can_end: bool)
        ensures
            *final(self) == (ProcessPageState { selected_identity: selected, ..*old(self) }),
            can_end == (selected matches Some(identity) && identity.verified()),
    {
        self.selected_identity = selected;
        match selected {
            Some(identity) => identity.is_verified(),
            None => false,
        }
    }

    /// Sorts by the column that was clicked: a new one downwards, the same one the other way.
    pub fn column_clicked(&mut self, sub_item: usize, selected: Option<ProcIdentity>)
        requires
            old(self).sort_direction != i32::MIN,
        ensures
            ({
                let clicked = if sub_item < old(self).active_columns@.len() {
                    old(self).active_columns@[sub_item as int]
                } else {
                    ColumnId::Pid
                };
                let same = old(self).sort_column == clicked;
                &&& final(self).sort_column == clicked
                &&& final(self).sort_direction == if same {
                    -old(self).sort_direction
                } else {
                    -1
                }
                &&& final(self).entries@ == in_order(
                    old(self).entries@,
                    final(self).sort_column,
                    final(self).sort_direction,
                )
                &&& *final(self) == (ProcessPageState {
                    entries: final(self).entries,
                    sort_column: final(self).sort_column,
                    sort_direction: final(self).sort_direction,
                    selected_identity: first_selection(selected, old(self).selected_identity),
                    ..*old(self)
                })
            }),
    {
        let clicked = if sub_item < self.active_columns.len() {
            self.active_columns[sub_item]
        } else {
            ColumnId::Pid
        };
        if self.sort_column == clicked {
            self.sort_direction = -self.sort_direction;
        } else {
            self.sort_column = clicked;
            self.sort_direction = -1;
        }
        self.selected_identity = or_selection(selected, self.selected_identity);
        sort_entries(&mut self.entries, self.sort_column, self.sort_direction);
    }

    /// Takes note of a refresh that failed; tells whether the error is a new one.
    pub fn set_refresh_error(&mut self, error: u32) -> (is_new: bool)
        ensures
            is_new == (old(self).last_refresh_error != Some(error)),
            *final(self) == (ProcessPageState { last_refresh_error: Some(error), ..*old(self) }),
    {
        let is_new = match self.last_refresh_error {
            Some(last) => last != error,
            None => true,
        };
        self.last_refresh_error = Some(error);
        is_new
    }

    /// Takes a new sample of all processes over. What was selected stays selected, unless a
    /// process that was looked for has appeared.
    pub fn apply_process_snapshot(
        &mut self,
        entries: Vec<ProcEntry>,
        selected: Option<ProcIdentity>,
    )
        ensures
            ({
                let merged = merged_rows(
                    rows_of(old(self).entries@),
                    rows_of(entries@),
                    old(self).pass_count,
                    column_set(old(self).active_columns@),
                    old(self).sort_column,
                );
                exists|rows: Seq<ProcEntry>|
                    #[trigger] rows_of(rows) == merged.rows && final(self).entries@
                        == if merged.sort_dirty {
                        in_order(rows, old(self).sort_column, old(self).sort_direction)
                    } else {
                        rows
                    }
            }),
            final(self).selected_identity == match old(self).pending_find_identity {
                Some(wanted) if position_of(final(self).entries@, wanted) is Some => Some(wanted),
                _ => first_selection(selected, old(self).selected_identity),
            },
            *final(self) == (ProcessPageState {
                entries: final(self).entries,
                selected_identity: final(self).selected_identity,
                pending_find_identity: None,
                pass_count: if old(self).pass_count == u64::MAX {
                    0
                } else {
                    (old(self).pass_count + 1) as u64
                },
                ..*old(self)
            }),
    {
        let previous_selection = or_selection(selected, self.selected_identity);
        merge_snapshot(
            &mut self.entries,
            entries,
            self.pass_count,
            &self.active_columns,
            self.sort_column,
            self.sort_direction,
        );
        let requested = match self.pending_find_identity {
            Some(wanted) => match find_position(&self.entries, wanted) {
                Some(_) => Some(wanted),
                None => None,
            },
            None => None,
        };
        self.pending_find_identity = None;
        self.selected_identity = or_selection(requested, previous_selection);
        self.pass_count = self.pass_count.wrapping_add(1);
    }

    /// Takes the result of a refresh. A refresh that failed leaves every row as it is.
    pub fn apply_worker_completion(
        &mut self,
        completion: Result<ProcWorkerSnapshot, u32>,
        selected: Option<ProcIdentity>,
    ) -> (record: RefreshRecord)
        ensures
            match completion {
                Err(error) => {
                    &&& *final(self) == (ProcessPageState {
                        last_refresh_error: Some(error),
                        ..*old(self)
                    })
                    &&& record == (RefreshRecord {
                        refresh_error: if old(self).last_refresh_error != Some(error) {
                            Some(error)
                        } else {
                            None
                        },
                        row_error: None,
                        rebuild: false,
                    })
                },
                Ok(snapshot) => {
                    let merged = merged_rows(
                        rows_of(old(self).entries@),
                        rows_of(snapshot.entries@),
                        old(self).pass_count,
                        column_set(old(self).active_columns@),
                        old(self).sort_column,
                    );
                    &&& exists|rows: Seq<ProcEntry>|
                        #[trigger] rows_of(rows) == merged.rows && final(self).entries@
                            == if merged.sort_dirty {
                            in_order(rows, old(self).sort_column, old(self).sort_direction)
                        } else {
                            rows
                        }
                    &&& final(self).last_refresh_error is None
                    &&& final(self).last_row_error == snapshot.row_error
                    &&& record == (RefreshRecord {
                        refresh_error: None,
                        row_error: if old(self).last_row_error != snapshot.row_error {
                            snapshot.row_error
                        } else {
                            None
                        },
                        rebuild: true,
                    })
                    &&& *final(self) == (ProcessPageState {
                        entries: final(self).entries,
                        selected_identity: final(self).selected_identity,
                        pending_find_identity: None,
                        pass_count: final(self).pass_count,
                        last_refresh_error: None,
                        last_row_error: snapshot.row_error,
                        ..*old(self)
                    })
                    &&& final(self).pass_count == if old(self).pass_count == u64::MAX {
                        0
                    } else {
                        old(self).pass_count + 1
                    }
                    &&& final(self).selected_identity == match old(self).pending_find_identity {
                        Some(wanted) if position_of(final(self).entries@, wanted) is Some => Some(
                            wanted,
                        ),
                        _ => first_selection(selected, old(self).selected_identity),
                    }
                },
            },
    {
        match completion {
            Err(error) => {
                let is_new = self.set_refresh_error(error);
                RefreshRecord {
                    refresh_error: if is_new {
                        Some(error)
                    } else {
                        None
                    },
                    row_error: None,
                    rebuild: false,
                }
            },
            Ok(snapshot) => {
                self.last_refresh_error = None;
                let same_error = match (self.last_row_error, snapshot.row_error) {
                    (None, None) => true,
                    (Some(last), Some(now)) => last == now,
                    _ => false,
                };
                self.last_row_error = snapshot.row_error;
                let row_error = if same_error {
                    None
                } else {
                    snapshot.row_error
                };
                self.apply_process_snapshot(snapshot.entries, selected);
                RefreshRecord { refresh_error: None, row_error, rebuild: true }
            },
        }
    }

    /// Looks for the row of a process.
    pub fn find_process(&mut self, identity: ProcIdentity) -> (outcome: FindOutcome)
        ensures
            match position_of(old(self).entries@, identity) {
                _ if !identity.verified() => outcome == FindOutcome::Refused && *final(self)
                    == *old(self),
                Some(index) => outcome == FindOutcome::Found(index as usize) && index
                    <= usize::MAX && *final(self) == (ProcessPageState {
                    selected_identity: Some(identity),
                    ..*old(self)
                }),
                None => outcome == FindOutcome::Pending && *final(self) == (ProcessPageState {
                    pending_find_identity: Some(identity),
                    ..*old(self)
                }),
            },
    {
        if !identity.is_verified() {
            return FindOutcome::Refused;
        }
        match find_position(&self.entries, identity) {
            Some(index) => {
                self.selected_identity = Some(identity);
                FindOutcome::Found(index)
            },
            None => {
                self.pending_find_identity = Some(identity);
                FindOutcome::Pending
            },
        }
    }

    /// Says how the list has to be brought up to date, of which `existing_count` rows are shown.
    /// The rows count as drawn from now on.
    pub fn rebuild_listview(&mut self, existing_count: usize) -> (update: ListUpdate)
        ensures
            ({
                let entries = old(self).entries@;
                let selected = match old(self).selected_identity {
                    Some(identity) => position_of(entries, identity),
                    None => None,
                };
                &&& update.structure_changed == (existing_count != entries.len())
                &&& update.bulk_update == (existing_count != entries.len()
                    || old(self).displayed_identities@ != identities_of(entries))
                &&& match update.selected_index {
                    Some(index) => selected == Some(index as int),
                    None => selected is None,
                }
                &&& covers_dirty(update.dirty_rows, entries)
                &&& final(self).entries@.len() == entries.len()
                &&& forall|i: int|
                    0 <= i < entries.len() ==> {
                        let (after, before) = (#[trigger] final(self).entries@[i], entries[i]);
                        &&& after.dirty_columns == no_columns()
                        &&& after.same_sample(&before)
                        &&& after.display_text == before.display_text
                    }
                &&& final(self).displayed_identities@ == identities_of(entries)
                &&& *final(self) == (ProcessPageState {
                    entries: final(self).entries,
                    displayed_identities: final(self).displayed_identities,
                    selected_identity: if selected is Some {
                        old(self).selected_identity
                    } else {
                        None
                    },
                    ..*old(self)
                })
            }),
    {
        let selected_index: Option<usize> = match self.selected_identity {
            Some(identity) => find_position(&self.entries, identity),
            None => None,
        };
        let current = identities(&self.entries);
        let structure_changed = existing_count != self.entries.len();
        let order_changed = !same_identities(&self.displayed_identities, &current);
        let mut dirty_rows = DirtyRowRange::new();
        let ghost before = self.entries@;
        let count: usize = self.entries.len();
        for index in 0..count
            invariant
                count == before.len(),
                before == old(self).entries@,
                self.entries@.len() == count,
                *self == (ProcessPageState { entries: self.entries, ..*old(self) }),
                forall|i: int| index <= i < count ==> #[trigger] self.entries@[i] == before[i],
                forall|i: int|
                    0 <= i < index ==> {
                        let (after, row) = (#[trigger] self.entries@[i], before[i]);
                        &&& after.dirty_columns == no_columns()
                        &&& after.same_sample(&row)
                        &&& after.display_text == row.display_text
                    },
                covers_dirty(dirty_rows, before.take(index as int)),
        {
            proof {
                assert(self.entries@[index as int] == before[index as int]);
                assert(forall|i: int|
                    0 <= i < index ==> #[trigger] before.take(index + 1)[i] == before.take(
                        index as int,
                    )[i]);
                assert(before.take(index + 1)[index as int] == before[index as int]);
            }
            let ghost range = dirty_rows;
            if self.entries[index].dirty_columns.any() {
                self.entries[index].dirty_columns = DirtyColumns(0);
                dirty_rows.mark(index);
            }
            proof {
                lemma_covers_next(range, dirty_rows, before, index as int);
            }
        }
        assert(before.take(count as int) =~= before);
        self.displayed_identities = current;
        if selected_index.is_none() {
            self.selected_identity = None;
        }
        ListUpdate {
            structure_changed,
            bulk_update: structure_changed || order_changed,
            selected_index,
            dirty_rows,
        }
    }

    /// The text of a cell of the list; none where there is no such cell.
    pub fn fill_display_info<'a>(
        &'a self,
        item: i32,
        sub_item: i32,
        strings: &'a PriorityNames,
    ) -> (text: Option<&'a str>)
        ensures
            text is Some <==> 0 <= item < self.entries@.len() && 0 <= sub_item
                < self.active_columns@.len(),
            text matches Some(text) ==> text@ == if self.active_columns@[sub_item as int]
                == ColumnId::BasePriority {
                priority_name(*strings, self.entries@[item as int].priority_class)
            } else {
                self.entries@[item as int].shown(self.active_columns@[sub_item as int])
            },
    {
        if item < 0 || sub_item < 0 || item as usize >= self.entries.len() || sub_item as usize
            >= self.active_columns.len() {
            return None;
        }
        Some(
            column_text(
                &self.entries[item as usize],
                self.active_columns[sub_item as usize],
                strings,
            ),
        )
    }

    /// The row of the selected process.
    pub fn selected_entry(&self) -> (entry: Option<&ProcEntry>)
        ensures
            match entry {
                Some(entry) => self.selected_identity matches Some(identity) && position_of(
                    self.entries@,
                    identity,
                ) matches Some(index) && *entry == self.entries@[index],
                None => self.selected_identity matches Some(identity) ==> position_of(
                    self.entries@,
                    identity,
                ) is None,
            },
    {
        match self.selected_identity {
            Some(identity) => match find_position(&self.entries, identity) {
                Some(index) => Some(&self.entries[index]),
                None => None,
            },
            None => None,
        }
    }

    /// The widths of the shown columns by their numbers.
    pub open spec fn widths_by_number(columns: Seq<ColumnId>, widths: Seq<i32>) -> Map<u32, i32>
        decreases columns.len(),
    {
        if columns.len() == 0 {
            Map::empty()
        } else {
            Self::widths_by_number(columns.drop_last(), widths).insert(
                columns.last().number() as u32,
                widths[columns.len() - 1],
            )
        }
    }

    /// Stores the columns in the order in which they are displayed. `display_order` is what the
    /// list says of that order, and `widths` are the widths of the columns.
    pub fn save_column_layout(
        &self,
        options: &mut Options,
        display_order: Option<Vec<i32>>,
        widths: &Vec<i32>,
    ) -> (outcome: Result<(), u32>)
        requires
            widths@.len() == self.active_columns@.len(),
        ensures
            ({
                let active = self.active_columns@;
                let order = display_order->0@;
                let valid = is_permutation(order, active.len() as int) && reordered(
                    active,
                    order,
                )[0] == ColumnId::ImageName;
                if active.len() == 0 {
                    outcome == Err::<(), u32>(ERROR_INVALID_DATA) && *final(options) == *old(options)
                } else if display_order is None {
                    outcome == Err::<(), u32>(ERROR_GEN_FAILURE) && *final(options) == *old(options)
                } else if !valid {
                    outcome == Err::<(), u32>(ERROR_INVALID_DATA) && *final(options) == *old(options)
                } else {
                    let columns = reordered(active, order);
                    let stored = Self::widths_by_number(active, widths@);
                    &&& outcome == Ok::<(), u32>(())
                    &&& forall|i: int|
                        0 <= i < 16 ==> #[trigger] final(options).active_process_columns@[i] == if i
                            < columns.len() {
                            columns[i].number()
                        } else {
                            -1
                        }
                    &&& forall|i: int|
                        0 <= i < 16 ==> #[trigger] final(options).column_widths@[i] == if i
                            < columns.len() {
                            stored_width(stored, columns[i])
                        } else {
                            -1
                        }
                    &&& *final(options) == (Options {
                        active_process_columns: final(options).active_process_columns,
                        column_widths: final(options).column_widths,
                        ..*old(options)
                    })
                }
            }),
    {
        if self.active_columns.len() == 0 {
            return Err(ERROR_INVALID_DATA);
        }
        let order = match display_order {
            Some(order) => order,
            None => return Err(ERROR_GEN_FAILURE),
        };
        let columns = match reorder_process_columns(
            self.active_columns.as_slice(),
            order.as_slice(),
        ) {
            Some(columns) => columns,
            None => return Err(ERROR_INVALID_DATA),
        };
        let ghost active = self.active_columns@;
        let mut stored: Table<u32, i32> = Table::new();
        assert(active.take(0) =~= Seq::<ColumnId>::empty());
        for index in 0..self.active_columns.len()
            invariant
                active == self.active_columns@,
                widths@.len() == active.len(),
                stored.well_formed(),
                stored@ == Self::widths_by_number(active.take(index as int), widths@),
        {
            assert(active.take(index + 1).drop_last() =~= active.take(index as int));
            stored.insert(self.active_columns[index].index() as u32, widths[index]);
        }
        assert(active.take(active.len() as int) =~= active);
        write_process_column_layout(options, columns.as_slice(), &stored);
        Ok(())
    }
}

/// Whether a range reaches from the first to the last row that has to be drawn.
pub open spec fn covers_dirty(range: DirtyRowRange, entries: Seq<ProcEntry>) -> bool {
    &&& match range.start {
        None => range.end == 0 && forall|i: int|
            0 <= i < entries.len() ==> (#[trigger] entries[i]).dirty_columns == no_columns(),
        Some(start) => {
            &&& start <= range.end < entries.len()
            &&& entries[start as int].dirty_columns != no_columns()
            &&& entries[range.end as int].dirty_columns != no_columns()
            &&& forall|i: int|
                0 <= i < entries.len() && (#[trigger] entries[i]).dirty_columns != no_columns()
                    ==> start <= i <= range.end
        },
    }
}

proof fn lemma_covers_next(
    range: DirtyRowRange,
    next: DirtyRowRange,
    entries: Seq<ProcEntry>,
    index: int,
)
    requires
        0 <= index < entries.len() <= usize::MAX,
        covers_dirty(range, entries.take(index)),
        entries[index].dirty_columns == no_columns() ==> next == range,
        entries[index].dirty_columns != no_columns() ==> {
            &&& next.start == Some(
                match range.start {
                    Some(start) if start <= index => start,
                    _ => index as usize,
                },
            )
            &&& next.end == if range.end >= index {
                range.end
            } else {
                index as usize
            }
        },
    ensures
        covers_dirty(next, entries.take(index + 1)),
{
    let before = entries.take(index);
    let after = entries.take(index + 1);
    assert(forall|i: int| 0 <= i < index ==> #[trigger] after[i] == before[i]);
    assert(after[index] == entries[index]);
    match range.start {
        Some(start) => {
            assert(before[start as int] == after[start as int]);
            assert(before[range.end as int] == after[range.end as int]);
        },
        None => {
            assert forall|i: int| 0 <= i < index implies (#[trigger] after[i]).dirty_columns
                == no_columns() by {
                assert(before[i].dirty_columns == no_columns());
            }
        },
    }
    assert forall|i: int|
        0 <= i < after.len() && (#[trigger] after[i]).dirty_columns != no_columns() && i
            < index implies before[i].dirty_columns != no_columns() by {
        assert(before[i] == after[i]);
    }
}

/// Where the button that ends a process and the list go.
#[derive(Clone, Copy, Debug, PartialEq, Eq, Structural)]
pub struct ProcessLayout {
    pub button_x: i32,
    pub button_y: i32,
    pub list_width: i32,
    pub list_height: i32,
}

/// Lays the page out: the button stays at the lower right corner, and the list takes the rest.
pub fn size_page(parent: Rect, button: Rect, list: Rect) -> (layout: ProcessLayout)
    requires
        ({
            let dx = parent.right - 16 - button.right;
            let dy = parent.bottom - 16 - button.bottom;
            fits_i32(button.left + dx) && fits_i32(button.top + dy) && fits_i32(
                button.right - list.left + dx,
            ) && fits_i32(button.top - list.top + dy - 8)
        }),
    ensures
        ({
            let dx = parent.right - 16 - button.right;
            let dy = parent.bottom - 16 - button.bottom;
            layout == (ProcessLayout {
                button_x: (button.left + dx) as i32,
                button_y: (button.top + dy) as i32,
                list_width: max_of(button.right - list.left + dx, 0) as i32,
                list_height: max_of(button.top - list.top + dy - 8, 0) as i32,
            })
        }),
{
    let dx: i64 = parent.right as i64 - 2 * DEFAULT_MARGIN as i64 - button.right as i64;
    let dy: i64 = parent.bottom as i64 - 2 * DEFAULT_MARGIN as i64 - button.bottom as i64;
    ProcessLayout {
        button_x: (button.left as i64 + dx) as i32,
        button_y: (button.top as i64 + dy) as i32,
        list_width: max_i64(button.right as i64 - list.left as i64 + dx, 0) as i32,
        list_height: max_i64(
            button.top as i64 - list.top as i64 + dy - DEFAULT_MARGIN as i64,
            0,
        ) as i32,
    }
}

} // verus!
