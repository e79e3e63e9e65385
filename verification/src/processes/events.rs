//! What happens on the process page: notifications of the list, the menu, and its end.
use vstd::prelude::*;

use super::columns::{is_permutation, reordered, stored_width, ColumnId};
use super::commands::{
    build_context_menu, plain_item, priority_item, ContextMenu, ProcCommand, ProcPriority,
};
use super::model::ProcEntry;
use super::page::{first_selection, position_of, ProcessPageState};
use super::sort::in_order;
use crate::options::Options;
use crate::process_identity::ProcIdentity;
use crate::win32::{ERROR_GEN_FAILURE, ERROR_INVALID_DATA};

verus! {

/// What the list tells.
#[derive(Clone, Copy, Debug, PartialEq, Eq, Structural)]
pub enum ListNotification {
    /// It needs the text of a cell.
    DisplayInfo,
    /// An item has changed; the flag tells whether its state has.
    ItemChanged(bool),
    ColumnClick(i32),
    Other,
}

/// What follows from it.
#[derive(Clone, Copy, Debug, PartialEq, Eq, Structural)]
pub struct NotifyEffect {
    pub handled: bool,
    /// The text of the cell is filled in.
    pub fill_text: bool,
    /// Whether a process can be ended from now on, if that is told.
    pub can_end: Option<bool>,
    /// The list is brought up to date, and the rows are sampled anew.
    pub refresh: bool,
}

/// The column that was clicked; one that is not there counts as the process identifier.
pub open spec fn clicked_column(columns: Seq<ColumnId>, sub_item: i32) -> ColumnId {
    if 0 <= sub_item < columns.len() {
        columns[sub_item as int]
    } else {
        ColumnId::Pid
    }
}

impl ProcessPageState {
    /// The page after a column was clicked: sorted by it, downwards at first, and the other way
    /// with each further click.
    pub open spec fn sorted_by_click(
        &self,
        before: &ProcessPageState,
        sub_item: i32,
        selected: Option<ProcIdentity>,
    ) -> bool {
        let clicked = clicked_column(before.active_columns@, sub_item);
        &&& self.sort_column == clicked
        &&& self.sort_direction == if before.sort_column == clicked {
            -before.sort_direction
        } else {
            -1
        }
        &&& self.entries@ == in_order(before.entries@, self.sort_column, self.sort_direction)
        &&& *self == (ProcessPageState {
            entries: self.entries,
            sort_column: self.sort_column,
            sort_direction: self.sort_direction,
            selected_identity: first_selection(selected, before.selected_identity),
            ..*before
        })
    }

    /// Takes note of what the list tells. `selected` is the process that is selected in it.
    pub fn handle_notify(
        &mut self,
        notification: ListNotification,
        selected: Option<ProcIdentity>,
    ) -> (effect: NotifyEffect)
        requires
            old(self).sort_direction != i32::MIN,
        ensures
            match notification {
                ListNotification::DisplayInfo => *final(self) == *old(self) && effect == (
                NotifyEffect { handled: true, fill_text: true, can_end: None, refresh: false }),
                ListNotification::ItemChanged(state_changed) => if state_changed {
                    &&& *final(self) == (ProcessPageState {
                        selected_identity: selected,
                        ..*old(self)
                    })
                    &&& effect == (NotifyEffect {
                        handled: true,
                        fill_text: false,
                        can_end: Some(selected matches Some(identity) && identity.verified()),
                        refresh: false,
                    })
                } else {
                    *final(self) == *old(self) && effect == (NotifyEffect {
                        handled: true,
                        fill_text: false,
                        can_end: None,
                        refresh: false,
                    })
                },
                ListNotification::ColumnClick(sub_item) => {
                    &&& final(self).sorted_by_click(old(self), sub_item, selected)
                    &&& effect == (NotifyEffect {
                        handled: true,
                        fill_text: false,
                        can_end: None,
                        refresh: true,
                    })
                },
                ListNotification::Other => *final(self) == *old(self) && effect == (NotifyEffect {
                    handled: false,
                    fill_text: false,
                    can_end: None,
                    refresh: false,
                }),
            },
    {
        let mut effect = NotifyEffect {
            handled: true,
            fill_text: false,
            can_end: None,
            refresh: false,
        };
        match notification {
            ListNotification::DisplayInfo => {
                effect.fill_text = true;
            },
            ListNotification::ItemChanged(state_changed) => {
                if state_changed {
                    effect.can_end = Some(self.selection_changed(selected));
                }
            },
            ListNotification::ColumnClick(sub_item) => {
                let column: usize = if sub_item < 0 {
                    self.active_columns.len()
                } else {
                    sub_item as usize
                };
                self.column_clicked(column, selected);
                effect.refresh = true;
            },
            ListNotification::Other => {
                effect.handled = false;
            },
        }
        effect
    }

    /// The row of a process, if there is one.
    pub open spec fn row_of(&self, identity: Option<ProcIdentity>) -> Option<ProcEntry> {
        match identity {
            None => None,
            Some(identity) => match position_of(self.entries@, identity) {
                Some(index) => Some(self.entries@[index]),
                None => None,
            },
        }
    }

    /// Prepares the menu of the row that is selected; there is none without a row. As long as the
    /// menu is open, the page pauses.
    pub fn show_context_menu(&mut self, selected: Option<ProcIdentity>) -> (menu: Option<
        ContextMenu,
    >)
        ensures
            *final(self) == (ProcessPageState {
                selected_identity: selected,
                paused: old(self).paused || menu is Some,
                ..*old(self)
            }),
            match old(self).row_of(selected) {
                None => menu is None,
                Some(entry) => {
                    let verified = entry.identity.verified();
                    let class = entry.priority_class;
                    &&& menu matches Some(menu)
                    &&& menu.commands@ == seq![
                        plain_item(ProcCommand::Terminate, verified),
                        plain_item(ProcCommand::TerminateTree, verified),
                        plain_item(ProcCommand::OpenFileLocation, verified),
                        plain_item(
                            ProcCommand::Debug,
                            verified && old(self).debugger_path is Some,
                        ),
                    ]
                    &&& menu.priorities@ == seq![
                        priority_item(ProcPriority::Realtime, class, verified),
                        priority_item(ProcPriority::High, class, verified),
                        priority_item(ProcPriority::AboveNormal, class, verified),
                        priority_item(ProcPriority::Normal, class, verified),
                        priority_item(ProcPriority::BelowNormal, class, verified),
                        priority_item(ProcPriority::Low, class, verified),
                    ]
                    &&& menu.affinity == if old(self).processor_count > 1 {
                        Some(plain_item(ProcCommand::Affinity, verified))
                    } else {
                        None
                    }
                },
            },
    {
        self.selected_identity = selected;
        let menu = match self.selected_entry() {
            Some(entry) => build_context_menu(
                entry.identity,
                entry.priority_class,
                self.debugger_path.is_some(),
                self.processor_count,
            ),
            None => return None,
        };
        self.paused = true;
        Some(menu)
    }

    /// Takes note that the menu is closed.
    pub fn close_context_menu(&mut self)
        ensures
            *final(self) == (ProcessPageState { paused: false, ..*old(self) }),
    {
        self.paused = false;
    }

    /// Stores the columns when the page is left, and tells what is put on record if that fails.
    pub fn deactivate(
        &self,
        options: &mut Options,
        display_order: Option<Vec<i32>>,
        widths: &Vec<i32>,
    ) -> (error: Option<u32>)
        requires
            widths@.len() == self.active_columns@.len(),
        ensures
            error is Some ==> *final(options) == *old(options),
            ({
                let active = self.active_columns@;
                let order = display_order->0@;
                let columns = reordered(active, order);
                if active.len() == 0 {
                    error == Some(ERROR_INVALID_DATA)
                } else if display_order is None {
                    error == Some(ERROR_GEN_FAILURE)
                } else if !(is_permutation(order, active.len() as int) && columns[0]
                    == ColumnId::ImageName) {
                    error == Some(ERROR_INVALID_DATA)
                } else {
                    let stored = Self::widths_by_number(active, widths@);
                    &&& error is None
                    &&& forall|i: int|
                        0 <= i < 16 ==> #[trigger] final(options).active_process_columns@[i] == if i
                            < columns.len() {
                            columns[i].number()
                        } else {
                            -1
                        }
                    &&& forall|i: int|
                        0 <= i < 16 ==> #[trigger] final(options).column_widths@[i] == if i
                            < columns.len() {
                            stored_width(stored, columns[i])
                        } else {
                            -1
                        }
                    &&& *final(options) == (Options {
                        active_process_columns: final(options).active_process_columns,
                        column_widths: final(options).column_widths,
                        ..*old(options)
                    })
                }
            }),
    {
        match self.save_column_layout(options, display_order, widths) {
            Ok(_) => None,
            Err(error) => Some(error),
        }
    }
}

/// Two clicks on the column that the rows are sorted by leave the direction as it was.
pub proof fn second_click_restores_the_direction(
    first: ProcessPageState,
    second: ProcessPageState,
    third: ProcessPageState,
    sub_item: i32,
    selected: Option<ProcIdentity>,
)
    requires
        second.sorted_by_click(&first, sub_item, selected),
        third.sorted_by_click(&second, sub_item, selected),
        first.sort_column == clicked_column(first.active_columns@, sub_item),
    ensures
        third.sort_column == first.sort_column,
        third.sort_direction == first.sort_direction,
{
}

} // verus!
