//! Options of the user.
use vstd::prelude::*;

verus! {

/// The update speed at which nothing is refreshed.
pub const UPDATE_SPEED_PAUSED: i32 = 3;

/// Options that are kept from one run to the next. Of the columns of the process list there are
/// the numbers in display order and the widths; unused places hold minus one.
#[derive(Clone, Copy, Debug, PartialEq, Eq)]
pub struct Options {
    pub active_process_columns: [i32; 16],
    pub column_widths: [i32; 16],
    pub cpu_history_mode: i32,
    pub update_speed: i32,
    pub hide_title: bool,
    pub confirm_actions: bool,
    pub show_kernel_times: bool,
}

impl Default for Options {
    fn default() -> (options: Self)
        ensures
            forall|i: int| 0 <= i < 16 ==> #[trigger] options.active_process_columns@[i] == -1,
            forall|i: int| 0 <= i < 16 ==> #[trigger] options.column_widths@[i] == -1,
            options.cpu_history_mode == 0,
            options.update_speed == 0,
            !options.hide_title,
            options.confirm_actions,
            !options.show_kernel_times,
    {
        Options {
            active_process_columns: [-1; 16],
            column_widths: [-1; 16],
            cpu_history_mode: 0,
            update_speed: 0,
            hide_title: false,
            confirm_actions: true,
            show_kernel_times: false,
        }
    }
}

impl Options {
    pub fn no_title(&self) -> (no_title: bool)
        ensures
            no_title == self.hide_title,
    {
        self.hide_title
    }

    pub fn confirmations(&self) -> (confirmations: bool)
        ensures
            confirmations == self.confirm_actions,
    {
        self.confirm_actions
    }

    pub fn kernel_times(&self) -> (kernel_times: bool)
        ensures
            kernel_times == self.show_kernel_times,
    {
        self.show_kernel_times
    }
}

} // verus!
