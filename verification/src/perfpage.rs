//! The performance page: what it remembers of the system, and what it shows.
use vstd::prelude::*;

use crate::history::{pushed, HistoryAccess, HistoryBuffer};
use crate::options::Options;
use crate::perf_drawing::{
    format_mem_meter_text, rgb, rgb_value, up_to_zero, HistoryPlotLayout, GRAPH_GRID, HIST_SIZE,
};
use crate::perf_layout::{next_extent, next_graph_surface_extent, PerfDialogSpacing, PerfLayoutPlan};
use crate::rect::{fits_i32, max_i64, max_of, min_i64, min_of, quotient, divide, Rect};
use crate::resource::{
    DYNAMIC_CPU_GRAPH_ID_BASE, IDC_AVAIL_PHYSICAL, IDC_COMMIT_LIMIT, IDC_COMMIT_PEAK,
    IDC_COMMIT_TOTAL, IDC_CPUFRAME, IDC_CPUGRAPH, IDC_CPUMETER, IDC_CPUUSAGEFRAME, IDC_FILE_CACHE,
    IDC_KERNEL_NONPAGED, IDC_KERNEL_PAGED, IDC_KERNEL_TOTAL, IDC_MEMBARFRAME, IDC_MEMFRAME,
    IDC_MEMGRAPH, IDC_MEMMETER, IDC_STATIC1, IDC_STATIC10, IDC_STATIC11, IDC_STATIC12,
    IDC_STATIC13, IDC_STATIC14, IDC_STATIC15, IDC_STATIC16, IDC_STATIC17, IDC_STATIC2, IDC_STATIC3,
    IDC_STATIC4, IDC_STATIC5, IDC_STATIC6, IDC_STATIC8, IDC_STATIC9, IDC_TOTAL_HANDLES,
    IDC_TOTAL_PHYSICAL, IDC_TOTAL_PROCESSES, IDC_TOTAL_THREADS, TEMPLATE_CPU_GRAPH_COUNT,
};
use crate::text::{append_text, decimal_chars, decimal_text, string_of};
use crate::utf16::decoded_lossy;
use crate::win32::{ERROR_ARITHMETIC_OVERFLOW, ERROR_INVALID_DATA};

verus! {

pub const STRIP_HEIGHT: i32 = 75;

pub const STRIP_WIDTH: i32 = 33;

pub const GRAPH_SURFACE_WIDTH_QUANTUM: i32 = 128;

pub const GRAPH_SURFACE_HEIGHT_QUANTUM: i32 = 64;

/// The history mode in which every processor has a graph of its own.
pub const CPU_HISTORY_PANES: i32 = 1;

/// Amounts of memory and counts of objects, as the system reports them.
#[derive(Clone, Copy, Debug, PartialEq, Eq, Structural)]
pub struct SystemCounters {
    pub cpu_usage: u8,
    pub kernel_usage: u8,
    pub physical_mem_usage_kb: u64,
    pub physical_mem_limit_kb: u64,
    pub commit_total_kb: u64,
    pub commit_limit_kb: u64,
    pub commit_peak_kb: u64,
    pub total_physical_kb: u64,
    pub avail_physical_kb: u64,
    pub file_cache_kb: u64,
    pub kernel_total_kb: u64,
    pub kernel_paged_kb: u64,
    pub kernel_nonpaged_kb: u64,
    pub handle_count: u32,
    pub thread_count: u32,
    pub process_count: u32,
}

/// One sample of the system. The usage of processors is only meaningful where there was an
/// earlier sample to compare with.
#[derive(Clone, Debug, PartialEq, Eq)]
pub struct SystemSample {
    pub processor_count: usize,
    pub cpu_delta_valid: bool,
    pub counters: SystemCounters,
    pub processor_cpu_usage: Vec<u8>,
    pub processor_kernel_usage: Vec<u8>,
}

/// What the user has chosen for the page.
#[derive(Clone, Copy, Debug, PartialEq, Eq, Structural)]
pub struct PerfSettings {
    pub cpu_history_mode: i32,
    pub show_kernel_times: bool,
    pub no_title: bool,
}

pub open spec fn settings_of(options: Options) -> PerfSettings {
    PerfSettings {
        cpu_history_mode: options.cpu_history_mode,
        show_kernel_times: options.show_kernel_times,
        no_title: options.hide_title,
    }
}

/// The drawing surface that graphs are composed on, where there is one.
#[derive(Clone, Copy, Debug, PartialEq, Eq, Structural)]
pub struct GraphSurface {
    pub present: bool,
    pub width: i32,
    pub height: i32,
}

pub struct PerformancePageState {
    pub processor_count: usize,
    pub graph_slots: usize,
    pub counters: SystemCounters,
    pub settings: PerfSettings,
    pub scroll_offset: i32,
    pub cpu_history: Vec<HistoryBuffer>,
    pub kernel_history: Vec<HistoryBuffer>,
    pub mem_history: HistoryBuffer,
    pub averaged_cpu_history: HistoryBuffer,
    pub averaged_kernel_history: HistoryBuffer,
    pub surface: GraphSurface,
    pub last_meter_draw_error: Option<u32>,
}

/// A history before anything was sampled.
pub open spec fn zero_history() -> Seq<u8> {
    Seq::new(HIST_SIZE as nat, |i: int| 0u8)
}

pub open spec fn history_views(histories: Seq<HistoryBuffer>) -> Seq<Seq<u8>> {
    histories.map_values(|history: HistoryBuffer| history@)
}

/// The histories after each got its value.
pub open spec fn pushed_all(histories: Seq<Seq<u8>>, values: Seq<u8>) -> Seq<Seq<u8>> {
    Seq::new(
        histories.len(),
        |i: int|
            if i < values.len() {
                pushed(histories[i], values[i])
            } else {
                histories[i]
            },
    )
}

/// All histories of the page.
pub struct Histories {
    pub cpu: Seq<Seq<u8>>,
    pub kernel: Seq<Seq<u8>>,
    pub mem: Seq<u8>,
    pub averaged_cpu: Seq<u8>,
    pub averaged_kernel: Seq<u8>,
}

/// Histories of a machine with `processor_count` processors before anything was sampled.
pub open spec fn fresh_histories(processor_count: int) -> Histories {
    Histories {
        cpu: Seq::new(processor_count as nat, |i: int| zero_history()),
        kernel: Seq::new(processor_count as nat, |i: int| zero_history()),
        mem: zero_history(),
        averaged_cpu: zero_history(),
        averaged_kernel: zero_history(),
    }
}

/// The share of memory in use in percent, at most one hundred.
pub open spec fn memory_percent(usage_kb: u64, limit_kb: u64) -> u8 {
    if limit_kb == 0 {
        0
    } else {
        min_of(usage_kb * 100 / limit_kb as int, 100) as u8
    }
}

pub fn memory_usage_percent(usage_kb: u64, limit_kb: u64) -> (percent: u8)
    ensures
        percent == memory_percent(usage_kb, limit_kb),
        percent <= 100,
{
    if limit_kb == 0 {
        0
    } else {
        let percent: u128 = usage_kb as u128 * 100 / limit_kb as u128;
        if percent > 100 {
            100
        } else {
            percent as u8
        }
    }
}

fn zero_histories(count: usize) -> (histories: Vec<HistoryBuffer>)
    ensures
        history_views(histories@) == Seq::new(count as nat, |i: int| zero_history()),
{
    let mut histories: Vec<HistoryBuffer> = Vec::new();
    for index in 0..count
        invariant
            history_views(histories@) =~= Seq::new(index as nat, |i: int| zero_history()),
    {
        let ghost before = histories@;
        let history = HistoryBuffer::zeroed(HIST_SIZE);
        assert(history@ =~= zero_history());
        histories.push(history);
        assert(history_views(histories@) =~= history_views(before).push(zero_history()));
    }
    histories
}

fn push_all(histories: &mut Vec<HistoryBuffer>, values: &Vec<u8>)
    ensures
        history_views(final(histories)@) == pushed_all(history_views(old(histories)@), values@),
{
    let ghost start = history_views(histories@);
    let count: usize = if histories.len() < values.len() {
        histories.len()
    } else {
        values.len()
    };
    for index in 0..count
        invariant
            count <= histories@.len(),
            count <= values@.len(),
            histories@.len() == start.len(),
            forall|i: int|
                0 <= i < histories@.len() ==> (#[trigger] histories@[i])@ == if i < index {
                    pushed(start[i], values@[i])
                } else {
                    start[i]
                },
    {
        histories[index].push(values[index]);
    }
    assert(history_views(histories@) =~= pushed_all(start, values@));
}

/// The counters before anything was sampled.
pub open spec fn no_counters() -> SystemCounters {
    SystemCounters {
        cpu_usage: 0,
        kernel_usage: 0,
        physical_mem_usage_kb: 0,
        physical_mem_limit_kb: 0,
        commit_total_kb: 0,
        commit_limit_kb: 0,
        commit_peak_kb: 0,
        total_physical_kb: 0,
        avail_physical_kb: 0,
        file_cache_kb: 0,
        kernel_total_kb: 0,
        kernel_paged_kb: 0,
        kernel_nonpaged_kb: 0,
        handle_count: 0,
        thread_count: 0,
        process_count: 0,
    }
}

/// What changes when the user changes options.
#[derive(Clone, Copy, Debug, PartialEq, Eq, Structural)]
pub struct PerfOptionEffect {
    pub layout_changed: bool,
    pub update_texts: bool,
    pub redraw: bool,
}

impl PerformancePageState {
    pub open spec fn histories(&self) -> Histories {
        Histories {
            cpu: history_views(self.cpu_history@),
            kernel: history_views(self.kernel_history@),
            mem: self.mem_history@,
            averaged_cpu: self.averaged_cpu_history@,
            averaged_kernel: self.averaged_kernel_history@,
        }
    }

    /// Whether the histories are those of a machine with `processor_count` processors.
    pub open spec fn has_capacity(&self, processor_count: int) -> bool {
        self.processor_count == processor_count && self.cpu_history@.len() == processor_count
            && self.mem_history@.len() == HIST_SIZE
    }

    /// The histories that a machine with `processor_count` processors goes on with: those of the
    /// page, or fresh ones where the number of processors has changed.
    pub open spec fn histories_for(&self, processor_count: int) -> Histories {
        if self.has_capacity(processor_count) {
            self.histories()
        } else {
            fresh_histories(processor_count)
        }
    }

    /// There is a history of each kind for every processor, all of the same length, and the grid
    /// is scrolled by less than its own width.
    pub open spec fn well_formed(&self) -> bool {
        &&& self.cpu_history@.len() == self.processor_count
        &&& self.kernel_history@.len() == self.processor_count
        &&& forall|i: int|
            0 <= i < self.processor_count ==> (#[trigger] self.histories().cpu[i]).len() == HIST_SIZE
        &&& forall|i: int|
            0 <= i < self.processor_count ==> (#[trigger] self.histories().kernel[i]).len()
                == HIST_SIZE
        &&& self.processor_count > 0 ==> self.mem_history@.len() == HIST_SIZE
            && self.averaged_cpu_history@.len() == HIST_SIZE && self.averaged_kernel_history@.len()
            == HIST_SIZE
        &&& 0 <= self.scroll_offset < GRAPH_GRID
    }

    pub fn new() -> (state: Self)
        ensures
            state.well_formed(),
            state.processor_count == 0,
            state.graph_slots == 0,
            state.counters == no_counters(),
            state.settings == (PerfSettings {
                cpu_history_mode: 0,
                show_kernel_times: false,
                no_title: false,
            }),
            state.scroll_offset == 0,
            state.surface == (GraphSurface { present: false, width: 0, height: 0 }),
            state.last_meter_draw_error is None,
            state.histories() == (Histories {
                cpu: Seq::empty(),
                kernel: Seq::empty(),
                mem: Seq::empty(),
                averaged_cpu: Seq::empty(),
                averaged_kernel: Seq::empty(),
            }),
    {
        let state = PerformancePageState {
            processor_count: 0,
            graph_slots: 0,
            counters: SystemCounters {
                cpu_usage: 0,
                kernel_usage: 0,
                physical_mem_usage_kb: 0,
                physical_mem_limit_kb: 0,
                commit_total_kb: 0,
                commit_limit_kb: 0,
                commit_peak_kb: 0,
                total_physical_kb: 0,
                avail_physical_kb: 0,
                file_cache_kb: 0,
                kernel_total_kb: 0,
                kernel_paged_kb: 0,
                kernel_nonpaged_kb: 0,
                handle_count: 0,
                thread_count: 0,
                process_count: 0,
            },
            settings: PerfSettings {
                cpu_history_mode: 0,
                show_kernel_times: false,
                no_title: false,
            },
            scroll_offset: 0,
            cpu_history: Vec::new(),
            kernel_history: Vec::new(),
            mem_history: HistoryBuffer::zeroed(0),
            averaged_cpu_history: HistoryBuffer::zeroed(0),
            averaged_kernel_history: HistoryBuffer::zeroed(0),
            surface: GraphSurface { present: false, width: 0, height: 0 },
            last_meter_draw_error: None,
        };
        proof {
            assert(state.histories().cpu =~= Seq::<Seq<u8>>::empty());
            assert(state.histories().kernel =~= Seq::<Seq<u8>>::empty());
            assert(state.histories().mem =~= Seq::<u8>::empty());
            assert(state.histories().averaged_cpu =~= Seq::<u8>::empty());
            assert(state.histories().averaged_kernel =~= Seq::<u8>::empty());
        }
        state
    }

    /// Everything but the histories and the number of processors is the same.
    pub open spec fn same_but_histories(&self, other: &PerformancePageState) -> bool {
        &&& self.graph_slots == other.graph_slots
        &&& self.counters == other.counters
        &&& self.settings == other.settings
        &&& self.scroll_offset == other.scroll_offset
        &&& self.surface == other.surface
        &&& self.last_meter_draw_error == other.last_meter_draw_error
    }

    fn ensure_history_capacity(&mut self, processor_count: usize)
        requires
            old(self).well_formed(),
            processor_count > 0,
        ensures
            final(self).well_formed(),
            final(self).same_but_histories(old(self)),
            final(self).processor_count == processor_count,
            final(self).histories() == old(self).histories_for(processor_count as int),
    {
        if self.processor_count == processor_count && self.cpu_history.len() == processor_count
            && self.mem_history.len() == HIST_SIZE {
            return;
        }
        self.processor_count = processor_count;
        self.cpu_history = zero_histories(processor_count);
        self.kernel_history = zero_histories(processor_count);
        self.averaged_cpu_history = HistoryBuffer::zeroed(HIST_SIZE);
        self.averaged_kernel_history = HistoryBuffer::zeroed(HIST_SIZE);
        self.mem_history = HistoryBuffer::zeroed(HIST_SIZE);
        proof {
            assert(self.averaged_cpu_history@ =~= zero_history());
            assert(self.averaged_kernel_history@ =~= zero_history());
            assert(self.mem_history@ =~= zero_history());
            assert(self.histories().cpu.len() == self.cpu_history@.len());
            assert(self.histories().kernel.len() == self.kernel_history@.len());
        }
    }

    /// Prepares the histories for the processors of the machine; there is at least one.
    pub fn initialize(&mut self, processor_count: usize)
        requires
            old(self).well_formed(),
        ensures
            final(self).well_formed(),
            final(self).same_but_histories(old(self)),
            final(self).processor_count == max_of(processor_count as int, 1),
            final(self).histories() == old(self).histories_for(max_of(processor_count as int, 1)),
    {
        self.ensure_history_capacity(
            if processor_count == 0 {
                1
            } else {
                processor_count
            },
        );
    }

    /// Takes over the options of the user, and says what they change.
    pub fn apply_options(&mut self, options: &Options, processor_count: usize) -> (effect:
        PerfOptionEffect)
        requires
            old(self).well_formed(),
        ensures
            final(self).well_formed(),
            ({
                let settings = settings_of(*options);
                let count = max_of(processor_count as int, 1);
                let before = old(self).settings;
                let layout_changed = old(self).processor_count != count || before.cpu_history_mode
                    != settings.cpu_history_mode || before.no_title != settings.no_title;
                &&& effect.layout_changed == layout_changed
                &&& effect.update_texts == (layout_changed && !settings.no_title)
                &&& effect.redraw == (layout_changed || old(self).settings.show_kernel_times
                    != settings.show_kernel_times)
                &&& final(self).settings == settings
                &&& final(self).processor_count == count
                &&& final(self).histories() == old(self).histories_for(count)
                &&& final(self).graph_slots == old(self).graph_slots
                &&& final(self).counters == old(self).counters
                &&& final(self).scroll_offset == old(self).scroll_offset
                &&& final(self).surface == old(self).surface
                &&& final(self).last_meter_draw_error == old(self).last_meter_draw_error
            }),
    {
        let settings = PerfSettings {
            cpu_history_mode: options.cpu_history_mode,
            show_kernel_times: options.kernel_times(),
            no_title: options.no_title(),
        };
        let processor_count: usize = if processor_count == 0 {
            1
        } else {
            processor_count
        };
        let layout_changed = self.processor_count != processor_count
            || self.settings.cpu_history_mode != settings.cpu_history_mode || self.settings.no_title
            != settings.no_title;
        let style_changed = self.settings.show_kernel_times != settings.show_kernel_times;
        self.ensure_history_capacity(processor_count);
        self.settings = settings;
        PerfOptionEffect {
            layout_changed,
            update_texts: layout_changed && !settings.no_title,
            redraw: layout_changed || style_changed,
        }
    }

    /// Whether a sample has one usage of each kind for every processor.
    pub open spec fn is_consistent(sample: SystemSample) -> bool {
        sample.processor_count > 0 && sample.processor_cpu_usage@.len() == sample.processor_count
            && sample.processor_kernel_usage@.len() == sample.processor_count
    }

    /// The histories after a sample. Without an earlier sample only the memory is recorded.
    pub open spec fn histories_after(before: Histories, sample: SystemSample) -> Histories {
        let mem = pushed(
            before.mem,
            memory_percent(
                sample.counters.physical_mem_usage_kb,
                sample.counters.physical_mem_limit_kb,
            ),
        );
        if sample.cpu_delta_valid {
            Histories {
                cpu: pushed_all(before.cpu, sample.processor_cpu_usage@),
                kernel: pushed_all(before.kernel, sample.processor_kernel_usage@),
                mem,
                averaged_cpu: pushed(before.averaged_cpu, sample.counters.cpu_usage),
                averaged_kernel: pushed(before.averaged_kernel, sample.counters.kernel_usage),
            }
        } else {
            Histories { mem, ..before }
        }
    }

    /// Takes over a sample of the system. An inconsistent one changes nothing.
    pub fn apply_system_sample(&mut self, sample: &SystemSample) -> (outcome: Result<(), u32>)
        requires
            old(self).well_formed(),
        ensures
            final(self).well_formed(),
            if !Self::is_consistent(*sample) {
                outcome == Err::<(), u32>(ERROR_INVALID_DATA) && *final(self) == *old(self)
            } else {
                &&& outcome == Ok::<(), u32>(())
                &&& final(self).processor_count == sample.processor_count
                &&& final(self).counters == sample.counters
                &&& final(self).histories() == Self::histories_after(
                    old(self).histories_for(sample.processor_count as int),
                    *sample,
                )
                &&& final(self).scroll_offset == (old(self).scroll_offset + 2) % (GRAPH_GRID as int)
                &&& final(self).graph_slots == old(self).graph_slots
                &&& final(self).settings == old(self).settings
                &&& final(self).surface == old(self).surface
                &&& final(self).last_meter_draw_error == old(self).last_meter_draw_error
            },
    {
        if sample.processor_count == 0 || sample.processor_cpu_usage.len() != sample.processor_count
            || sample.processor_kernel_usage.len() != sample.processor_count {
            return Err(ERROR_INVALID_DATA);
        }
        self.ensure_history_capacity(sample.processor_count);
        let ghost before = self.histories();
        self.counters = sample.counters;
        if sample.cpu_delta_valid {
            push_all(&mut self.cpu_history, &sample.processor_cpu_usage);
            push_all(&mut self.kernel_history, &sample.processor_kernel_usage);
            self.averaged_cpu_history.push(sample.counters.cpu_usage);
            self.averaged_kernel_history.push(sample.counters.kernel_usage);
        }
        self.mem_history.push(
            memory_usage_percent(
                sample.counters.physical_mem_usage_kb,
                sample.counters.physical_mem_limit_kb,
            ),
        );
        self.scroll_offset = (self.scroll_offset + 2) % GRAPH_GRID;
        proof {
            let after = self.histories();
            assert(after.cpu.len() == self.cpu_history@.len() && before.cpu.len()
                == after.cpu.len());
            assert(after.kernel.len() == self.kernel_history@.len() && before.kernel.len()
                == after.kernel.len());
            assert forall|i: int| 0 <= i < sample.processor_count implies (
            #[trigger] after.cpu[i]).len() == HIST_SIZE by {
                assert(before.cpu[i].len() == HIST_SIZE);
            }
            assert forall|i: int| 0 <= i < sample.processor_count implies (
            #[trigger] after.kernel[i]).len() == HIST_SIZE by {
                assert(before.kernel[i].len() == HIST_SIZE);
            }
        }
        Ok(())
    }

    pub fn no_title(&self) -> (no_title: bool)
        ensures
            no_title == self.settings.no_title,
    {
        self.settings.no_title
    }

    /// The pane that a control shows, where it is one of the processor graphs.
    pub open spec fn pane_of(&self, control_id: int) -> Option<int> {
        let index = if IDC_CPUGRAPH <= control_id < IDC_CPUGRAPH + TEMPLATE_CPU_GRAPH_COUNT {
            control_id - IDC_CPUGRAPH
        } else if control_id >= DYNAMIC_CPU_GRAPH_ID_BASE {
            TEMPLATE_CPU_GRAPH_COUNT + (control_id - DYNAMIC_CPU_GRAPH_ID_BASE)
        } else {
            -1
        };
        if 0 <= index < self.graph_slots {
            Some(index)
        } else {
            None
        }
    }

    pub fn cpu_graph_pane_index(&self, control_id: i32) -> (pane: Option<usize>)
        ensures
            match pane {
                Some(index) => self.pane_of(control_id as int) == Some(index as int),
                None => self.pane_of(control_id as int) is None,
            },
    {
        let index: usize = if IDC_CPUGRAPH <= control_id && control_id < IDC_CPUGRAPH
            + TEMPLATE_CPU_GRAPH_COUNT as i32 {
            (control_id - IDC_CPUGRAPH) as usize
        } else if control_id >= DYNAMIC_CPU_GRAPH_ID_BASE {
            TEMPLATE_CPU_GRAPH_COUNT + (control_id - DYNAMIC_CPU_GRAPH_ID_BASE) as usize
        } else {
            return None;
        };
        if index < self.graph_slots {
            Some(index)
        } else {
            None
        }
    }

    /// Whether a control of the page is drawn as a graph or a meter.
    pub fn is_graph_control(&self, control_id: i32) -> (graph: bool)
        ensures
            graph == (control_id == IDC_MEMGRAPH || control_id == IDC_MEMMETER || control_id
                == IDC_CPUMETER || self.pane_of(control_id as int) is Some),
    {
        control_id == IDC_MEMGRAPH || control_id == IDC_MEMMETER || control_id == IDC_CPUMETER
            || self.cpu_graph_pane_index(control_id).is_some()
    }

    /// How many processor graphs are shown: one for each processor, or one for all.
    pub open spec fn visible_panes(&self) -> int {
        if self.settings.cpu_history_mode == CPU_HISTORY_PANES {
            min_of(max_of(self.processor_count as int, 1), self.graph_slots as int)
        } else {
            1
        }
    }

    pub fn visible_cpu_graph_count(&self) -> (count: usize)
        ensures
            count == self.visible_panes(),
    {
        if self.settings.cpu_history_mode == CPU_HISTORY_PANES {
            let wanted: usize = if self.processor_count == 0 {
                1
            } else {
                self.processor_count
            };
            if wanted < self.graph_slots {
                wanted
            } else {
                self.graph_slots
            }
        } else {
            1
        }
    }
}

/// The control that shows a pane: one of the template's, or one that is made for it.
pub open spec fn pane_control(index: int) -> int {
    if index < TEMPLATE_CPU_GRAPH_COUNT {
        IDC_CPUGRAPH + index
    } else {
        DYNAMIC_CPU_GRAPH_ID_BASE + (index - TEMPLATE_CPU_GRAPH_COUNT)
    }
}

/// Whether the controls of so many panes have numbers that can be represented.
pub open spec fn panes_fit(count: int) -> bool {
    count > 0 ==> fits_i32(pane_control(count - 1))
}

/// The controls that show the panes of a machine, in order: those of the template, and one more
/// for each further processor.
pub fn cpu_graph_controls(processor_count: usize) -> (outcome: Result<Vec<i32>, u32>)
    ensures
        ({
            let count = max_of(processor_count as int, TEMPLATE_CPU_GRAPH_COUNT as int);
            if panes_fit(count) {
                outcome matches Ok(controls) && controls@ == Seq::new(
                    count as nat,
                    |i: int| pane_control(i) as i32,
                )
            } else {
                outcome == Err::<Vec<i32>, u32>(ERROR_ARITHMETIC_OVERFLOW)
            }
        }),
{
    let count: usize = if processor_count > TEMPLATE_CPU_GRAPH_COUNT {
        processor_count
    } else {
        TEMPLATE_CPU_GRAPH_COUNT
    };
    if count - TEMPLATE_CPU_GRAPH_COUNT > (i32::MAX - DYNAMIC_CPU_GRAPH_ID_BASE) as usize + 1 {
        return Err(ERROR_ARITHMETIC_OVERFLOW);
    }
    let mut controls: Vec<i32> = Vec::new();
    for index in 0..count
        invariant
            TEMPLATE_CPU_GRAPH_COUNT <= count,
            count - TEMPLATE_CPU_GRAPH_COUNT <= i32::MAX - DYNAMIC_CPU_GRAPH_ID_BASE + 1,
            controls@ =~= Seq::new(index as nat, |i: int| pane_control(i) as i32),
    {
        controls.push(
            if index < TEMPLATE_CPU_GRAPH_COUNT {
                IDC_CPUGRAPH + index as i32
            } else {
                DYNAMIC_CPU_GRAPH_ID_BASE + (index - TEMPLATE_CPU_GRAPH_COUNT) as i32
            },
        );
    }
    Ok(controls)
}

/// The first failure among some outcomes.
pub open spec fn first_failure(outcomes: Seq<Result<(), u32>>) -> Option<u32>
    decreases outcomes.len(),
{
    if outcomes.len() == 0 {
        None
    } else {
        match first_failure(outcomes.drop_last()) {
            Some(error) => Some(error),
            None => match outcomes.last() {
                Ok(_) => None,
                Err(error) => Some(error),
            },
        }
    }
}

impl PerformancePageState {
    /// Takes over the windows of the graphs. `windows` tells of each of them whether there is one;
    /// without all of them the page has none.
    pub fn complete_initialize(&mut self, windows: &Vec<Result<(), u32>>) -> (outcome: Result<
        (),
        u32,
    >)
        ensures
            match first_failure(windows@) {
                Some(error) => outcome == Err::<(), u32>(error) && *final(self) == *old(self),
                None => outcome == Ok::<(), u32>(()) && *final(self) == (PerformancePageState {
                    graph_slots: windows@.len() as usize,
                    ..*old(self)
                }),
            },
    {
        assert(windows@.take(0) =~= Seq::<Result<(), u32>>::empty());
        for index in 0..windows.len()
            invariant
                first_failure(windows@.take(index as int)) is None,
                *self == *old(self),
        {
            assert(windows@.take(index + 1).drop_last() =~= windows@.take(index as int));
            if let Err(error) = windows[index] {
                proof {
                    lemma_failure_stays(windows@, index + 1);
                }
                return Err(error);
            }
        }
        assert(windows@.take(windows@.len() as int) =~= windows@);
        self.graph_slots = windows.len();
        Ok(())
    }
}

proof fn lemma_failure_stays(outcomes: Seq<Result<(), u32>>, n: int)
    requires
        0 <= n <= outcomes.len(),
        first_failure(outcomes.take(n)) is Some,
    ensures
        first_failure(outcomes) == first_failure(outcomes.take(n)),
    decreases outcomes.len() - n,
{
    if n < outcomes.len() {
        assert(outcomes.take(n + 1).drop_last() =~= outcomes.take(n));
        lemma_failure_stays(outcomes, n + 1);
    } else {
        assert(outcomes.take(n) =~= outcomes);
    }
}

/// A control that shows a pane is taken for that pane, and no control for two.
pub proof fn pane_controls_are_found_again(state: PerformancePageState, index: int)
    requires
        0 <= index < state.graph_slots,
    ensures
        state.pane_of(pane_control(index)) == Some(index),
{
}

/// The distances that follow from the base units of dialogs: the horizontal one in the lower
/// half, the vertical one in the upper half.
pub fn dialog_spacing(base_units: u32) -> (spacing: PerfDialogSpacing)
    ensures
        ({
            let (x, y) = (base_units as int % 0x1_0000, base_units as int / 0x1_0000);
            spacing == (PerfDialogSpacing {
                def_spacing: (3 * x / 4) as i32,
                inner_spacing: (2 * x / 4) as i32,
                top_spacing: (10 * y / 8) as i32,
            })
        }),
{
    let x: i32 = (base_units % 0x1_0000) as i32;
    let y: i32 = (base_units / 0x1_0000) as i32;
    PerfDialogSpacing {
        def_spacing: 3 * x / 4,
        inner_spacing: 2 * x / 4,
        top_spacing: 10 * y / 8,
    }
}

/// Where a graph is drawn: on the shared surface or directly, and how its history is laid out.
#[derive(Clone, Copy, Debug, PartialEq, Eq, Structural)]
pub struct GraphTarget {
    pub use_surface: bool,
    pub target_rect: Rect,
    pub width: i32,
    pub height: i32,
    pub layout: HistoryPlotLayout,
    /// The column of the surface that is copied to the left edge of the graph.
    pub source_x: i32,
}

/// The pixels from one value of a history to the next on a graph of the given width.
pub open spec fn plot_scale(width: int) -> int {
    if (width - 1) / HIST_SIZE as int == 0 {
        2
    } else {
        (width - 1) / HIST_SIZE as int
    }
}

/// How a history is laid out on a graph of the given width whose target has the given height.
pub open spec fn plot_layout(width: int, target_height: int) -> HistoryPlotLayout {
    HistoryPlotLayout {
        graph_height: max_of(target_height - 1, 1) as i32,
        width: width as i32,
        scale: plot_scale(width) as usize,
    }
}

pub(crate) fn scale_for(width: i32) -> (scale: usize)
    requires
        width >= 1,
    ensures
        scale == plot_scale(width as int),
        scale >= 1,
{
    let scale: usize = (width - 1) as usize / HIST_SIZE;
    if scale == 0 {
        2
    } else {
        scale
    }
}

pub open spec fn surface_serves(surface: GraphSurface, width: int, height: int) -> bool {
    surface.present && surface.width >= width && surface.height >= height
}

/// The target of a processor graph. On the surface it is drawn at the right edge, so that graphs
/// of different width share the newest columns.
pub open spec fn cpu_target(surface: GraphSurface, rect: Rect) -> GraphTarget {
    let width = max_of(rect.spec_width(), 1);
    let height = max_of(rect.spec_height(), 1);
    let on_surface = surface_serves(surface, width, height);
    let target = if on_surface {
        Rect { left: 0, top: 0, right: surface.width, bottom: height as i32 }
    } else {
        rect
    };
    GraphTarget {
        use_surface: on_surface,
        target_rect: target,
        width: width as i32,
        height: height as i32,
        layout: plot_layout(width, target.spec_height()),
        source_x: if on_surface {
            (surface.width - width) as i32
        } else {
            0
        },
    }
}

/// The target of the memory graph. On the surface it is drawn at the left edge.
pub open spec fn mem_target(surface: GraphSurface, rect: Rect) -> GraphTarget {
    let width = max_of(rect.spec_width(), 1);
    let height = max_of(rect.spec_height(), 1);
    let on_surface = surface_serves(surface, width, height);
    let target = if on_surface {
        Rect { left: 0, top: 0, right: width as i32, bottom: height as i32 }
    } else {
        rect
    };
    GraphTarget {
        use_surface: on_surface,
        target_rect: target,
        width: width as i32,
        height: height as i32,
        layout: plot_layout(width, target.spec_height()),
        source_x: 0,
    }
}

pub fn cpu_graph_target(surface: GraphSurface, rect: Rect) -> (target: GraphTarget)
    requires
        fits_i32(rect.spec_width()),
        fits_i32(rect.spec_height()),
    ensures
        target == cpu_target(surface, rect),
{
    let width: i32 = max_i64(rect.width(), 1) as i32;
    let height: i32 = max_i64(rect.height(), 1) as i32;
    let use_surface = surface.present && surface.width >= width && surface.height >= height;
    let target_rect = if use_surface {
        Rect { left: 0, top: 0, right: surface.width, bottom: height }
    } else {
        rect
    };
    GraphTarget {
        use_surface,
        target_rect,
        width,
        height,
        layout: HistoryPlotLayout {
            graph_height: max_i64(target_rect.height() - 1, 1) as i32,
            width,
            scale: scale_for(width),
        },
        source_x: if use_surface {
            surface.width - width
        } else {
            0
        },
    }
}

pub fn mem_graph_target(surface: GraphSurface, rect: Rect) -> (target: GraphTarget)
    requires
        fits_i32(rect.spec_width()),
        fits_i32(rect.spec_height()),
    ensures
        target == mem_target(surface, rect),
{
    let width: i32 = max_i64(rect.width(), 1) as i32;
    let height: i32 = max_i64(rect.height(), 1) as i32;
    let use_surface = surface.present && surface.width >= width && surface.height >= height;
    let target_rect = if use_surface {
        Rect { left: 0, top: 0, right: width, bottom: height }
    } else {
        rect
    };
    GraphTarget {
        use_surface,
        target_rect,
        width,
        height,
        layout: HistoryPlotLayout {
            graph_height: max_i64(target_rect.height() - 1, 1) as i32,
            width,
            scale: scale_for(width),
        },
        source_x: 0,
    }
}

/// What a meter shows.
#[derive(Clone, Debug, PartialEq, Eq)]
pub struct MeterValues {
    pub label: String,
    pub fill_percent: u8,
    pub red_percent: u8,
    pub main_color: u32,
    pub red_color: u32,
}

impl PerformancePageState {
    /// What the processor meter shows: the usage, and the part of it spent in the kernel.
    pub fn draw_cpu_meter(&self) -> (meter: MeterValues)
        ensures
            meter.label@ == decimal_text(self.counters.cpu_usage as nat) + " %"@,
            meter.fill_percent == self.counters.cpu_usage,
            meter.red_percent == if self.settings.show_kernel_times {
                min_of(self.counters.kernel_usage as int, self.counters.cpu_usage as int)
            } else {
                0
            },
            meter.main_color == rgb_value(0, 255, 0),
            meter.red_color == rgb_value(255, 0, 0),
    {
        let mut chars = decimal_chars(self.counters.cpu_usage as u64);
        append_text(&mut chars, " %");
        let red_percent: u8 = if !self.settings.show_kernel_times {
            0
        } else if self.counters.kernel_usage < self.counters.cpu_usage {
            self.counters.kernel_usage
        } else {
            self.counters.cpu_usage
        };
        MeterValues {
            label: string_of(chars.as_slice()),
            fill_percent: self.counters.cpu_usage,
            red_percent,
            main_color: rgb(0, 255, 0),
            red_color: rgb(255, 0, 0),
        }
    }

    /// What the memory meter shows. `formatted` is what the system made of the memory in use.
    pub fn draw_mem_meter(&self, formatted: Option<Vec<u16>>) -> (meter: MeterValues)
        ensures
            meter.label@ == match formatted {
                Some(units) if self.counters.physical_mem_usage_kb * 1024 <= u64::MAX =>
                    decoded_lossy(up_to_zero(units@)),
                _ => decimal_text(self.counters.physical_mem_usage_kb as nat) + " KB"@,
            },
            meter.fill_percent == memory_percent(
                self.counters.physical_mem_usage_kb,
                self.counters.physical_mem_limit_kb,
            ),
            meter.red_percent == 0,
            meter.main_color == rgb_value(255, 255, 0),
            meter.red_color == rgb_value(255, 255, 0),
    {
        MeterValues {
            label: format_mem_meter_text(self.counters.physical_mem_usage_kb, formatted),
            fill_percent: memory_usage_percent(
                self.counters.physical_mem_usage_kb,
                self.counters.physical_mem_limit_kb,
            ),
            red_percent: 0,
            main_color: rgb(255, 255, 0),
            red_color: rgb(255, 255, 0),
        }
    }

    /// The numbers below the graphs, with the controls that show them.
    pub open spec fn detail_values(&self) -> Seq<(i32, u64)> {
        let counters = self.counters;
        seq![
            (IDC_TOTAL_PHYSICAL, counters.total_physical_kb),
            (IDC_AVAIL_PHYSICAL, counters.avail_physical_kb),
            (IDC_FILE_CACHE, counters.file_cache_kb),
            (IDC_COMMIT_TOTAL, counters.commit_total_kb),
            (IDC_COMMIT_LIMIT, counters.commit_limit_kb),
            (IDC_COMMIT_PEAK, counters.commit_peak_kb),
            (IDC_KERNEL_TOTAL, counters.kernel_total_kb),
            (IDC_KERNEL_PAGED, counters.kernel_paged_kb),
            (IDC_KERNEL_NONPAGED, counters.kernel_nonpaged_kb),
            (IDC_TOTAL_HANDLES, counters.handle_count as u64),
            (IDC_TOTAL_THREADS, counters.thread_count as u64),
            (IDC_TOTAL_PROCESSES, counters.process_count as u64),
        ]
    }

    pub fn detail_texts(&self) -> (values: Vec<(i32, u64)>)
        ensures
            values@ == self.detail_values(),
    {
        let counters = self.counters;
        let values: Vec<(i32, u64)> = vec![
            (IDC_TOTAL_PHYSICAL, counters.total_physical_kb),
            (IDC_AVAIL_PHYSICAL, counters.avail_physical_kb),
            (IDC_FILE_CACHE, counters.file_cache_kb),
            (IDC_COMMIT_TOTAL, counters.commit_total_kb),
            (IDC_COMMIT_LIMIT, counters.commit_limit_kb),
            (IDC_COMMIT_PEAK, counters.commit_peak_kb),
            (IDC_KERNEL_TOTAL, counters.kernel_total_kb),
            (IDC_KERNEL_PAGED, counters.kernel_paged_kb),
            (IDC_KERNEL_NONPAGED, counters.kernel_nonpaged_kb),
            (IDC_TOTAL_HANDLES, counters.handle_count as u64),
            (IDC_TOTAL_THREADS, counters.thread_count as u64),
            (IDC_TOTAL_PROCESSES, counters.process_count as u64),
        ];
        assert(values@ =~= self.detail_values());
        values
    }

    /// Takes note of a failure to draw a meter, and tells whether it is a new one.
    pub fn record_meter_draw_error(&mut self, error: u32) -> (is_new: bool)
        ensures
            is_new == (old(self).last_meter_draw_error != Some(error)),
            *final(self) == (PerformancePageState {
                last_meter_draw_error: Some(error),
                ..*old(self)
            }),
    {
        let is_new = match self.last_meter_draw_error {
            Some(last) => last != error,
            None => true,
        };
        self.last_meter_draw_error = Some(error);
        is_new
    }

    /// Takes note that a meter was drawn.
    pub fn clear_meter_draw_error(&mut self)
        ensures
            *final(self) == (PerformancePageState { last_meter_draw_error: None, ..*old(self) }),
    {
        self.last_meter_draw_error = None;
    }

    /// Forgets the drawing surface and the controls of the page.
    pub fn destroy(&mut self)
        ensures
            *final(self) == (PerformancePageState {
                graph_slots: 0,
                surface: (GraphSurface { present: false, width: 0, height: 0 }),
                ..*old(self)
            }),
    {
        self.surface = GraphSurface { present: false, width: 0, height: 0 };
        self.graph_slots = 0;
    }
}

/// What to do about the shared drawing surface.
#[derive(Clone, Copy, Debug, PartialEq, Eq, Structural)]
pub enum SurfaceAction {
    Destroy,
    Keep,
    Create { width: i32, height: i32 },
}

/// What a page that needs a surface of the given size does about the one it has.
pub open spec fn surface_action(surface: GraphSurface, width: int, height: int) -> SurfaceAction {
    if width <= 0 || height <= 0 {
        SurfaceAction::Destroy
    } else if surface_serves(surface, width, height) {
        SurfaceAction::Keep
    } else {
        SurfaceAction::Create {
            width: next_extent(
                surface.width as int,
                width,
                GRAPH_SURFACE_WIDTH_QUANTUM as int,
            ) as i32,
            height: next_extent(
                surface.height as int,
                height,
                GRAPH_SURFACE_HEIGHT_QUANTUM as int,
            ) as i32,
        }
    }
}

pub fn ensure_graph_surface(surface: GraphSurface, width: i32, height: i32) -> (action:
    SurfaceAction)
    requires
        fits_i32(next_extent(surface.width as int, width as int, GRAPH_SURFACE_WIDTH_QUANTUM as int)),
        fits_i32(
            next_extent(surface.height as int, height as int, GRAPH_SURFACE_HEIGHT_QUANTUM as int),
        ),
    ensures
        action == surface_action(surface, width as int, height as int),
        action matches SurfaceAction::Create { width: w, height: h } ==> w >= width && h >= height,
{
    if width <= 0 || height <= 0 {
        return SurfaceAction::Destroy;
    }
    if surface.present && surface.width >= width && surface.height >= height {
        return SurfaceAction::Keep;
    }
    SurfaceAction::Create {
        width: next_graph_surface_extent(surface.width, width, GRAPH_SURFACE_WIDTH_QUANTUM),
        height: next_graph_surface_extent(surface.height, height, GRAPH_SURFACE_HEIGHT_QUANTUM),
    }
}

/// A part of a strip meter: where it starts, counted from the top of the meter, and its height.
#[derive(Clone, Copy, Debug, PartialEq, Eq, Structural)]
pub struct StripPart {
    pub y: i32,
    pub height: i32,
}

/// How a meter is put together from strips: unlit above, lit below it, red at the bottom.
#[derive(Clone, Copy, Debug, PartialEq, Eq, Structural)]
pub struct StripMeter {
    pub x: i32,
    pub label_rect: Rect,
    pub unlit: StripPart,
    pub lit: StripPart,
    pub red: StripPart,
}

pub open spec fn strip_bar_height(rect: Rect, font_height: int, def_spacing: int) -> int {
    rect.spec_height() - (font_height + def_spacing * 3)
}

pub open spec fn strip_lit_target(bar_height: int, lit_percent: u8) -> int {
    lit_percent * bar_height / 100
}

pub open spec fn strip_red(bar_height: int, lit_percent: u8, red_percent: u8) -> int {
    min_of(red_percent * bar_height / 100, strip_lit_target(bar_height, lit_percent))
}

/// The unlit part comes in whole steps of three pixels. Where more than everything is lit it is
/// negative, and nothing of it is drawn.
pub open spec fn strip_unlit(bar_height: int, lit_percent: u8) -> int {
    quotient(bar_height - strip_lit_target(bar_height, lit_percent), 3) * 3
}

/// The parts of a strip meter, where the bar has any height.
pub open spec fn strip_meter(
    rect: Rect,
    font_height: int,
    def_spacing: int,
    lit_percent: u8,
    red_percent: u8,
) -> Option<StripMeter> {
    let bar = strip_bar_height(rect, font_height, def_spacing);
    let unlit = strip_unlit(bar, lit_percent);
    let red = strip_red(bar, lit_percent, red_percent);
    if bar <= 0 {
        None
    } else {
        Some(
            StripMeter {
                x: quotient(rect.spec_width() - STRIP_WIDTH, 2) as i32,
                label_rect: Rect { bottom: (rect.bottom - 4) as i32, ..rect },
                unlit: StripPart { y: def_spacing as i32, height: unlit as i32 },
                lit: StripPart {
                    y: (def_spacing + unlit) as i32,
                    height: max_of(bar - unlit - red, 0) as i32,
                },
                red: StripPart { y: (def_spacing + (bar - red)) as i32, height: red as i32 },
            },
        )
    }
}

/// Lays a strip meter out; nothing is to be drawn where the bar has no height.
pub fn plan_strip_meter(
    rect: Rect,
    font_height: i32,
    def_spacing: i32,
    lit_percent: u8,
    red_percent: u8,
) -> (meter: Option<StripMeter>)
    requires
        fits_i32(rect.spec_width() - STRIP_WIDTH),
        fits_i32(rect.bottom - 4),
        ({
            let bar = strip_bar_height(rect, font_height as int, def_spacing as int);
            bar > 0 ==> fits_i32(strip_unlit(bar, lit_percent)) && fits_i32(
                def_spacing + strip_unlit(bar, lit_percent),
            ) && fits_i32(
                bar - strip_unlit(bar, lit_percent) - strip_red(bar, lit_percent, red_percent),
            ) && fits_i32(strip_red(bar, lit_percent, red_percent)) && fits_i32(
                def_spacing + (bar - strip_red(bar, lit_percent, red_percent)),
            )
        }),
    ensures
        meter == strip_meter(
            rect,
            font_height as int,
            def_spacing as int,
            lit_percent,
            red_percent,
        ),
{
    let bar: i64 = rect.height() - (font_height as i64 + def_spacing as i64 * 3);
    if bar <= 0 {
        return None;
    }
    let (lit, red) = (lit_percent as i64, red_percent as i64);
    assert(0 <= lit * bar <= 0x100 * 0x10_0000_0000) by (nonlinear_arith)
        requires
            0 <= lit <= 255,
            0 <= bar <= 0x10_0000_0000,
    ;
    assert(0 <= red * bar <= 0x100 * 0x10_0000_0000) by (nonlinear_arith)
        requires
            0 <= red <= 255,
            0 <= bar <= 0x10_0000_0000,
    ;
    let target_lit: i64 = lit * bar / 100;
    let target_red: i64 = min_i64(red * bar / 100, target_lit);
    let unlit: i64 = divide(bar - target_lit, 3) * 3;
    let lit_only: i64 = max_i64(bar - unlit - target_red, 0);
    let def: i64 = def_spacing as i64;
    Some(
        StripMeter {
            x: divide(rect.width() - STRIP_WIDTH as i64, 2) as i32,
            label_rect: Rect {
                left: rect.left,
                top: rect.top,
                right: rect.right,
                bottom: rect.bottom - 4,
            },
            unlit: StripPart { y: def_spacing, height: unlit as i32 },
            lit: StripPart { y: (def + unlit) as i32, height: lit_only as i32 },
            red: StripPart { y: (def + (bar - target_red)) as i32, height: target_red as i32 },
        },
    )
}

/// Up to one hundred percent the parts of a strip meter fill the bar exactly.
pub proof fn strips_fill_the_bar(bar: int, lit_percent: u8, red_percent: u8)
    requires
        bar > 0,
        lit_percent <= 100,
    ensures
        ({
            let unlit = strip_unlit(bar, lit_percent);
            let red = strip_red(bar, lit_percent, red_percent);
            &&& 0 <= unlit <= bar
            &&& unlit % 3 == 0
            &&& 0 <= red <= bar - unlit
            &&& unlit + max_of(bar - unlit - red, 0) + red == bar
        }),
{
    let (lit, red) = (lit_percent as int, red_percent as int);
    assert(0 <= lit * bar <= 100 * bar) by (nonlinear_arith)
        requires
            0 <= lit <= 100,
            bar > 0,
    ;
    assert(0 <= red * bar) by (nonlinear_arith)
        requires
            0 <= red,
            bar > 0,
    ;
}

/// The pieces in which a part is drawn: full strips from the top, and what is left.
pub open spec fn strip_pieces(part: StripPart) -> Seq<StripPart>
    decreases part.height,
{
    if part.height <= 0 {
        Seq::empty()
    } else if part.height <= STRIP_HEIGHT {
        seq![part]
    } else {
        seq![StripPart { y: part.y, height: STRIP_HEIGHT }] + strip_pieces(
            StripPart {
                y: (part.y + STRIP_HEIGHT) as i32,
                height: (part.height - STRIP_HEIGHT) as i32,
            },
        )
    }
}

pub fn strip_chunks(part: StripPart) -> (chunks: Vec<StripPart>)
    requires
        part.height > 0 ==> fits_i32(part.y + part.height),
    ensures
        chunks@ == strip_pieces(part),
{
    let mut chunks: Vec<StripPart> = Vec::new();
    let mut rest = part;
    assert(strip_pieces(part) =~= chunks@ + strip_pieces(rest));
    while rest.height > 0
        invariant
            rest.height > 0 ==> fits_i32(rest.y + rest.height),
            strip_pieces(part) == chunks@ + strip_pieces(rest),
        decreases max_of(rest.height as int, 0),
    {
        let chunk: i32 = if rest.height < STRIP_HEIGHT {
            rest.height
        } else {
            STRIP_HEIGHT
        };
        let ghost before = chunks@;
        let ghost whole = rest;
        chunks.push(StripPart { y: rest.y, height: chunk });
        rest = StripPart { y: rest.y + chunk, height: rest.height - chunk };
        proof {
            assert(strip_pieces(whole) =~= seq![StripPart { y: whole.y, height: chunk }]
                + strip_pieces(rest));
            assert(before + (seq![StripPart { y: whole.y, height: chunk }] + strip_pieces(rest))
                =~= chunks@ + strip_pieces(rest));
        }
    }
    assert(strip_pieces(part) =~= chunks@);
    chunks
}

pub open spec fn heights_of(parts: Seq<StripPart>) -> int
    decreases parts.len(),
{
    if parts.len() == 0 {
        0
    } else {
        parts[0].height + heights_of(parts.drop_first())
    }
}

/// The pieces of a part have its height together, and none is higher than a strip.
pub proof fn strip_pieces_cover_the_part(part: StripPart)
    requires
        part.height >= 0,
        fits_i32(part.y + part.height),
    ensures
        heights_of(strip_pieces(part)) == part.height,
        forall|i: int|
            0 <= i < strip_pieces(part).len() ==> 0 < (#[trigger] strip_pieces(part)[i]).height
                <= STRIP_HEIGHT,
    decreases part.height,
{
    let pieces = strip_pieces(part);
    if part.height > STRIP_HEIGHT {
        let rest = StripPart {
            y: (part.y + STRIP_HEIGHT) as i32,
            height: (part.height - STRIP_HEIGHT) as i32,
        };
        strip_pieces_cover_the_part(rest);
        assert(pieces.drop_first() =~= strip_pieces(rest));
        assert forall|i: int| 0 <= i < pieces.len() implies 0 < (#[trigger] pieces[i]).height
            <= STRIP_HEIGHT by {
            if i > 0 {
                assert(pieces[i] == strip_pieces(rest)[i - 1]);
            }
        }
    } else if part.height > 0 {
        assert(pieces.drop_first() =~= Seq::<StripPart>::empty());
        assert(heights_of(pieces.drop_first()) == 0);
    }
}

/// The controls with texts below the graphs. They are hidden where the page has no title.
pub open spec fn text_controls() -> Seq<i32> {
    seq![
        IDC_STATIC1,
        IDC_STATIC2,
        IDC_STATIC3,
        IDC_STATIC4,
        IDC_STATIC5,
        IDC_STATIC6,
        IDC_STATIC8,
        IDC_STATIC9,
        IDC_STATIC10,
        IDC_STATIC11,
        IDC_STATIC12,
        IDC_STATIC13,
        IDC_STATIC14,
        IDC_STATIC15,
        IDC_STATIC16,
        IDC_STATIC17,
        IDC_TOTAL_PHYSICAL,
        IDC_AVAIL_PHYSICAL,
        IDC_FILE_CACHE,
        IDC_COMMIT_TOTAL,
        IDC_COMMIT_LIMIT,
        IDC_COMMIT_PEAK,
        IDC_KERNEL_TOTAL,
        IDC_KERNEL_PAGED,
        IDC_KERNEL_NONPAGED,
        IDC_TOTAL_HANDLES,
        IDC_TOTAL_THREADS,
        IDC_TOTAL_PROCESSES,
    ]
}

pub fn perf_text_controls() -> (controls: Vec<i32>)
    ensures
        controls@ == text_controls(),
{
    let controls: Vec<i32> = vec![
        IDC_STATIC1,
        IDC_STATIC2,
        IDC_STATIC3,
        IDC_STATIC4,
        IDC_STATIC5,
        IDC_STATIC6,
        IDC_STATIC8,
        IDC_STATIC9,
        IDC_STATIC10,
        IDC_STATIC11,
        IDC_STATIC12,
        IDC_STATIC13,
        IDC_STATIC14,
        IDC_STATIC15,
        IDC_STATIC16,
        IDC_STATIC17,
        IDC_TOTAL_PHYSICAL,
        IDC_AVAIL_PHYSICAL,
        IDC_FILE_CACHE,
        IDC_COMMIT_TOTAL,
        IDC_COMMIT_LIMIT,
        IDC_COMMIT_PEAK,
        IDC_KERNEL_TOTAL,
        IDC_KERNEL_PAGED,
        IDC_KERNEL_NONPAGED,
        IDC_TOTAL_HANDLES,
        IDC_TOTAL_THREADS,
        IDC_TOTAL_PROCESSES,
    ];
    assert(controls@ =~= text_controls());
    controls
}

/// A change of the position or the size of a control.
#[derive(Clone, Copy, Debug, PartialEq, Eq, Structural)]
pub enum Placement {
    Move { control: i32, x: i32, y: i32 },
    Resize { control: i32, width: i32, height: i32 },
    Place { control: i32, x: i32, y: i32, width: i32, height: i32 },
}

pub open spec fn placed(control: i32, rect: Rect) -> Placement {
    Placement::Place {
        control,
        x: rect.left,
        y: rect.top,
        width: rect.spec_width() as i32,
        height: rect.spec_height() as i32,
    }
}

fn place(control: i32, rect: Rect) -> (placement: Placement)
    requires
        fits_i32(rect.spec_width()),
        fits_i32(rect.spec_height()),
    ensures
        placement == placed(control, rect),
{
    Placement::Place {
        control,
        x: rect.left,
        y: rect.top,
        width: rect.width() as i32,
        height: rect.height() as i32,
    }
}

/// How the texts below the graphs move.
pub open spec fn detail_moves(details: Seq<(i32, Rect)>, shift: int) -> Seq<Placement> {
    details.map_values(
        |detail: (i32, Rect)|
            Placement::Move {
                control: detail.0,
                x: detail.1.left,
                y: (detail.1.top + shift) as i32,
            },
    )
}

pub open spec fn pane_placements(panes: Seq<Rect>) -> Seq<Placement> {
    Seq::new(panes.len(), |i: int| placed(pane_control(i) as i32, panes[i]))
}

pub open spec fn memory_meter_rect(plan: PerfLayoutPlan, spacing: PerfDialogSpacing) -> Placement {
    Placement::Place {
        control: IDC_MEMMETER,
        x: plan.meter_rect.left,
        y: (plan.mem_bar_frame_rect.top + spacing.top_spacing) as i32,
        width: plan.meter_rect.spec_width() as i32,
        height: plan.meter_rect.spec_height() as i32,
    }
}

pub open spec fn sizes_fit(rect: Rect) -> bool {
    fits_i32(rect.spec_width()) && fits_i32(rect.spec_height())
}

/// Every change of the controls that commits a layout, in order.
pub open spec fn page_placements(
    no_title: bool,
    plan: PerfLayoutPlan,
    spacing: PerfDialogSpacing,
    details: Seq<(i32, Rect)>,
) -> Seq<Placement> {
    let texts = if no_title {
        Seq::empty()
    } else {
        detail_moves(details, plan.detail_shift_y as int)
    };
    let frames = seq![
        Placement::Resize {
            control: IDC_CPUFRAME,
            width: plan.cpu_history_width,
            height: plan.cpu_history_height,
        },
        Placement::Resize {
            control: IDC_CPUUSAGEFRAME,
            width: plan.cpu_usage_frame_width,
            height: plan.cpu_history_height,
        },
        placed(IDC_CPUMETER, plan.meter_rect),
    ];
    let memory = if no_title {
        Seq::empty()
    } else {
        seq![
            placed(IDC_MEMBARFRAME, plan.mem_bar_frame_rect),
            memory_meter_rect(plan, spacing),
            placed(IDC_MEMFRAME, plan.mem_frame_rect),
            placed(IDC_MEMGRAPH, plan.mem_graph_rect),
        ]
    };
    texts + frames + memory + pane_placements(plan.cpu_pane_rects@)
}

/// Turns a layout into changes of controls. `details` are the present positions of the texts
/// below the graphs.
pub fn size_page(
    no_title: bool,
    plan: &PerfLayoutPlan,
    spacing: PerfDialogSpacing,
    details: &Vec<(i32, Rect)>,
) -> (placements: Vec<Placement>)
    requires
        sizes_fit(plan.meter_rect),
        sizes_fit(plan.mem_bar_frame_rect),
        sizes_fit(plan.mem_frame_rect),
        sizes_fit(plan.mem_graph_rect),
        fits_i32(plan.mem_bar_frame_rect.top + spacing.top_spacing),
        panes_fit(plan.cpu_pane_rects@.len() as int),
        forall|i: int|
            0 <= i < plan.cpu_pane_rects@.len() ==> sizes_fit(#[trigger] plan.cpu_pane_rects@[i]),
        forall|i: int|
            0 <= i < details@.len() ==> fits_i32(
                (#[trigger] details@[i]).1.top + plan.detail_shift_y,
            ),
    ensures
        placements@ == page_placements(no_title, *plan, spacing, details@),
{
    let mut placements: Vec<Placement> = Vec::new();
    let ghost texts: Seq<Placement> = if no_title {
        Seq::empty()
    } else {
        detail_moves(details@, plan.detail_shift_y as int)
    };
    if !no_title {
        for index in 0..details.len()
            invariant
                forall|i: int|
                    0 <= i < details@.len() ==> fits_i32(
                        (#[trigger] details@[i]).1.top + plan.detail_shift_y,
                    ),
                placements@ =~= detail_moves(
                    details@.take(index as int),
                    plan.detail_shift_y as int,
                ),
        {
            let detail = details[index];
            placements.push(
                Placement::Move {
                    control: detail.0,
                    x: detail.1.left,
                    y: detail.1.top + plan.detail_shift_y,
                },
            );
        }
        assert(details@.take(details@.len() as int) =~= details@);
    }
    assert(placements@ =~= texts);
    placements.push(
        Placement::Resize {
            control: IDC_CPUFRAME,
            width: plan.cpu_history_width,
            height: plan.cpu_history_height,
        },
    );
    placements.push(
        Placement::Resize {
            control: IDC_CPUUSAGEFRAME,
            width: plan.cpu_usage_frame_width,
            height: plan.cpu_history_height,
        },
    );
    placements.push(place(IDC_CPUMETER, plan.meter_rect));
    if !no_title {
        placements.push(place(IDC_MEMBARFRAME, plan.mem_bar_frame_rect));
        placements.push(
            Placement::Place {
                control: IDC_MEMMETER,
                x: plan.meter_rect.left,
                y: plan.mem_bar_frame_rect.top + spacing.top_spacing,
                width: plan.meter_rect.width() as i32,
                height: plan.meter_rect.height() as i32,
            },
        );
        placements.push(place(IDC_MEMFRAME, plan.mem_frame_rect));
        placements.push(place(IDC_MEMGRAPH, plan.mem_graph_rect));
    }
    let ghost head = placements@;
    let ghost panes = plan.cpu_pane_rects@;
    for index in 0..plan.cpu_pane_rects.len()
        invariant
            panes == plan.cpu_pane_rects@,
            panes_fit(panes.len() as int),
            forall|i: int| 0 <= i < panes.len() ==> sizes_fit(#[trigger] plan.cpu_pane_rects@[i]),
            placements@ =~= head + pane_placements(panes.take(index as int)),
    {
        let control: i32 = if index < TEMPLATE_CPU_GRAPH_COUNT {
            IDC_CPUGRAPH + index as i32
        } else {
            DYNAMIC_CPU_GRAPH_ID_BASE + (index - TEMPLATE_CPU_GRAPH_COUNT) as i32
        };
        placements.push(place(control, plan.cpu_pane_rects[index]));
    }
    assert(panes.take(panes.len() as int) =~= panes);
    assert(placements@ =~= page_placements(no_title, *plan, spacing, details@));
    placements
}

/// Which controls are shown: the panes up to the visible ones, and everything about memory and
/// texts where the page has a title.
pub open spec fn visibility(state: PerformancePageState) -> Seq<(i32, bool)> {
    let titled = !state.settings.no_title;
    Seq::new(
        state.graph_slots as nat,
        |i: int| (pane_control(i) as i32, i < state.visible_panes()),
    ) + text_controls().map_values(|control: i32| (control, titled)) + seq![
        (IDC_MEMGRAPH, titled),
        (IDC_MEMFRAME, titled),
        (IDC_MEMBARFRAME, titled),
        (IDC_MEMMETER, titled),
    ]
}

impl PerformancePageState {
    pub fn sync_control_visibility(&self) -> (shown: Vec<(i32, bool)>)
        requires
            panes_fit(self.graph_slots as int),
        ensures
            shown@ == visibility(*self),
    {
        let pane_count: usize = self.visible_cpu_graph_count();
        let titled = !self.settings.no_title;
        let mut shown: Vec<(i32, bool)> = Vec::new();
        for index in 0..self.graph_slots
            invariant
                panes_fit(self.graph_slots as int),
                pane_count == self.visible_panes(),
                shown@ =~= Seq::new(
                    index as nat,
                    |i: int| (pane_control(i) as i32, i < self.visible_panes()),
                ),
        {
            let control: i32 = if index < TEMPLATE_CPU_GRAPH_COUNT {
                IDC_CPUGRAPH + index as i32
            } else {
                DYNAMIC_CPU_GRAPH_ID_BASE + (index - TEMPLATE_CPU_GRAPH_COUNT) as i32
            };
            shown.push((control, index < pane_count));
        }
        let ghost panes = shown@;
        let texts = perf_text_controls();
        for index in 0..texts.len()
            invariant
                texts@ == text_controls(),
                shown@ =~= panes + texts@.take(index as int).map_values(
                    |control: i32| (control, titled),
                ),
        {
            shown.push((texts[index], titled));
        }
        assert(texts@.take(texts@.len() as int) =~= texts@);
        shown.push((IDC_MEMGRAPH, titled));
        shown.push((IDC_MEMFRAME, titled));
        shown.push((IDC_MEMBARFRAME, titled));
        shown.push((IDC_MEMMETER, titled));
        assert(shown@ =~= visibility(*self));
        shown
    }

    /// The graphs and meters to be drawn anew after a sample.
    pub fn invalidate_graph_controls(&self) -> (controls: Vec<i32>)
        requires
            panes_fit(self.visible_panes()),
        ensures
            controls@ == seq![IDC_CPUMETER, IDC_MEMMETER, IDC_MEMGRAPH] + Seq::new(
                self.visible_panes() as nat,
                |i: int| pane_control(i) as i32,
            ),
    {
        let mut controls: Vec<i32> = Vec::new();
        controls.push(IDC_CPUMETER);
        controls.push(IDC_MEMMETER);
        controls.push(IDC_MEMGRAPH);
        let ghost head = controls@;
        let count: usize = self.visible_cpu_graph_count();
        for index in 0..count
            invariant
                panes_fit(count as int),
                controls@ =~= head + Seq::new(index as nat, |i: int| pane_control(i) as i32),
        {
            controls.push(
                if index < TEMPLATE_CPU_GRAPH_COUNT {
                    IDC_CPUGRAPH + index as i32
                } else {
                    DYNAMIC_CPU_GRAPH_ID_BASE + (index - TEMPLATE_CPU_GRAPH_COUNT) as i32
                },
            );
        }
        assert(head =~= seq![IDC_CPUMETER, IDC_MEMMETER, IDC_MEMGRAPH]);
        controls
    }
}

} // verus!
