//! What the performance page shows of the samples, and where it draws it.
use vstd::prelude::*;

use crate::history::newest;
use crate::options::Options;
use crate::perf_drawing::{
    draw_graph_label, drawn_count, grid, grid_column, grid_column_count, grid_row, grid_row_count,
    line_limit, line_points, lit_pixels, meter_bottom, meter_height, meter_left, meter_plan,
    meter_top, plot_x, plot_y, red_pixels, rgb_value, segments_through, up_to_zero, ChartColor,
    GraphLabel, HistoryPlotLayout, LabelArea, Point, HIST_SIZE,
};
use crate::perf_graphs::{
    is_drawing, is_frame, line_views, segment_views, FrameDrawing, GraphDrawing, SeriesView,
};
use crate::perf_layout::{PerfDialogSpacing, PerfLayoutPlan, PerfPage};
use crate::perfpage::{
    cpu_target, detail_moves, first_failure, mem_target, memory_percent, page_placements,
    pane_control, pane_placements, placed, plot_scale, strip_lit_target, strip_meter,
    surface_action, visibility, GraphSurface, GraphTarget, Histories, PerfOptionEffect,
    PerformancePageState, Placement, SurfaceAction, SystemSample, CPU_HISTORY_PANES,
};
use crate::processes::debugger_laws::first_zero_is_the_first;
use crate::rect::{max_of, Rect};
use crate::resource::{
    IDC_AVAIL_PHYSICAL, IDC_COMMIT_LIMIT, IDC_COMMIT_PEAK, IDC_COMMIT_TOTAL, IDC_CPUMETER,
    IDC_FILE_CACHE, IDC_KERNEL_NONPAGED, IDC_KERNEL_PAGED, IDC_KERNEL_TOTAL, IDC_MEMBARFRAME,
    IDC_MEMFRAME, IDC_MEMGRAPH, IDC_MEMMETER, IDC_TOTAL_HANDLES, IDC_TOTAL_PHYSICAL,
    IDC_TOTAL_PROCESSES, IDC_TOTAL_THREADS,
};

verus! {

/// The share of memory is the whole percentage, rounded down, and never more than a hundred.
pub proof fn memory_share_is_the_whole_percentage(usage_kb: u64, limit_kb: u64)
    ensures
        limit_kb == 0 ==> memory_percent(usage_kb, limit_kb) == 0,
        memory_percent(usage_kb, limit_kb) <= 100,
        limit_kb > 0 && usage_kb >= limit_kb ==> memory_percent(usage_kb, limit_kb) == 100,
        limit_kb > 0 && usage_kb < limit_kb ==> {
            let percent = memory_percent(usage_kb, limit_kb) as int;
            percent * limit_kb <= usage_kb * 100 < (percent + 1) * limit_kb
        },
{
    if limit_kb > 0 {
        let (usage, limit) = (usage_kb as int, limit_kb as int);
        let whole = usage * 100 / limit;
        assert(whole * limit <= usage * 100 < (whole + 1) * limit
            && whole >= 0) by (nonlinear_arith)
            requires
                whole == usage * 100 / limit,
                limit > 0,
                usage >= 0,
        ;
        if usage >= limit {
            assert(whole >= 100) by (nonlinear_arith)
                requires
                    usage * 100 < (whole + 1) * limit,
                    usage >= limit,
                    limit > 0,
            ;
        } else {
            assert(whole < 100) by (nonlinear_arith)
                requires
                    whole * limit <= usage * 100,
                    usage < limit,
                    limit > 0,
            ;
        }
    }
}

/// Every processor has its own history: after a sample it begins with the usage of that processor,
/// and so do the histories of the kernel, of all processors together and of the memory. Without an
/// earlier sample only the memory is recorded.
pub proof fn histories_begin_with_their_own_values(
    before: Histories,
    sample: SystemSample,
    i: int,
)
    requires
        PerformancePageState::is_consistent(sample),
        before.cpu.len() == sample.processor_count,
        before.kernel.len() == sample.processor_count,
        0 <= i < sample.processor_count,
        before.cpu[i].len() > 0,
        before.kernel[i].len() > 0,
        before.mem.len() > 0,
        before.averaged_cpu.len() > 0,
        before.averaged_kernel.len() > 0,
    ensures
        ({
            let after = PerformancePageState::histories_after(before, sample);
            let counters = sample.counters;
            &&& after.cpu.len() == before.cpu.len() && after.kernel.len() == before.kernel.len()
            &&& after.mem[0] == memory_percent(
                counters.physical_mem_usage_kb,
                counters.physical_mem_limit_kb,
            )
            &&& sample.cpu_delta_valid ==> {
                &&& after.cpu[i][0] == sample.processor_cpu_usage@[i]
                &&& after.kernel[i][0] == sample.processor_kernel_usage@[i]
                &&& after.averaged_cpu[0] == counters.cpu_usage
                &&& after.averaged_kernel[0] == counters.kernel_usage
                &&& forall|k: int|
                    0 <= k < before.cpu[i].len() - 1 ==> #[trigger] after.cpu[i][k + 1]
                        == before.cpu[i][k]
                &&& forall|k: int|
                    0 <= k < before.kernel[i].len() - 1 ==> #[trigger] after.kernel[i][k + 1]
                        == before.kernel[i][k]
            }
            &&& !sample.cpu_delta_valid ==> after.cpu == before.cpu && after.kernel == before.kernel
                && after.averaged_cpu == before.averaged_cpu && after.averaged_kernel
                == before.averaged_kernel
            &&& forall|k: int|
                0 <= k < before.mem.len() - 1 ==> #[trigger] after.mem[k + 1] == before.mem[k]
        }),
{
}

/// A sample with one usage of each kind for every processor is taken over: its numbers are shown,
/// every history moves on by the value of its own, and the earlier values stay as long as the
/// number of processors does. Any other sample is refused and changes nothing.
pub proof fn samples_move_the_histories_on(
    page: &mut PerformancePageState,
    sample: SystemSample,
    outcome: Result<(), u32>,
    i: int,
)
    requires
        old(page).well_formed(),
        old(page).processor_count == sample.processor_count,
        0 <= i < sample.processor_count,
    ensures
        call_ensures(PerformancePageState::apply_system_sample, (page, &sample), outcome) ==> {
            let (before, after) = (old(page).histories(), final(page).histories());
            let usage = sample.processor_cpu_usage@;
            let kernel = sample.processor_kernel_usage@;
            &&& outcome is Ok <==> usage.len() == sample.processor_count && kernel.len()
                == sample.processor_count
            &&& outcome is Err ==> *final(page) == *old(page)
            &&& outcome is Ok ==> {
                &&& final(page).counters == sample.counters
                &&& final(page).settings == old(page).settings
                &&& after.mem[0] == memory_percent(
                    sample.counters.physical_mem_usage_kb,
                    sample.counters.physical_mem_limit_kb,
                )
                &&& forall|k: int|
                    0 <= k < before.mem.len() - 1 ==> #[trigger] after.mem[k + 1] == before.mem[k]
                &&& sample.cpu_delta_valid ==> after.cpu[i][0] == usage[i] && after.kernel[i][0]
                    == kernel[i] && after.averaged_cpu[0] == sample.counters.cpu_usage
                    && after.averaged_kernel[0] == sample.counters.kernel_usage
                &&& sample.cpu_delta_valid ==> forall|k: int|
                    0 <= k < before.cpu[i].len() - 1 ==> #[trigger] after.cpu[i][k + 1]
                        == before.cpu[i][k]
                &&& !sample.cpu_delta_valid ==> after.cpu == before.cpu && after.kernel
                    == before.kernel
            }
        },
{
    let before = old(page).histories();
    assert(before.cpu.len() == sample.processor_count);
    assert(before.kernel.len() == sample.processor_count);
    assert(before.cpu[i].len() == HIST_SIZE);
    assert(before.kernel[i].len() == HIST_SIZE);
    if PerformancePageState::is_consistent(sample) {
        histories_begin_with_their_own_values(before, sample, i);
    }
}

/// Another number of processors starts all histories anew, with as many as there are processors.
pub proof fn other_processors_start_anew(
    page: &mut PerformancePageState,
    processor_count: usize,
    i: int,
    k: int,
)
    requires
        old(page).processor_count != processor_count,
        0 <= i < processor_count,
        0 <= k < HIST_SIZE,
    ensures
        call_ensures(PerformancePageState::initialize, (page, processor_count), ()) ==> {
            let after = final(page).histories();
            &&& after.cpu.len() == processor_count && after.kernel.len() == processor_count
            &&& after.cpu[i][k] == 0 && after.kernel[i][k] == 0
            &&& after.mem[k] == 0 && after.averaged_cpu[k] == 0 && after.averaged_kernel[k] == 0
        },
{
}

/// What the user has chosen is what the page goes by; the graphs are laid out anew exactly if that
/// or the number of processors asks for it.
pub proof fn chosen_options_are_taken_over(
    page: &mut PerformancePageState,
    options: Options,
    effect: PerfOptionEffect,
)
    requires
        old(page).processor_count > 0,
    ensures
        call_ensures(
            PerformancePageState::apply_options,
            (page, &options, old(page).processor_count),
            effect,
        ) ==> {
            let before = old(page).settings;
            let after = final(page).settings;
            &&& after.cpu_history_mode == options.cpu_history_mode
            &&& after.show_kernel_times == options.show_kernel_times
            &&& after.no_title == options.hide_title
            &&& effect.layout_changed <==> before.cpu_history_mode != options.cpu_history_mode
                || before.no_title != options.hide_title
            &&& effect.redraw <==> effect.layout_changed || before.show_kernel_times
                != options.show_kernel_times
            &&& effect.update_texts <==> effect.layout_changed && !options.hide_title
        },
{
}

/// The full label is drawn exactly if it is neither wider nor higher than its room, and the compact
/// one exactly if that is so of it alone.
pub proof fn labels_are_drawn_where_they_fit(
    area: LabelArea,
    full: (i32, i32),
    compact: (i32, i32),
    label: Option<GraphLabel>,
)
    requires
        full.1 > 0,
        compact.1 > 0,
    ensures
        call_ensures(draw_graph_label, (area, Some(full), Some(compact)), label) ==> {
            let full_fits = full.0 <= area.available_width && full.1 <= area.available_height;
            let compact_fits = compact.0 <= area.available_width && compact.1
                <= area.available_height;
            &&& label == Some(GraphLabel::Full) <==> full_fits
            &&& label == Some(GraphLabel::Compact) <==> !full_fits && compact_fits
        },
{
}

/// The graph of a processor shows that processor, the graph of all shows all of them; the whole
/// usage lies over the part of the kernel, which is only there if the user wants it.
pub proof fn panes_show_their_processor(page: PerformancePageState, pane: int)
    ensures
        ({
            let series = page.cpu_series(pane);
            let panes = page.settings.cpu_history_mode == CPU_HISTORY_PANES;
            &&& series.len() == if page.settings.show_kernel_times {
                2int
            } else {
                1int
            }
            &&& series.last().color == ChartColor::Green
            &&& panes ==> series.last().values == page.histories().cpu[pane]
            &&& !panes ==> series.last().values == page.histories().averaged_cpu
            &&& page.settings.show_kernel_times ==> series[0].color == ChartColor::Red && (panes
                ==> series[0].values == page.histories().kernel[pane]) && (!panes
                ==> series[0].values == page.histories().averaged_kernel)
            &&& page.mem_series().len() == 1 && page.mem_series()[0].values == page.histories().mem
                && page.mem_series()[0].color == ChartColor::Yellow
        }),
{
}

/// There is a pane for every processor as far as there are places for them, or one for all.
pub proof fn panes_are_counted_by_processors(page: PerformancePageState)
    ensures
        page.settings.cpu_history_mode != CPU_HISTORY_PANES ==> page.visible_panes() == 1,
        page.settings.cpu_history_mode == CPU_HISTORY_PANES && 1 <= page.processor_count
            <= page.graph_slots ==> page.visible_panes() == page.processor_count,
        page.settings.cpu_history_mode == CPU_HISTORY_PANES ==> page.visible_panes()
            <= page.graph_slots,
{
}

/// A value stands as high above the lower edge as it is large: none at the edge, one hundred at
/// the full height, and a larger one never lower.
pub proof fn larger_values_stand_higher(
    rect: Rect,
    layout: HistoryPlotLayout,
    less: u8,
    more: u8,
)
    requires
        layout.graph_height >= 0,
        less <= more,
    ensures
        plot_y(rect, layout, 0) == rect.bottom,
        plot_y(rect, layout, 100) == rect.bottom - layout.graph_height,
        plot_y(rect, layout, more) <= plot_y(rect, layout, less) <= rect.bottom,
        100 * (rect.bottom - plot_y(rect, layout, more)) <= more * layout.graph_height,
        more * layout.graph_height < 100 * (rect.bottom - plot_y(rect, layout, more)) + 100,
{
    let height = layout.graph_height as int;
    assert(0 * height == 0 && 100 * height / 100 == height) by (nonlinear_arith)
        requires
            height >= 0,
    ;
    let (a, b) = (less as int, more as int);
    assert(0 <= a * height <= b * height) by (nonlinear_arith)
        requires
            0 <= a <= b,
            height >= 0,
    ;
}

/// The newest value stands at the right edge, and each older one the same distance further to the
/// left.
pub proof fn older_values_stand_further_left(rect: Rect, layout: HistoryPlotLayout, index: int)
    ensures
        plot_x(rect, layout, 0) == rect.right,
        plot_x(rect, layout, index + 1) == plot_x(rect, layout, index) - layout.scale,
{
    assert(layout.scale * (index + 1) == layout.scale * index + layout.scale) by (nonlinear_arith);
    assert(layout.scale * 0 == 0) by (nonlinear_arith);
}

/// All values that there is room for are drawn, unless the line ends at the first zero.
pub proof fn line_ends_at_the_first_zero(values: Seq<u8>, limit: int, stop_on_zero: bool)
    requires
        0 <= limit <= values.len(),
    ensures
        0 <= drawn_count(values, limit, stop_on_zero) <= limit,
        !stop_on_zero ==> drawn_count(values, limit, stop_on_zero) == limit,
        stop_on_zero ==> (forall|i: int|
            0 <= i < drawn_count(values, limit, stop_on_zero) ==> #[trigger] values[i] != 0),
        stop_on_zero && drawn_count(values, limit, stop_on_zero) < limit ==> values[drawn_count(
            values,
            limit,
            stop_on_zero,
        )] == 0,
    decreases limit,
{
    if limit > 0 {
        line_ends_at_the_first_zero(values, limit - 1, stop_on_zero);
    }
}

/// A line starts with the newest value and goes through the values one by one.
pub proof fn lines_go_through_the_values(
    rect: Rect,
    layout: HistoryPlotLayout,
    values: Seq<u8>,
    stop_on_zero: bool,
    i: int,
)
    requires
        values.len() > 0,
        layout.scale > 0,
        layout.width >= 0,
        0 <= i < drawn_count(values, line_limit(layout, values.len() as int), stop_on_zero),
    ensures
        ({
            let points = line_points(rect, layout, values, stop_on_zero);
            &&& points[0].x == rect.right
            &&& points[0].y == plot_y(rect, layout, values[0]) as i32
            &&& points[i + 1].x == (rect.right - layout.scale * i) as i32
            &&& points[i + 1].y == plot_y(rect, layout, values[i]) as i32
        }),
{
}

/// Segments join each point with the next.
pub proof fn segments_join_the_points(points: Seq<Point>, i: int)
    requires
        0 <= i < points.len() - 1,
    ensures
        segments_through(points).len() == points.len() - 1,
        segments_through(points)[i].from == points[i],
        segments_through(points)[i].to == points[i + 1],
{
}

/// The rows of a grid stand one grid apart below the upper edge, as many as there is room for.
pub proof fn rows_stand_one_grid_apart(rect: Rect, width: int, index: int)
    requires
        rect.top <= rect.bottom,
        0 <= index < grid_row_count(rect),
        0 <= width <= i32::MAX,
        rect.right - width >= i32::MIN,
    ensures
        grid_row(rect, width, index).from.y == grid_row(rect, width, index).to.y,
        rect.top < grid_row(rect, width, index).from.y < rect.bottom,
        grid_row(rect, width, index).from.y == rect.top + 11 + 12 * index,
        grid_row(rect, width, index).to.x == rect.right,
        grid_row(rect, width, index).from.x == rect.right - width,
        grid_row_count(rect) * 12 <= rect.bottom - rect.top < (grid_row_count(rect) + 1) * 12,
{
    let count = grid_row_count(rect);
    assert(12 * index + 12 <= 12 * count) by (nonlinear_arith)
        requires
            index + 1 <= count,
    ;
    assert(index * 12 == 12 * index) by (nonlinear_arith);
}

/// The columns stand one grid apart, the first one as far from the right edge as the grid is
/// scrolled, as many as there is room for.
pub proof fn columns_stand_one_grid_apart(rect: Rect, width: int, scroll_offset: int, index: int)
    requires
        0 <= scroll_offset < 12,
        0 <= width <= i32::MAX,
        rect.right - width >= i32::MIN,
        0 <= index < grid_column_count(width, scroll_offset),
    ensures
        grid_column(rect, scroll_offset, index).from.x == rect.right - scroll_offset - 12 * index,
        grid_column(rect, scroll_offset, index).to.x
            == grid_column(rect, scroll_offset, index).from.x,
        rect.right - width < grid_column(rect, scroll_offset, index).from.x <= rect.right,
        grid_column(rect, scroll_offset, index).from.y == rect.top,
        grid_column(rect, scroll_offset, index).to.y == rect.bottom,
        rect.right - scroll_offset - 12 * grid_column_count(width, scroll_offset) <= rect.right
            - width,
{
    let count = grid_column_count(width, scroll_offset);
    assert(12 * index + 12 <= 12 * count && index * 12 == 12 * index) by (nonlinear_arith)
        requires
            index + 1 <= count,
    ;
}

/// The grid has its rows first and then its columns.
pub proof fn grid_is_rows_and_columns(rect: Rect, width: int, scroll_offset: int)
    ensures
        grid(rect, width, scroll_offset).len() == grid_row_count(rect) + grid_column_count(
            width,
            scroll_offset,
        ),
        forall|i: int|
            0 <= i < grid_row_count(rect) ==> #[trigger] grid(rect, width, scroll_offset)[i]
                == grid_row(rect, width, i),
        forall|i: int|
            grid_row_count(rect) <= i < grid(rect, width, scroll_offset).len()
                ==> #[trigger] grid(rect, width, scroll_offset)[i] == grid_column(
                rect,
                scroll_offset,
                i - grid_row_count(rect),
            ),
{
}

/// A color has its three parts in its three lowest bytes.
pub proof fn colors_are_made_of_their_parts(red: u8, green: u8, blue: u8)
    ensures
        rgb_value(red as int, green as int, blue as int) % 0x100 == red,
        rgb_value(red as int, green as int, blue as int) / 0x100 % 0x100 == green,
        rgb_value(red as int, green as int, blue as int) / 0x1_0000 == blue,
        ChartColor::Green.spec_rgb() == rgb_value(0, 255, 0),
        ChartColor::Yellow.spec_rgb() == rgb_value(255, 255, 0),
        ChartColor::Red.spec_rgb() == rgb_value(255, 0, 0),
        ChartColor::Black.spec_rgb() == 0,
{
}

/// The lit part of a meter is the share of its height that the percentage says, rounded down, and
/// the red part that of its own percentage, as far as it is lit.
pub proof fn meter_is_lit_by_its_percentage(rect: Rect, fill_percent: u8, red_percent: u8)
    requires
        red_percent <= fill_percent <= 100,
    ensures
        ({
            let (height, lit, red) = (
                meter_height(rect),
                lit_pixels(rect, fill_percent),
                red_pixels(rect, fill_percent, red_percent),
            );
            &&& 100 * lit <= height * fill_percent < 100 * (lit + 1)
            &&& 100 * red <= height * red_percent < 100 * (red + 1)
            &&& 0 <= red <= lit <= height
        }),
{
    let height = meter_height(rect);
    let (fill, red) = (fill_percent as int, red_percent as int);
    assert(0 <= height * red <= height * fill <= height * 100) by (nonlinear_arith)
        requires
            0 <= red <= fill <= 100,
            height >= 1,
    ;
}

/// The parts of a meter lie on each other: above what is not lit, below it what is, and the red
/// part at the bottom; all of them are as wide as the bar.
pub proof fn meter_parts_lie_on_each_other(rect: Rect, fill_percent: u8, red_percent: u8)
    requires
        crate::perf_drawing::meter_fits(rect),
        crate::rect::fits_i32(meter_left(rect)),
        meter_bottom(rect) > meter_top(rect),
    ensures
        ({
            let plan = meter_plan(rect, fill_percent, red_percent);
            &&& plan.unlit matches Some(part) ==> part.top == meter_top(rect)
                && part.bottom - part.top
                == meter_height(rect) - lit_pixels(rect, fill_percent)
            &&& plan.red matches Some(part) ==> part.bottom == meter_bottom(rect) && part.bottom
                - part.top == red_pixels(rect, fill_percent, red_percent)
            &&& plan.lit matches Some(part) ==> part.bottom - part.top == lit_pixels(
                rect,
                fill_percent,
            ) - red_pixels(rect, fill_percent, red_percent)
            &&& plan.unlit is Some && plan.lit is Some ==> plan.unlit->0.bottom == plan.lit->0.top
            &&& plan.lit is Some && plan.red is Some ==> plan.lit->0.bottom == plan.red->0.top
            &&& plan.unlit matches Some(part) ==> part.right - part.left == 20
            &&& plan.lit matches Some(part) ==> part.right - part.left == 20
            &&& plan.red matches Some(part) ==> part.right - part.left == 20
            &&& plan.text.bottom == rect.bottom && plan.text.top == rect.bottom - 18
            &&& plan.text.left == rect.left && plan.text.right == rect.right
        }),
{
    crate::perf_drawing::meter_parts_fill_the_bar(rect, fill_percent, red_percent);
}

/// Up to one hundred percent the lit part of a strip meter is the share that the percentage says,
/// rounded down, and the parts follow each other from top to bottom.
pub proof fn strips_follow_each_other(
    rect: Rect,
    font_height: int,
    def_spacing: int,
    lit_percent: u8,
    red_percent: u8,
)
    requires
        lit_percent <= 100,
        0 <= font_height <= 0x10_0000,
        0 <= def_spacing <= 0x10_0000,
        0 < crate::perfpage::strip_bar_height(rect, font_height, def_spacing) <= 0x100_0000,
    ensures
        strip_meter(rect, font_height, def_spacing, lit_percent, red_percent) matches Some(meter)
            && {
            let bar = crate::perfpage::strip_bar_height(rect, font_height, def_spacing);
            let target = strip_lit_target(bar, lit_percent);
            &&& 100 * target <= lit_percent * bar < 100 * (target + 1)
            &&& meter.unlit.y == def_spacing
            &&& meter.lit.y == meter.unlit.y + meter.unlit.height
            &&& meter.red.y == meter.lit.y + meter.lit.height
            &&& meter.red.y + meter.red.height == def_spacing + bar
            &&& meter.unlit.height <= bar - target < meter.unlit.height + 3
            &&& meter.red.height <= target
        },
{
    let bar = crate::perfpage::strip_bar_height(rect, font_height, def_spacing);
    crate::perfpage::strips_fill_the_bar(bar, lit_percent, red_percent);
    let lit = lit_percent as int;
    assert(0 <= lit * bar <= 100 * bar) by (nonlinear_arith)
        requires
            0 <= lit <= 100,
            bar > 0,
    ;
    let red = red_percent as int;
    assert(0 <= red * bar) by (nonlinear_arith)
        requires
            0 <= red,
            bar > 0,
    ;
}

/// The numbers below the graphs each stand in their own control.
pub proof fn numbers_stand_in_their_controls(page: PerformancePageState)
    ensures
        ({
            let shown = page.detail_values();
            let counters = page.counters;
            &&& shown.contains((IDC_TOTAL_PHYSICAL, counters.total_physical_kb))
            &&& shown.contains((IDC_AVAIL_PHYSICAL, counters.avail_physical_kb))
            &&& shown.contains((IDC_FILE_CACHE, counters.file_cache_kb))
            &&& shown.contains((IDC_COMMIT_TOTAL, counters.commit_total_kb))
            &&& shown.contains((IDC_COMMIT_LIMIT, counters.commit_limit_kb))
            &&& shown.contains((IDC_COMMIT_PEAK, counters.commit_peak_kb))
            &&& shown.contains((IDC_KERNEL_TOTAL, counters.kernel_total_kb))
            &&& shown.contains((IDC_KERNEL_PAGED, counters.kernel_paged_kb))
            &&& shown.contains((IDC_KERNEL_NONPAGED, counters.kernel_nonpaged_kb))
            &&& shown.contains((IDC_TOTAL_HANDLES, counters.handle_count as u64))
            &&& shown.contains((IDC_TOTAL_THREADS, counters.thread_count as u64))
            &&& shown.contains((IDC_TOTAL_PROCESSES, counters.process_count as u64))
            &&& forall|i: int, j: int|
                0 <= i < j < shown.len() ==> (#[trigger] shown[i]).0 != (#[trigger] shown[j]).0
        }),
{
    let shown = page.detail_values();
    let counters = page.counters;
    assert(shown[0] == (IDC_TOTAL_PHYSICAL, counters.total_physical_kb));
    assert(shown[1] == (IDC_AVAIL_PHYSICAL, counters.avail_physical_kb));
    assert(shown[2] == (IDC_FILE_CACHE, counters.file_cache_kb));
    assert(shown[3] == (IDC_COMMIT_TOTAL, counters.commit_total_kb));
    assert(shown[4] == (IDC_COMMIT_LIMIT, counters.commit_limit_kb));
    assert(shown[5] == (IDC_COMMIT_PEAK, counters.commit_peak_kb));
    assert(shown[6] == (IDC_KERNEL_TOTAL, counters.kernel_total_kb));
    assert(shown[7] == (IDC_KERNEL_PAGED, counters.kernel_paged_kb));
    assert(shown[8] == (IDC_KERNEL_NONPAGED, counters.kernel_nonpaged_kb));
    assert(shown[9] == (IDC_TOTAL_HANDLES, counters.handle_count as u64));
    assert(shown[10] == (IDC_TOTAL_THREADS, counters.thread_count as u64));
    assert(shown[11] == (IDC_TOTAL_PROCESSES, counters.process_count as u64));
}

/// The first of several failures is told.
pub proof fn first_failure_counts(outcomes: Seq<Result<(), u32>>)
    ensures
        match first_failure(outcomes) {
            None => forall|i: int| 0 <= i < outcomes.len() ==> (#[trigger] outcomes[i]) is Ok,
            Some(error) => exists|i: int|
                0 <= i < outcomes.len() && #[trigger] outcomes[i] == Err::<(), u32>(error)
                    && forall|j: int| 0 <= j < i ==> (#[trigger] outcomes[j]) is Ok,
        },
    decreases outcomes.len(),
{
    if outcomes.len() > 0 {
        let front = outcomes.drop_last();
        let n = outcomes.len() - 1;
        first_failure_counts(front);
        assert(outcomes[n] == outcomes.last());
        match first_failure(front) {
            None => {
                assert forall|i: int| 0 <= i < n implies (#[trigger] outcomes[i]) is Ok by {
                    assert(front[i] is Ok);
                }
                if outcomes[n] is Err {
                    assert(outcomes[n] == Err::<(), u32>(outcomes[n]->Err_0));
                }
            },
            Some(error) => {
                let i = choose|i: int|
                    0 <= i < front.len() && #[trigger] front[i] == Err::<(), u32>(error)
                        && forall|j: int| 0 <= j < i ==> (#[trigger] front[j]) is Ok;
                assert(outcomes[i] == front[i]);
                assert forall|j: int| 0 <= j < i implies (#[trigger] outcomes[j]) is Ok by {
                    assert(front[j] is Ok);
                }
            },
        }
    }
}

/// A pane is shown exactly if it is one of the visible ones; the memory graph and its meter are
/// shown unless the page has no title.
pub proof fn visible_panes_are_shown(page: PerformancePageState, i: int)
    requires
        0 <= i < page.graph_slots,
    ensures
        visibility(page)[i] == (pane_control(i) as i32, i < page.visible_panes()),
        visibility(page).contains((IDC_MEMGRAPH, !page.settings.no_title)),
        visibility(page).contains((IDC_MEMMETER, !page.settings.no_title)),
        visibility(page).contains((IDC_MEMFRAME, !page.settings.no_title)),
        visibility(page).contains((IDC_MEMBARFRAME, !page.settings.no_title)),
{
    let shown = visibility(page);
    let titled = !page.settings.no_title;
    let n = shown.len();
    assert(shown[n - 4] == (IDC_MEMGRAPH, titled));
    assert(shown[n - 3] == (IDC_MEMFRAME, titled));
    assert(shown[n - 2] == (IDC_MEMBARFRAME, titled));
    assert(shown[n - 1] == (IDC_MEMMETER, titled));
}

/// Every control goes where the layout says: the graphs of the processors to their panes, the
/// meter and the memory graph to their places.
pub proof fn controls_go_to_their_places(
    no_title: bool,
    plan: PerfLayoutPlan,
    spacing: PerfDialogSpacing,
    details: Seq<(i32, Rect)>,
    i: int,
)
    requires
        0 <= i < plan.cpu_pane_rects@.len(),
    ensures
        ({
            let placements = page_placements(no_title, plan, spacing, details);
            &&& placements.contains(placed(pane_control(i) as i32, plan.cpu_pane_rects@[i]))
            &&& placements.contains(placed(IDC_CPUMETER, plan.meter_rect))
            &&& !no_title ==> placements.contains(placed(IDC_MEMGRAPH, plan.mem_graph_rect))
                && placements.contains(placed(IDC_MEMFRAME, plan.mem_frame_rect))
                && placements.contains(placed(IDC_MEMBARFRAME, plan.mem_bar_frame_rect))
        }),
{
    let placements = page_placements(no_title, plan, spacing, details);
    let panes = pane_placements(plan.cpu_pane_rects@);
    let base = placements.len() - panes.len();
    assert(placements[base + i] == panes[i]);
    let texts = if no_title {
        0
    } else {
        details.len() as int
    };
    assert(placements[texts + 2] == placed(IDC_CPUMETER, plan.meter_rect));
    if !no_title {
        assert(placements[texts + 3] == placed(IDC_MEMBARFRAME, plan.mem_bar_frame_rect));
        assert(placements[texts + 5] == placed(IDC_MEMFRAME, plan.mem_frame_rect));
        assert(placements[texts + 6] == placed(IDC_MEMGRAPH, plan.mem_graph_rect));
    }
}

/// The texts below the graphs move down or up together, and not sideways.
pub proof fn texts_move_together(details: Seq<(i32, Rect)>, shift: int, i: int)
    requires
        0 <= i < details.len(),
        crate::rect::fits_i32(details[i].1.top + shift),
    ensures
        detail_moves(details, shift).len() == details.len(),
        detail_moves(details, shift)[i] matches Placement::Move { control, x, y } && control
            == details[i].0 && x == details[i].1.left && y == details[i].1.top + shift,
{
}

/// A graph is drawn in its own size. On the shared surface a graph of a processor ends at the right
/// edge, so that the newest values of all graphs stand in the same columns.
pub proof fn graphs_are_drawn_in_their_size(surface: GraphSurface, rect: Rect)
    requires
        rect.left <= rect.right,
        rect.top <= rect.bottom,
        rect.right - rect.left <= i32::MAX,
        rect.bottom - rect.top <= i32::MAX,
    ensures
        cpu_target(surface, rect).width == max_of(rect.right - rect.left, 1),
        cpu_target(surface, rect).height == max_of(rect.bottom - rect.top, 1),
        mem_target(surface, rect).width == cpu_target(surface, rect).width,
        mem_target(surface, rect).height == cpu_target(surface, rect).height,
        cpu_target(surface, rect).use_surface <==> surface.present && surface.width >= max_of(
            rect.right - rect.left,
            1,
        ) && surface.height >= max_of(rect.bottom - rect.top, 1),
        cpu_target(surface, rect).use_surface ==> cpu_target(surface, rect).source_x + cpu_target(
            surface,
            rect,
        ).width == surface.width && cpu_target(surface, rect).target_rect.right == surface.width,
        !cpu_target(surface, rect).use_surface ==> cpu_target(surface, rect).target_rect == rect
            && mem_target(surface, rect).target_rect == rect,
        mem_target(surface, rect).source_x == 0,
{
}

/// On a graph that is no wider than a history is long, values stand two pixels apart; on a wider
/// one as far apart as its width allows for the whole history.
pub proof fn histories_spread_over_wide_graphs(width: int)
    requires
        width >= 1,
    ensures
        width <= 2000 ==> plot_scale(width) == 2,
        width > 2000 ==> plot_scale(width) * 2000 < width <= (plot_scale(width) + 1) * 2000,
{
}

/// A surface that is large enough stays; one that is not is made anew, never smaller than what is
/// needed; and none is kept where nothing is drawn.
pub proof fn surfaces_are_large_enough(surface: GraphSurface, width: int, height: int)
    requires
        width <= 0x100_0000,
        height <= 0x100_0000,
        0 <= surface.width <= 0x100_0000,
        0 <= surface.height <= 0x100_0000,
    ensures
        width <= 0 || height <= 0 <==> surface_action(surface, width, height)
            == SurfaceAction::Destroy,
        width > 0 && height > 0 ==> (surface_action(surface, width, height) == SurfaceAction::Keep
            <==> surface.present && surface.width >= width && surface.height >= height),
        surface_action(surface, width, height) matches SurfaceAction::Create {
            width: w,
            height: h,
        } ==> w >= width && h >= height && w >= surface.width && h >= surface.height,
{
    if width > 0 && height > 0 {
        lemma_next_extent(surface.width as int, width, 128);
        lemma_next_extent(surface.height as int, height, 64);
    }
}

proof fn lemma_next_extent(current: int, required: int, quantum: int)
    requires
        0 <= current <= 0x100_0000,
        0 < required <= 0x100_0000,
        0 < quantum <= 128,
    ensures
        crate::rect::fits_i32(crate::perf_layout::next_extent(current, required, quantum)),
        crate::perf_layout::next_extent(current, required, quantum) >= required,
        crate::perf_layout::next_extent(current, required, quantum) >= current,
{
    let sum = required + quantum - 1;
    assert(0 <= (sum / quantum) * quantum <= sum) by (nonlinear_arith)
        requires
            sum >= 0,
            quantum > 0,
    ;
}

/// The panes stay inside the frame around them, and the surface is as wide as any graph of the
/// page.
pub proof fn panes_stay_inside_the_frame(page: PerfPage)
    requires
        page.pane_count > 0,
        page.spacing.inner_spacing >= 0,
        page.panes_width() >= page.pane_count * page.spacing.inner_spacing,
        page.panes_width() > 0,
    ensures
        page.pane(0).left == page.anchors.cpu_history_frame.left + 2 * page.spacing.inner_spacing,
        page.pane(page.pane_count - 1).right <= page.anchors.cpu_history_frame.left
            + page.history_width() - 2 * page.spacing.inner_spacing,
        page.surface_width() >= page.pane(0).right - page.pane(0).left,
        page.surface_width() >= page.memory_graph().right - page.memory_graph().left,
{
    let (n, inner, width) = (page.pane_count, page.spacing.inner_spacing as int, page.pane_width());
    let room = page.panes_width() - n * inner;
    assert(width == room / n) by (nonlinear_arith)
        requires
            width == max_of(room / n, 0),
            room >= 0,
            n > 0,
    ;
    assert(width * n <= room) by (nonlinear_arith)
        requires
            width == room / n,
            n > 0,
    ;
    assert(inner * (n - 1 + 2) + width * (n - 1) + width == n * inner + inner + width * n)
        by (nonlinear_arith);
    assert(inner * (0 + 2) + width * 0 == 2 * inner) by (nonlinear_arith);
}

/// Below the graphs of the processors stand those of the memory, in frames of the same height.
pub proof fn memory_stands_below_the_processors(page: PerfPage)
    requires
        page.spacing.def_spacing >= 0,
    ensures
        page.memory_frame().top == page.memory_bar_frame().top,
        page.memory_frame().bottom == page.memory_bar_frame().bottom,
        page.memory_frame().bottom - page.memory_frame().top == page.history_height(),
        page.memory_frame().top == page.history_height() + 2 * page.spacing.def_spacing,
        page.memory_frame().right == page.parent.right - 2 * page.spacing.def_spacing,
        page.memory_graph().bottom - page.memory_graph().top == page.graph_height(),
        page.meter().bottom - page.meter().top == page.graph_height(),
        page.no_title && page.parent.bottom - page.parent.top >= 2 * page.spacing.def_spacing
            ==> page.history_height() == page.parent.bottom - page.parent.top - 2
            * page.spacing.def_spacing,
{
}

/// The details keep their distance from the lower edge of the page, as long as there is room for
/// them.
pub proof fn details_stay_at_the_lower_edge(page: PerfPage)
    requires
        page.parent.bottom >= 2 * page.spacing.def_spacing,
    ensures
        page.anchors.master_rect.bottom + page.detail_shift() == page.parent.bottom - 2
            * page.spacing.def_spacing,
{
}

/// Of a text with room to spare, what stands before the first zero is read.
pub proof fn texts_end_at_the_first_zero(units: Seq<u16>)
    ensures
        up_to_zero(units).len() <= units.len(),
        up_to_zero(units) == units.take(up_to_zero(units).len() as int),
        forall|i: int| 0 <= i < up_to_zero(units).len() ==> #[trigger] up_to_zero(units)[i] != 0,
        up_to_zero(units).len() < units.len() ==> units[up_to_zero(units).len() as int] == 0,
{
    first_zero_is_the_first(units);
    let text = up_to_zero(units);
    assert(text =~= units.take(text.len() as int));
}

/// A graph has one line for every history, in the color of it and through its values, over a grid
/// as wide as the graph.
pub proof fn graphs_have_a_line_for_every_history(
    drawing: GraphDrawing,
    target: GraphTarget,
    scroll_offset: int,
    series: Seq<SeriesView>,
    i: int,
)
    requires
        is_drawing(drawing, target, scroll_offset, series),
        0 <= i < series.len(),
    ensures
        drawing.target == target,
        drawing.lines@.len() == series.len(),
        drawing.lines@[i].color == series[i].color,
        drawing.lines@[i].points@ == line_points(
            target.target_rect,
            target.layout,
            series[i].values,
            series[i].stop_on_zero,
        ),
        drawing.grid@ == grid(target.target_rect, target.width as int, scroll_offset),
{
    let views = line_views(drawing.lines@);
    assert(views.len() == series.len());
    assert(views[i] == drawing.lines@[i]@);
}

/// So has a graph on a frame of its own; its lines consist of segments from the right edge on, each
/// from one value to the next.
pub proof fn frames_have_a_line_for_every_history(
    drawing: FrameDrawing,
    bounds: Rect,
    layout: HistoryPlotLayout,
    scroll_offset: int,
    series: Seq<SeriesView>,
    i: int,
    k: int,
)
    requires
        is_frame(drawing, bounds, layout, scroll_offset, series),
        0 <= i < series.len(),
        series[i].values.len() > 0,
        layout.scale > 0,
        layout.width >= 0,
        0 <= k < drawing.lines@[i].segments@.len(),
    ensures
        drawing.lines@.len() == series.len(),
        drawing.lines@[i].color == series[i].color,
        ({
            let segment = drawing.lines@[i].segments@[k];
            let values = series[i].values;
            &&& segment.to.x == (bounds.right - layout.scale * k) as i32
            &&& segment.to.y == plot_y(bounds, layout, values[k]) as i32
            &&& k == 0 ==> segment.from.x == bounds.right && segment.from.y == plot_y(
                bounds,
                layout,
                values[0],
            ) as i32
            &&& k > 0 ==> segment.from == drawing.lines@[i].segments@[k - 1].to
        }),
        drawing.grid@ == grid(bounds, layout.width as int, scroll_offset),
{
    let views = segment_views(drawing.lines@);
    assert(views.len() == series.len());
    assert(views[i] == drawing.lines@[i]@);
}

/// The layout puts every part of the page where it belongs.
pub proof fn plans_hold_all_parts(page: PerfPage, plan: PerfLayoutPlan, i: int)
    requires
        page.is_plan(plan),
        0 <= i < page.pane_count,
    ensures
        plan.meter_rect.left == page.meter().left && plan.meter_rect.top == page.meter().top
            && plan.meter_rect.right == page.meter().right && plan.meter_rect.bottom
            == page.meter().bottom,
        plan.mem_graph_rect.left == page.memory_graph().left && plan.mem_graph_rect.top
            == page.memory_graph().top && plan.mem_graph_rect.right == page.memory_graph().right
            && plan.mem_graph_rect.bottom == page.memory_graph().bottom,
        plan.cpu_pane_rects@.len() == page.pane_count,
        plan.cpu_pane_rects@[i].left == page.pane(i).left && plan.cpu_pane_rects@[i].top
            == page.pane(i).top && plan.cpu_pane_rects@[i].right == page.pane(i).right
            && plan.cpu_pane_rects@[i].bottom == page.pane(i).bottom,
        plan.graph_surface_width == page.surface_width(),
{
    assert(page.pane(i).is_rect(plan.cpu_pane_rects@[i]));
}

/// Every pane has a control of its own, and a control shows the pane that it belongs to and no
/// other.
pub proof fn controls_show_their_panes(page: PerformancePageState, pane: int, control_id: int)
    ensures
        0 <= pane < page.graph_slots ==> page.pane_of(pane_control(pane)) == Some(pane),
        page.pane_of(control_id) matches Some(shown) ==> control_id == pane_control(shown) && 0
            <= shown < page.graph_slots,
{
}

} // verus!
