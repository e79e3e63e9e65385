//! The graphs of the performance page, as they are drawn.
use vstd::prelude::*;

use crate::history::{newest, HistoryBuffer};
use crate::perf_drawing::{
    can_draw_line, can_draw_segments, draw_grid_width, draw_history_series,
    draw_history_series_gpu, drawn_count, grid, line_limit, line_points, line_segments, plot_x,
    plot_y, segment_limit, ChartColor, HistoryPlotLayout, HistorySeries, Point, Segment,
    GRAPH_GRID,
};
use crate::perfpage::{
    cpu_graph_target, cpu_target, mem_graph_target, mem_target, plot_layout, scale_for,
    GraphSurface, GraphTarget, PerformancePageState, CPU_HISTORY_PANES,
};
use crate::rect::{fits_i32, max_i64, max_of, Rect};

verus! {

/// A history on a graph, with the way it is drawn.
pub struct SeriesView {
    pub color: ChartColor,
    pub values: Seq<u8>,
    pub stop_on_zero: bool,
}

/// A line of a graph. One that has a single point is not visible.
pub struct PlotLine {
    pub color: ChartColor,
    pub points: Vec<Point>,
}

pub struct PlotLineView {
    pub color: ChartColor,
    pub points: Seq<Point>,
}

impl View for PlotLine {
    type V = PlotLineView;

    open spec fn view(&self) -> PlotLineView {
        PlotLineView { color: self.color, points: self.points@ }
    }
}

/// A line of a graph in single segments.
pub struct PlotSegments {
    pub color: ChartColor,
    pub segments: Vec<Segment>,
}

pub struct PlotSegmentsView {
    pub color: ChartColor,
    pub segments: Seq<Segment>,
}

impl View for PlotSegments {
    type V = PlotSegmentsView;

    open spec fn view(&self) -> PlotSegmentsView {
        PlotSegmentsView { color: self.color, segments: self.segments@ }
    }
}

/// A graph on black ground: the grid, and the lines over it in the order in which they are drawn.
/// From the surface the graph is copied to its place.
pub struct GraphDrawing {
    pub target: GraphTarget,
    pub grid: Vec<Segment>,
    pub lines: Vec<PlotLine>,
}

/// A graph on a frame of its own, on black ground as well.
pub struct FrameDrawing {
    pub grid: Vec<Segment>,
    pub lines: Vec<PlotSegments>,
}

/// The lines of some histories.
pub open spec fn plotted(
    rect: Rect,
    layout: HistoryPlotLayout,
    series: Seq<SeriesView>,
) -> Seq<PlotLineView> {
    series.map_values(
        |one: SeriesView|
            PlotLineView {
                color: one.color,
                points: line_points(rect, layout, one.values, one.stop_on_zero),
            },
    )
}

/// The lines of some histories in single segments.
pub open spec fn plotted_segments(
    rect: Rect,
    layout: HistoryPlotLayout,
    series: Seq<SeriesView>,
) -> Seq<PlotSegmentsView> {
    series.map_values(
        |one: SeriesView|
            PlotSegmentsView {
                color: one.color,
                segments: line_segments(rect, layout, one.values, one.stop_on_zero),
            },
    )
}

pub open spec fn line_views(lines: Seq<PlotLine>) -> Seq<PlotLineView> {
    lines.map_values(|line: PlotLine| line@)
}

pub open spec fn segment_views(lines: Seq<PlotSegments>) -> Seq<PlotSegmentsView> {
    lines.map_values(|line: PlotSegments| line@)
}

/// Whether a grid can be represented.
pub open spec fn can_draw_grid(rect: Rect, width: int, scroll_offset: int) -> bool {
    fits_i32(rect.right - max_of(width, 0)) && fits_i32(rect.right - scroll_offset)
}

/// Whether a graph of some histories can be represented.
pub open spec fn can_draw(target: GraphTarget, scroll_offset: int, series: Seq<SeriesView>) -> bool {
    &&& can_draw_grid(target.target_rect, target.width as int, scroll_offset)
    &&& forall|i: int|
        0 <= i < series.len() ==> can_draw_line(
            target.target_rect,
            target.layout,
            (#[trigger] series[i]).values,
            series[i].stop_on_zero,
        )
}

/// Whether `drawing` shows these histories at the target.
pub open spec fn is_drawing(
    drawing: GraphDrawing,
    target: GraphTarget,
    scroll_offset: int,
    series: Seq<SeriesView>,
) -> bool {
    &&& drawing.target == target
    &&& drawing.grid@ == grid(target.target_rect, target.width as int, scroll_offset)
    &&& line_views(drawing.lines@) == plotted(target.target_rect, target.layout, series)
}

/// How a history is laid out on a frame.
pub open spec fn frame_layout(bounds: Rect) -> HistoryPlotLayout {
    plot_layout(max_of(bounds.spec_width(), 1), bounds.spec_height())
}

pub open spec fn can_draw_frame(
    bounds: Rect,
    layout: HistoryPlotLayout,
    scroll_offset: int,
    series: Seq<SeriesView>,
) -> bool {
    &&& fits_i32(bounds.spec_width())
    &&& fits_i32(bounds.spec_height())
    &&& can_draw_grid(bounds, layout.width as int, scroll_offset)
    &&& forall|i: int|
        0 <= i < series.len() ==> can_draw_segments(
            bounds,
            layout,
            (#[trigger] series[i]).values,
            series[i].stop_on_zero,
        )
}

pub open spec fn is_frame(
    drawing: FrameDrawing,
    bounds: Rect,
    layout: HistoryPlotLayout,
    scroll_offset: int,
    series: Seq<SeriesView>,
) -> bool {
    &&& drawing.grid@ == grid(bounds, layout.width as int, scroll_offset)
    &&& segment_views(drawing.lines@) == plotted_segments(bounds, layout, series)
}

pub(crate) open spec fn series_view(series: HistorySeries<'_, HistoryBuffer>) -> SeriesView {
    SeriesView {
        color: series.color,
        values: series.history@,
        stop_on_zero: series.stop_on_zero,
    }
}

pub(crate) open spec fn series_views(series: Seq<HistorySeries<'_, HistoryBuffer>>) -> Seq<
    SeriesView,
> {
    series.map_values(|one: HistorySeries<'_, HistoryBuffer>| series_view(one))
}

/// Draws histories at a target.
pub(crate) fn draw_series(
    target: GraphTarget,
    scroll_offset: i32,
    series: &Vec<HistorySeries<'_, HistoryBuffer>>,
) -> (drawing: GraphDrawing)
    requires
        can_draw(target, scroll_offset as int, series_views(series@)),
    ensures
        is_drawing(drawing, target, scroll_offset as int, series_views(series@)),
{
    let ghost all = series_views(series@);
    let mut lines: Vec<PlotLine> = Vec::new();
    for index in 0..series.len()
        invariant
            all == series_views(series@),
            can_draw(target, scroll_offset as int, all),
            line_views(lines@) =~= plotted(target.target_rect, target.layout, all.take(index as int)),
    {
        assert(all[index as int] == series_view(series@[index as int]));
        let one = HistorySeries {
            history: series[index].history,
            color: series[index].color,
            stop_on_zero: series[index].stop_on_zero,
        };
        let ghost before = lines@;
        lines.push(
            PlotLine {
                color: one.color,
                points: draw_history_series(target.target_rect, target.layout, one),
            },
        );
        assert(line_views(lines@) =~= line_views(before).push(lines@[index as int]@));
        assert(all.take(index + 1) =~= all.take(index as int).push(all[index as int]));
    }
    assert(all.take(series@.len() as int) =~= all);
    GraphDrawing {
        target,
        grid: draw_grid_width(target.target_rect, target.width, scroll_offset),
        lines,
    }
}

/// Draws histories on a frame.
pub(crate) fn draw_series_on_frame(
    bounds: Rect,
    layout: HistoryPlotLayout,
    scroll_offset: i32,
    series: &Vec<HistorySeries<'_, HistoryBuffer>>,
) -> (drawing: FrameDrawing)
    requires
        can_draw_frame(bounds, layout, scroll_offset as int, series_views(series@)),
    ensures
        is_frame(drawing, bounds, layout, scroll_offset as int, series_views(series@)),
{
    let ghost all = series_views(series@);
    let mut lines: Vec<PlotSegments> = Vec::new();
    for index in 0..series.len()
        invariant
            all == series_views(series@),
            can_draw_frame(bounds, layout, scroll_offset as int, all),
            segment_views(lines@) =~= plotted_segments(bounds, layout, all.take(index as int)),
    {
        assert(all[index as int] == series_view(series@[index as int]));
        let one = HistorySeries {
            history: series[index].history,
            color: series[index].color,
            stop_on_zero: series[index].stop_on_zero,
        };
        let ghost before = lines@;
        lines.push(
            PlotSegments { color: one.color, segments: draw_history_series_gpu(bounds, layout, one) },
        );
        assert(segment_views(lines@) =~= segment_views(before).push(lines@[index as int]@));
        assert(all.take(index + 1) =~= all.take(index as int).push(all[index as int]));
    }
    assert(all.take(series@.len() as int) =~= all);
    FrameDrawing { grid: draw_grid_width(bounds, layout.width, scroll_offset), lines }
}

fn layout_on_frame(bounds: Rect) -> (layout: HistoryPlotLayout)
    requires
        fits_i32(bounds.spec_width()),
        fits_i32(bounds.spec_height()),
    ensures
        layout == frame_layout(bounds),
{
    let width: i32 = max_i64(bounds.width(), 1) as i32;
    HistoryPlotLayout {
        graph_height: max_i64(bounds.height() - 1, 1) as i32,
        width,
        scale: scale_for(width),
    }
}

impl PerformancePageState {
    /// What the graph of a pane shows: the time in the kernel, where the user wants it, and over
    /// it the whole time. In pane mode they are those of the processor, and else those of all
    /// processors together.
    pub open spec fn cpu_series(&self, pane_index: int) -> Seq<SeriesView> {
        let panes = self.settings.cpu_history_mode == CPU_HISTORY_PANES;
        let usage = SeriesView {
            color: ChartColor::Green,
            values: if panes {
                self.histories().cpu[pane_index]
            } else {
                self.histories().averaged_cpu
            },
            stop_on_zero: false,
        };
        let kernel = SeriesView {
            color: ChartColor::Red,
            values: if panes {
                self.histories().kernel[pane_index]
            } else {
                self.histories().averaged_kernel
            },
            stop_on_zero: false,
        };
        if self.settings.show_kernel_times {
            seq![kernel, usage]
        } else {
            seq![usage]
        }
    }

    /// What the memory graph shows. It ends where nothing was sampled yet.
    pub open spec fn mem_series(&self) -> Seq<SeriesView> {
        seq![
            SeriesView {
                color: ChartColor::Yellow,
                values: self.histories().mem,
                stop_on_zero: true,
            },
        ]
    }

    fn pane_series(&self, pane_index: usize) -> (series: Vec<HistorySeries<'_, HistoryBuffer>>)
        requires
            pane_index < self.cpu_history@.len(),
            self.well_formed(),
        ensures
            series_views(series@) == self.cpu_series(pane_index as int),
    {
        let panes = self.settings.cpu_history_mode == CPU_HISTORY_PANES;
        let mut series: Vec<HistorySeries<'_, HistoryBuffer>> = Vec::new();
        if self.settings.show_kernel_times {
            series.push(
                HistorySeries {
                    history: if panes {
                        &self.kernel_history[pane_index]
                    } else {
                        &self.averaged_kernel_history
                    },
                    color: ChartColor::Red,
                    stop_on_zero: false,
                },
            );
        }
        series.push(
            HistorySeries {
                history: if panes {
                    &self.cpu_history[pane_index]
                } else {
                    &self.averaged_cpu_history
                },
                color: ChartColor::Green,
                stop_on_zero: false,
            },
        );
        assert(series_views(series@) =~= self.cpu_series(pane_index as int));
        series
    }

    fn memory_series(&self) -> (series: Vec<HistorySeries<'_, HistoryBuffer>>)
        ensures
            series_views(series@) == self.mem_series(),
    {
        let mut series: Vec<HistorySeries<'_, HistoryBuffer>> = Vec::new();
        series.push(
            HistorySeries {
                history: &self.mem_history,
                color: ChartColor::Yellow,
                stop_on_zero: true,
            },
        );
        assert(series_views(series@) =~= self.mem_series());
        series
    }

    /// Draws the graph of a pane; there is nothing to draw where the pane has no processor.
    pub fn draw_cpu_graph(&self, rect: Rect, pane_index: usize) -> (drawing: Option<GraphDrawing>)
        requires
            self.well_formed(),
            fits_i32(rect.spec_width()),
            fits_i32(rect.spec_height()),
            pane_index < self.cpu_history@.len() ==> can_draw(
                cpu_target(self.surface, rect),
                self.scroll_offset as int,
                self.cpu_series(pane_index as int),
            ),
        ensures
            match drawing {
                None => pane_index >= self.cpu_history@.len(),
                Some(drawing) => pane_index < self.cpu_history@.len() && is_drawing(
                    drawing,
                    cpu_target(self.surface, rect),
                    self.scroll_offset as int,
                    self.cpu_series(pane_index as int),
                ),
            },
    {
        if pane_index >= self.cpu_history.len() {
            return None;
        }
        let series = self.pane_series(pane_index);
        let target = cpu_graph_target(self.surface, rect);
        Some(draw_series(target, self.scroll_offset, &series))
    }

    /// Draws the graph of a pane on a frame.
    pub fn draw_cpu_graph_gpu(&self, bounds: Rect, pane_index: usize) -> (drawing: FrameDrawing)
        requires
            pane_index < self.cpu_history@.len(),
            self.well_formed(),
            can_draw_frame(
                bounds,
                frame_layout(bounds),
                self.scroll_offset as int,
                self.cpu_series(pane_index as int),
            ),
        ensures
            is_frame(
                drawing,
                bounds,
                frame_layout(bounds),
                self.scroll_offset as int,
                self.cpu_series(pane_index as int),
            ),
    {
        let series = self.pane_series(pane_index);
        draw_series_on_frame(bounds, layout_on_frame(bounds), self.scroll_offset, &series)
    }

    /// Draws the memory graph.
    pub fn draw_mem_graph(&self, rect: Rect) -> (drawing: GraphDrawing)
        requires
            fits_i32(rect.spec_width()),
            fits_i32(rect.spec_height()),
            can_draw(
                mem_target(self.surface, rect),
                self.scroll_offset as int,
                self.mem_series(),
            ),
        ensures
            is_drawing(
                drawing,
                mem_target(self.surface, rect),
                self.scroll_offset as int,
                self.mem_series(),
            ),
    {
        let series = self.memory_series();
        draw_series(mem_graph_target(self.surface, rect), self.scroll_offset, &series)
    }

    /// Draws the memory graph on a frame.
    pub fn draw_mem_graph_gpu(&self, bounds: Rect) -> (drawing: FrameDrawing)
        requires
            can_draw_frame(
                bounds,
                frame_layout(bounds),
                self.scroll_offset as int,
                self.mem_series(),
            ),
        ensures
            is_frame(
                drawing,
                bounds,
                frame_layout(bounds),
                self.scroll_offset as int,
                self.mem_series(),
            ),
    {
        let series = self.memory_series();
        draw_series_on_frame(bounds, layout_on_frame(bounds), self.scroll_offset, &series)
    }
}

/// Whether a coordinate lies within some millions of pixels.
pub open spec fn is_near(value: i32) -> bool {
    -0x100_0000 <= value <= 0x100_0000
}

pub open spec fn is_near_rect(rect: Rect) -> bool {
    is_near(rect.left) && is_near(rect.top) && is_near(rect.right) && is_near(rect.bottom)
}

proof fn lemma_drawn_within(values: Seq<u8>, limit: int, stop_on_zero: bool)
    ensures
        0 <= drawn_count(values, limit, stop_on_zero) <= max_of(limit, 0),
    decreases limit,
{
    if limit > 0 {
        lemma_drawn_within(values, limit - 1, stop_on_zero);
    }
}

proof fn lemma_near_height(rect: Rect, layout: HistoryPlotLayout, value: u8)
    requires
        is_near_rect(rect),
        0 <= layout.graph_height <= 0x200_0000,
    ensures
        fits_i32(plot_y(rect, layout, value)),
{
    let product = value * layout.graph_height;
    assert(0 <= product <= 255 * 0x200_0000) by (nonlinear_arith)
        requires
            0 <= value <= 255,
            0 <= layout.graph_height <= 0x200_0000,
            product == value * layout.graph_height,
    ;
}

/// A history is drawn from the right edge of its graph, and never beyond its width. So every
/// graph within some millions of pixels can be drawn, as a line and in single segments.
pub proof fn near_histories_can_be_drawn(
    rect: Rect,
    layout: HistoryPlotLayout,
    values: Seq<u8>,
    stop_on_zero: bool,
)
    requires
        is_near_rect(rect),
        0 <= layout.width <= 0x200_0000,
        0 <= layout.graph_height <= 0x200_0000,
        layout.scale > 0,
    ensures
        can_draw_line(rect, layout, values, stop_on_zero),
        can_draw_segments(rect, layout, values, stop_on_zero),
        forall|i: int|
            0 <= i < line_points(rect, layout, values, stop_on_zero).len() ==> rect.right
                - layout.width <= (#[trigger] line_points(
                rect,
                layout,
                values,
                stop_on_zero,
            )[i]).x <= rect.right,
{
    let len = values.len() as int;
    let scale = layout.scale as int;
    let width = layout.width as int;
    let line = line_limit(layout, len);
    let segments = segment_limit(layout, len);
    lemma_drawn_within(values, line, stop_on_zero);
    lemma_drawn_within(values, segments, stop_on_zero);
    lemma_near_height(rect, layout, newest(values));
    vstd::arithmetic::div_mod::lemma_fundamental_div_mod(width, scale);
    vstd::arithmetic::div_mod::lemma_fundamental_div_mod(width + scale - 1, scale);
    assert forall|i: int| 0 <= i && (i < line || i < segments) implies 0 <= #[trigger] (layout.scale
        * i) <= width by {
        if i < line {
            assert(scale * i <= width) by (nonlinear_arith)
                requires
                    0 <= i < width / scale,
                    scale > 0,
                    width == scale * (width / scale) + width % scale,
                    0 <= width % scale,
            ;
        } else {
            assert(scale * i <= width) by (nonlinear_arith)
                requires
                    0 <= i < (width + scale - 1) / scale,
                    scale > 0,
                    width + scale - 1 == scale * ((width + scale - 1) / scale) + (width + scale - 1)
                        % scale,
                    0 <= (width + scale - 1) % scale,
            ;
        }
        assert(0 <= scale * i) by (nonlinear_arith)
            requires
                0 <= i,
                scale > 0,
        ;
    }
    assert forall|i: int| 0 <= i && (i < line || i < segments) && i < len implies fits_i32(
        layout.scale * i,
    ) && fits_i32(#[trigger] plot_x(rect, layout, i)) && fits_i32(
        plot_y(rect, layout, values[i]),
    ) && rect.right - width <= plot_x(rect, layout, i) <= rect.right by {
        lemma_near_height(rect, layout, values[i]);
        assert(0 <= layout.scale * i <= width);
    }
    if len > 0 {
        let points = line_points(rect, layout, values, stop_on_zero);
        assert forall|i: int| 0 <= i < points.len() implies rect.right - layout.width <= (
        #[trigger] points[i]).x <= rect.right by {
            if i > 0 {
                assert(fits_i32(plot_x(rect, layout, i - 1)));
            }
        }
    }
}

/// Graphs within some millions of pixels can be drawn, whatever was sampled: on the surface, at
/// their place and on a frame.
pub proof fn near_graphs_can_be_drawn(
    surface: GraphSurface,
    rect: Rect,
    scroll_offset: int,
    series: Seq<SeriesView>,
)
    requires
        is_near_rect(rect),
        is_near(surface.width),
        is_near(surface.height),
        0 <= scroll_offset < GRAPH_GRID,
    ensures
        fits_i32(rect.spec_width()),
        fits_i32(rect.spec_height()),
        can_draw(cpu_target(surface, rect), scroll_offset, series),
        can_draw(mem_target(surface, rect), scroll_offset, series),
        can_draw_frame(rect, frame_layout(rect), scroll_offset, series),
{
    let cpu = cpu_target(surface, rect);
    let mem = mem_target(surface, rect);
    assert forall|i: int| 0 <= i < series.len() implies can_draw_line(
        cpu.target_rect,
        cpu.layout,
        (#[trigger] series[i]).values,
        series[i].stop_on_zero,
    ) && can_draw_line(mem.target_rect, mem.layout, series[i].values, series[i].stop_on_zero)
        && can_draw_segments(rect, frame_layout(rect), series[i].values, series[i].stop_on_zero) by {
        let (values, stop) = (series[i].values, series[i].stop_on_zero);
        near_histories_can_be_drawn(cpu.target_rect, cpu.layout, values, stop);
        near_histories_can_be_drawn(mem.target_rect, mem.layout, values, stop);
        near_histories_can_be_drawn(rect, frame_layout(rect), values, stop);
    }
}

} // verus!
