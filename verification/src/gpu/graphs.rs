//! The graphs of the page, as they are drawn, and the line below the list of adapters.
use vstd::prelude::*;

use super::adapter_history::{history_for_graph, shown_history};
use super::controls::{graph_index, graph_of};
use super::page::GpuPageState;
use super::status::GpuPageStatus;
use crate::history::HistoryBuffer;
use crate::perf_drawing::{
    can_draw_line, can_draw_segments, HistoryPlotLayout, HistorySeries, GRAPH_GRID,
};
use crate::perf_graphs::{
    can_draw, can_draw_frame, draw_series, draw_series_on_frame, is_drawing, is_frame, is_near_rect,
    near_histories_can_be_drawn, series_views, FrameDrawing, GraphDrawing, SeriesView,
};
use crate::perfpage::GraphTarget;
use crate::rect::{fits_i32, max_i64, max_of, Rect};

verus! {

/// How a history is laid out on a graph: one pixel from value to value, and the whole height for
/// one hundred percent.
pub open spec fn graph_layout(rect: Rect) -> HistoryPlotLayout {
    HistoryPlotLayout {
        graph_height: max_of(rect.spec_height(), 1) as i32,
        width: max_of(rect.spec_width(), 1) as i32,
        scale: 1,
    }
}

/// A graph is drawn at its place.
pub open spec fn graph_target(rect: Rect) -> GraphTarget {
    GraphTarget {
        use_surface: false,
        target_rect: rect,
        width: max_of(rect.spec_width(), 1) as i32,
        height: max_of(rect.spec_height(), 1) as i32,
        layout: graph_layout(rect),
        source_x: 0,
    }
}

fn layout_of(rect: Rect) -> (layout: HistoryPlotLayout)
    requires
        fits_i32(rect.spec_width()),
        fits_i32(rect.spec_height()),
    ensures
        layout == graph_layout(rect),
{
    HistoryPlotLayout {
        graph_height: max_i64(rect.height(), 1) as i32,
        width: max_i64(rect.width(), 1) as i32,
        scale: 1,
    }
}

/// The texts for the states of the page, in the language of the user.
pub struct StatusTexts {
    pub loading: String,
    pub loading_performance: String,
    pub loading_details: String,
    pub partial_details: String,
    pub no_hardware: String,
    pub requires_newer_drivers: String,
    pub refresh_failed: String,
    pub refresh_failed_stale: String,
}

/// The text for a state. There is nothing to say where all is well.
pub open spec fn text_of_status(status: GpuPageStatus, texts: StatusTexts) -> Seq<char> {
    match status {
        GpuPageStatus::Loading => texts.loading@,
        GpuPageStatus::LoadingPerformance => texts.loading_performance@,
        GpuPageStatus::LoadingDetails => texts.loading_details@,
        GpuPageStatus::Ready => ""@,
        GpuPageStatus::Partial => texts.partial_details@,
        GpuPageStatus::NoHardware => texts.no_hardware@,
        GpuPageStatus::Unsupported => texts.requires_newer_drivers@,
        GpuPageStatus::Failed => texts.refresh_failed@,
        GpuPageStatus::Stale => texts.refresh_failed_stale@,
    }
}

impl GpuPageState {
    /// What a graph shows of the chosen adapter; nothing where there is no history.
    pub open spec fn graph_series(&self, graph: int) -> Seq<SeriesView> {
        let (history, color) = shown_history(
            self.selected_adapter,
            self.histories@,
            self.engine_selections@,
            graph,
        );
        match history {
            Some(values) => seq![SeriesView { color, values, stop_on_zero: false }],
            None => Seq::empty(),
        }
    }

    fn shown_series(&self, graph: usize) -> (series: Vec<HistorySeries<'_, HistoryBuffer>>)
        requires
            self.well_formed(),
        ensures
            series_views(series@) == self.graph_series(graph as int),
    {
        let mut series: Vec<HistorySeries<'_, HistoryBuffer>> = Vec::new();
        let (history, color) = history_for_graph(
            self.selected_adapter,
            &self.histories,
            &self.engine_selections,
            graph,
        );
        if let Some(history) = history {
            series.push(HistorySeries { history, color, stop_on_zero: false });
        }
        assert(series_views(series@) =~= self.graph_series(graph as int));
        series
    }

    /// Draws the graph that a control is; there is nothing to draw for other controls.
    pub fn draw_graph(&self, rect: Rect, control_id: i32) -> (drawing: Option<GraphDrawing>)
        requires
            self.well_formed(),
            fits_i32(rect.spec_width()),
            fits_i32(rect.spec_height()),
            graph_of(control_id as int) matches Some(graph) ==> can_draw(
                graph_target(rect),
                self.graph_scroll_offset as int,
                self.graph_series(graph),
            ),
        ensures
            match graph_of(control_id as int) {
                None => drawing is None,
                Some(graph) => drawing matches Some(drawing) && is_drawing(
                    drawing,
                    graph_target(rect),
                    self.graph_scroll_offset as int,
                    self.graph_series(graph),
                ),
            },
    {
        let graph: usize = match graph_index(control_id) {
            Some(graph) => graph,
            None => return None,
        };
        let series = self.shown_series(graph);
        let layout = layout_of(rect);
        let target = GraphTarget {
            use_surface: false,
            target_rect: rect,
            width: layout.width,
            height: layout.graph_height,
            layout,
            source_x: 0,
        };
        Some(draw_series(target, self.graph_scroll_offset, &series))
    }

    /// Draws the graph that a control is on a frame that covers it.
    pub fn draw_graph_gpu(&self, rect: Rect, bounds: Rect, control_id: i32) -> (drawing: Option<
        FrameDrawing,
    >)
        requires
            self.well_formed(),
            fits_i32(rect.spec_width()),
            fits_i32(rect.spec_height()),
            graph_of(control_id as int) matches Some(graph) ==> can_draw_frame(
                bounds,
                graph_layout(rect),
                self.graph_scroll_offset as int,
                self.graph_series(graph),
            ),
        ensures
            match graph_of(control_id as int) {
                None => drawing is None,
                Some(graph) => drawing matches Some(drawing) && is_frame(
                    drawing,
                    bounds,
                    graph_layout(rect),
                    self.graph_scroll_offset as int,
                    self.graph_series(graph),
                ),
            },
    {
        let graph: usize = match graph_index(control_id) {
            Some(graph) => graph,
            None => return None,
        };
        let series = self.shown_series(graph);
        Some(draw_series_on_frame(bounds, layout_of(rect), self.graph_scroll_offset, &series))
    }

    /// What the page says about its state.
    pub fn status_text<'a>(&self, texts: &'a StatusTexts) -> (text: &'a str)
        ensures
            text@ == text_of_status(self.status, *texts),
    {
        match self.status {
            GpuPageStatus::Loading => texts.loading.as_str(),
            GpuPageStatus::LoadingPerformance => texts.loading_performance.as_str(),
            GpuPageStatus::LoadingDetails => texts.loading_details.as_str(),
            GpuPageStatus::Ready => "",
            GpuPageStatus::Partial => texts.partial_details.as_str(),
            GpuPageStatus::NoHardware => texts.no_hardware.as_str(),
            GpuPageStatus::Unsupported => texts.requires_newer_drivers.as_str(),
            GpuPageStatus::Failed => texts.refresh_failed.as_str(),
            GpuPageStatus::Stale => texts.refresh_failed_stale.as_str(),
        }
    }
}

/// Graphs within some millions of pixels can be drawn, whatever was sampled.
pub proof fn near_adapter_graphs_can_be_drawn(
    rect: Rect,
    bounds: Rect,
    scroll_offset: int,
    series: Seq<SeriesView>,
)
    requires
        is_near_rect(rect),
        is_near_rect(bounds),
        0 <= scroll_offset < GRAPH_GRID,
    ensures
        can_draw(graph_target(rect), scroll_offset, series),
        can_draw_frame(bounds, graph_layout(rect), scroll_offset, series),
{
    let layout = graph_layout(rect);
    assert forall|i: int| 0 <= i < series.len() implies can_draw_line(
        rect,
        layout,
        (#[trigger] series[i]).values,
        series[i].stop_on_zero,
    ) && can_draw_segments(bounds, layout, series[i].values, series[i].stop_on_zero) by {
        near_histories_can_be_drawn(rect, layout, series[i].values, series[i].stop_on_zero);
        near_histories_can_be_drawn(bounds, layout, series[i].values, series[i].stop_on_zero);
    }
}

} // verus!
